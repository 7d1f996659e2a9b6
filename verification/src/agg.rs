//! The five aggregations: count, sum, min, max, avg.
//!
//! Sums accumulate exactly in a wide integer while every input is an integer,
//! and fall back to double arithmetic — carried as decimal text — the moment
//! a float appears. Minima and maxima compare strictly within one primitive
//! kind; mixing kinds is an error.

use vstd::prelude::*;

use crate::engine::{
    EngineAggregationExpr, EngineAggregationFunction, EngineSelection, QueryPlan,
};
use crate::errors::{EngineErrVal, EngineError};
use crate::jsonv::{
    canonical_rep, float_add_decimal, float_divide_decimal, float_ratio_dec, float_sum_dec,
    float_value, spec_type_name, spec_value_rank, val_wf, vals_view, value_type_name, JsonVal,
    JsonValue,
};
use crate::num::{int_chars, nat_chars, push_i128_chars, push_u128_chars, spec_dec_of_chars, Rel};
use crate::object::{obj_wf, spec_entries_insert, spec_obj_get, DynamicObject, FieldMap};
use crate::sort::spec_cmp_concrete;
use crate::text::string_from_chars;

verus! {

broadcast use crate::jsonv::lemma_vals_view_len, crate::jsonv::lemma_vals_view_index;

/// The non-null values found at `path`, in object order.
pub open spec fn spec_agg_values(objs: Seq<DynamicObject>, path: Seq<char>) -> Seq<JsonVal>
    decreases objs.len(),
{
    if objs.len() == 0 {
        Seq::empty()
    } else {
        spec_agg_values(objs.drop_last(), path) + (match spec_obj_get(objs.last()@, path) {
            Some(v) => if v is Null {
                Seq::empty()
            } else {
                seq![v]
            },
            None => Seq::empty(),
        })
    }
}

/// The values at `path` never outnumber the objects: `count(*)` is at least
/// `count(path)`.
pub proof fn lemma_count_star_bounds_count_path(objs: Seq<DynamicObject>, path: Seq<char>)
    ensures
        spec_agg_values(objs, path).len() <= objs.len(),
    decreases objs.len(),
{
    if objs.len() > 0 {
        lemma_count_star_bounds_count_path(objs.drop_last(), path);
    }
}

/// Collects duplicates of the non-null values at `path`.
fn collect_values(objects: &Vec<DynamicObject>, path: &str) -> (r: Vec<JsonValue>)
    requires
        forall|i: int| 0 <= i < objects@.len() ==> obj_wf(#[trigger] &objects@[i]),
    ensures
        vals_view(r@) == spec_agg_values(objects@, path@),
        forall|i: int|
            0 <= i < r@.len() ==> val_wf(#[trigger] r@[i]@) && canonical_rep(&r@[i]),
{
    let mut out: Vec<JsonValue> = Vec::new();
    let mut i: usize = 0;
    while i < objects.len()
        invariant
            i <= objects@.len(),
            forall|j: int| 0 <= j < objects@.len() ==> obj_wf(#[trigger] &objects@[j]),
            vals_view(out@) == spec_agg_values(objects@.take(i as int), path@),
            forall|j: int|
                #![trigger out@[j]]
                0 <= j < out@.len() ==> val_wf(out@[j]@) && canonical_rep(&out@[j]),
        decreases objects@.len() - i,
    {
        proof {
            assert(objects@.take(i + 1).drop_last() =~= objects@.take(i as int));
            assert(objects@.take(i + 1).last() == objects@[i as int]);
        }
        proof {
            assert(obj_wf(&objects@[i as int]));
        }
        match objects[i].get(path) {
            Some(v) => {
                if !v.is_null() {
                    proof {
                        assert(val_wf(v@) && canonical_rep(v));
                    }
                    let d = v.duplicate();
                    proof {
                        assert(val_wf(d@) && canonical_rep(&d));
                    }
                    let ghost pre = out@;
                    out.push(d);
                    proof {
                        assert(out@.drop_last() =~= pre);
                        assert(out@.last()@ == v@);
                        assert forall|j: int| #![trigger out@[j]] 0 <= j < out@.len() implies
                            val_wf(out@[j]@) && canonical_rep(&out@[j]) by {
                            if j < pre.len() {
                                assert(out@[j] == pre[j]);
                            } else {
                                assert(out@[j] == out@.last());
                            }
                        }
                        assert(vals_view(out@) =~= spec_agg_values(objects@.take(i + 1), path@));
                    }
                } else {
                    proof {
                        assert(vals_view(out@) =~= spec_agg_values(objects@.take(i + 1), path@));
                    }
                }
            },
            None => {
                proof {
                    assert(vals_view(out@) =~= spec_agg_values(objects@.take(i + 1), path@));
                }
            },
        }
        i = i + 1;
    }
    proof {
        assert(objects@.take(i as int) =~= objects@);
    }
    out
}

/// A count as a canonical JSON number.
fn count_value(n: u64) -> (r: JsonValue)
    ensures
        r@ == JsonVal::Int(n as int),
        val_wf(r@),
        canonical_rep(&r),
{
    if n <= 0x7fff_ffff_ffff_ffffu64 {
        JsonValue::Int(n as i64)
    } else {
        JsonValue::Uint(n)
    }
}

/// Builds an aggregation failure.
fn invalid_agg(function: &str, path: &str, expected: &str, actual: String) -> (r: EngineError)
    ensures
        r@ == (EngineErrVal::InvalidAggregation {
            function: function@,
            path: path@,
            expected: expected@,
            actual: actual@,
        }),
{
    EngineError::InvalidAggregation {
        function: String::from_str(function),
        path: String::from_str(path),
        expected: String::from_str(expected),
        actual,
    }
}

/// The running state of a sum: exact while integral, decimal text after the
/// switch to doubles.
pub ghost enum SumSt {
    Exact(int),
    Flo(Seq<char>),
}

pub open spec fn spec_overflow_err(fname: Seq<char>, path: Seq<char>) -> EngineErrVal {
    EngineErrVal::InvalidAggregation {
        function: fname,
        path: path,
        expected: "representable integer sum"@,
        actual: "overflow"@,
    }
}

pub open spec fn spec_nonfinite_err(fname: Seq<char>, path: Seq<char>) -> EngineErrVal {
    EngineErrVal::InvalidAggregation {
        function: fname,
        path: path,
        expected: "finite numeric result"@,
        actual: "non-finite"@,
    }
}

pub open spec fn spec_non_numeric_err(fname: Seq<char>, path: Seq<char>, v: JsonVal) -> EngineErrVal {
    EngineErrVal::InvalidAggregation {
        function: fname,
        path: path,
        expected: "number"@,
        actual: spec_type_name(v),
    }
}

/// One summation over the values: exact integer arithmetic until a float
/// appears, then double addition over decimal text; a non-number is an error.
pub open spec fn spec_sum_go(
    vals: Seq<JsonVal>,
    st: SumSt,
    fname: Seq<char>,
    path: Seq<char>,
) -> Result<SumSt, EngineErrVal>
    decreases vals.len(),
{
    if vals.len() == 0 {
        Ok(st)
    } else {
        match vals[0] {
            JsonVal::Int(x) => match st {
                SumSt::Exact(t) => if i128::MIN <= t + x <= i128::MAX {
                    spec_sum_go(vals.drop_first(), SumSt::Exact(t + x), fname, path)
                } else {
                    Err(spec_overflow_err(fname, path))
                },
                SumSt::Flo(d) => match float_sum_dec(d, int_chars(x)) {
                    Some(d2) => spec_sum_go(vals.drop_first(), SumSt::Flo(d2), fname, path),
                    None => Err(spec_nonfinite_err(fname, path)),
                },
            },
            JsonVal::Float(s) => {
                let base = match st {
                    SumSt::Exact(t) => int_chars(t),
                    SumSt::Flo(d) => d,
                };
                match float_sum_dec(base, s) {
                    Some(d2) => spec_sum_go(vals.drop_first(), SumSt::Flo(d2), fname, path),
                    None => Err(spec_nonfinite_err(fname, path)),
                }
            },
            v => Err(spec_non_numeric_err(fname, path, v)),
        }
    }
}

/// The result a sum denotes: zero on no values; an exact integer result when
/// everything stayed integral and the total is a representable JSON integer;
/// the decimal text of the double total otherwise.
pub open spec fn spec_sum_result(vals: Seq<JsonVal>, path: Seq<char>) -> Result<
    JsonVal,
    EngineErrVal,
> {
    if vals.len() == 0 {
        Ok(JsonVal::Int(0))
    } else {
        match spec_sum_go(vals, SumSt::Exact(0), "sum"@, path) {
            Ok(SumSt::Exact(t)) => if i64::MIN <= t <= i64::MAX || 0 <= t <= u64::MAX {
                Ok(JsonVal::Int(t))
            } else {
                Err(
                    EngineErrVal::InvalidAggregation {
                        function: "sum"@,
                        path: path,
                        expected: "representable JSON integer"@,
                        actual: "out of range"@,
                    },
                )
            },
            Ok(SumSt::Flo(d)) => if spec_dec_of_chars(d) is Some {
                Ok(JsonVal::Float(d))
            } else {
                Err(spec_nonfinite_err("sum"@, path))
            },
            Err(e) => Err(e),
        }
    }
}

/// Summing integers stays exact: when every value is an integer and the
/// mathematical total is a representable JSON integer, the sum returns it
/// with no drift.
pub proof fn lemma_integer_sum_exact(vals: Seq<JsonVal>, path: Seq<char>)
    requires
        vals.len() > 0,
        vals.len() < 0x8000_0000_0000_0000,
        forall|i: int|
            #![trigger vals[i]]
            0 <= i < vals.len() ==> vals[i] is Int && i64::MIN <= vals[i]->Int_0 <= i64::MAX,
        i64::MIN <= spec_int_total(vals) <= i64::MAX,
    ensures
        spec_sum_result(vals, path) == Ok::<JsonVal, EngineErrVal>(JsonVal::Int(spec_int_total(vals))),
{
    lemma_integer_sum_go(vals, 0, vals.len() as int, "sum"@, path);
}

/// The mathematical total of a sequence of integer values.
pub open spec fn spec_int_total(vals: Seq<JsonVal>) -> int
    decreases vals.len(),
{
    if vals.len() == 0 {
        0
    } else {
        spec_int_total(vals.drop_first()) + vals[0]->Int_0
    }
}

proof fn lemma_integer_sum_go(vals: Seq<JsonVal>, acc: int, bound: int, fname: Seq<char>, path: Seq<char>)
    requires
        forall|i: int|
            #![trigger vals[i]]
            0 <= i < vals.len() ==> vals[i] is Int && i64::MIN <= vals[i]->Int_0 <= i64::MAX,
        vals.len() <= bound,
        bound < 0x8000_0000_0000_0000,
        -(bound - vals.len()) * 0x8000_0000_0000_0000 <= acc <= (bound - vals.len())
            * 0x8000_0000_0000_0000,
    ensures
        spec_sum_go(vals, SumSt::Exact(acc), fname, path) == Ok::<SumSt, EngineErrVal>(
            SumSt::Exact(acc + spec_int_total(vals)),
        ),
    decreases vals.len(),
{
    if vals.len() > 0 {
        let x = vals[0]->Int_0;
        assert(-(bound - vals.len() + 1) * 0x8000_0000_0000_0000 <= acc + x <= (bound - vals.len()
            + 1) * 0x8000_0000_0000_0000) by (nonlinear_arith)
            requires
                -(bound - vals.len()) * 0x8000_0000_0000_0000 <= acc <= (bound - vals.len())
                    * 0x8000_0000_0000_0000,
                -0x8000_0000_0000_0000 <= x <= 0x8000_0000_0000_0000,
        ;
        assert(i128::MIN <= acc + x <= i128::MAX) by (nonlinear_arith)
            requires
                -(bound - vals.len() + 1) * 0x8000_0000_0000_0000 <= acc + x <= (bound - vals.len()
                    + 1) * 0x8000_0000_0000_0000,
                0 <= bound - vals.len() + 1 <= bound,
                bound < 0x8000_0000_0000_0000,
        ;
        lemma_integer_sum_go(vals.drop_first(), acc + x, bound, fname, path);
        assert(spec_int_total(vals) == spec_int_total(vals.drop_first()) + x);
    }
}

/// Runs a sum over collected values, returning the running state.
fn sum_fold(vals: &Vec<JsonValue>, fname: &str, path: &str) -> (r: Result<
    (i128, bool, String),
    EngineError,
>)
    requires
        forall|i: int| 0 <= i < vals@.len() ==> val_wf(#[trigger] vals@[i]@),
    ensures
        match r {
            Ok((acc, use_float, facc)) => spec_sum_go(
                vals_view(vals@),
                SumSt::Exact(0),
                fname@,
                path@,
            ) == Ok::<SumSt, EngineErrVal>(
                if use_float {
                    SumSt::Flo(facc@)
                } else {
                    SumSt::Exact(acc as int)
                },
            ),
            Err(e) => spec_sum_go(vals_view(vals@), SumSt::Exact(0), fname@, path@) == Err::<
                SumSt,
                EngineErrVal,
            >(e@),
        },
{
    let ghost vv = vals_view(vals@);
    proof {
        assert(vv.skip(0) =~= vv);
    }
    let mut acc: i128 = 0;
    let mut use_float = false;
    let mut facc = String::new();
    let mut i: usize = 0;
    while i < vals.len()
        invariant
            i <= vals@.len(),
            vv == vals_view(vals@),
            forall|j: int| 0 <= j < vals@.len() ==> val_wf(#[trigger] vals@[j]@),
            spec_sum_go(vv, SumSt::Exact(0), fname@, path@) == spec_sum_go(
                vv.skip(i as int),
                if use_float {
                    SumSt::Flo(facc@)
                } else {
                    SumSt::Exact(acc as int)
                },
                fname@,
                path@,
            ),
        decreases vals@.len() - i,
    {
        proof {
            assert(vv.skip(i as int)[0] == vv[i as int]);
            assert(vv[i as int] == vals@[i as int]@);
            assert(vv.skip(i as int).drop_first() =~= vv.skip(i + 1));
        }
        match &vals[i] {
            JsonValue::Int(x) => {
                if !use_float {
                    let xi: i128 = *x as i128;
                    if (xi >= 0 && acc > i128::MAX - xi) || (xi < 0 && acc < i128::MIN - xi) {
                        return Err(invalid_agg(
                            fname,
                            path,
                            "representable integer sum",
                            String::from_str("overflow"),
                        ));
                    }
                    acc = acc + xi;
                } else {
                    let mut cs: Vec<char> = Vec::new();
                    push_i128_chars(*x as i128, &mut cs);
                    let xs = string_from_chars(&cs);
                    match float_add_decimal(facc.as_str(), xs.as_str()) {
                        Some(d2) => {
                            facc = d2;
                        },
                        None => {
                            return Err(invalid_agg(
                                fname,
                                path,
                                "finite numeric result",
                                String::from_str("non-finite"),
                            ));
                        },
                    }
                }
            },
            JsonValue::Uint(x) => {
                if !use_float {
                    let xi: i128 = *x as i128;
                    if acc > i128::MAX - xi {
                        return Err(invalid_agg(
                            fname,
                            path,
                            "representable integer sum",
                            String::from_str("overflow"),
                        ));
                    }
                    acc = acc + xi;
                } else {
                    let mut cs: Vec<char> = Vec::new();
                    push_i128_chars(*x as i128, &mut cs);
                    let xs = string_from_chars(&cs);
                    match float_add_decimal(facc.as_str(), xs.as_str()) {
                        Some(d2) => {
                            facc = d2;
                        },
                        None => {
                            return Err(invalid_agg(
                                fname,
                                path,
                                "finite numeric result",
                                String::from_str("non-finite"),
                            ));
                        },
                    }
                }
            },
            JsonValue::Float(s) => {
                let base: String = if use_float {
                    facc
                } else {
                    let mut cs: Vec<char> = Vec::new();
                    push_i128_chars(acc, &mut cs);
                    string_from_chars(&cs)
                };
                match float_add_decimal(base.as_str(), s.as_str()) {
                    Some(d2) => {
                        facc = d2;
                        use_float = true;
                    },
                    None => {
                        return Err(invalid_agg(
                            fname,
                            path,
                            "finite numeric result",
                            String::from_str("non-finite"),
                        ));
                    },
                }
            },
            other => {
                let actual = String::from_str(value_type_name(other));
                return Err(invalid_agg(fname, path, "number", actual));
            },
        }
        i = i + 1;
    }
    proof {
        assert(vv.skip(i as int) =~= Seq::<JsonVal>::empty());
    }
    Ok((acc, use_float, facc))
}

/// The sum over the values at `path`: zero when no value exists; exact while
/// integral; double arithmetic once a float appears; an error on a
/// non-number, on integer overflow, or on a non-finite result.
pub fn sum_aggregation(path: &str, objects: &Vec<DynamicObject>) -> (r: Result<
    JsonValue,
    EngineError,
>)
    requires
        forall|i: int| 0 <= i < objects@.len() ==> obj_wf(#[trigger] &objects@[i]),
    ensures
        match r {
            Ok(v) => spec_sum_result(spec_agg_values(objects@, path@), path@) == Ok::<JsonVal, EngineErrVal>(v@) && val_wf(
                v@,
            ) && canonical_rep(&v),
            Err(e) => spec_sum_result(spec_agg_values(objects@, path@), path@) == Err::<
                JsonVal,
                EngineErrVal,
            >(e@),
        },
{
    let vals = collect_values(objects, path);
    let ghost vv = vals_view(vals@);
    if vals.len() == 0 {
        proof {
            assert(vv =~= Seq::<JsonVal>::empty());
        }
        return Ok(JsonValue::Int(0));
    }
    match sum_fold(&vals, "sum", path) {
        Ok((acc, use_float, facc)) => {
            if !use_float {
                if -0x8000_0000_0000_0000i128 <= acc && acc <= 0x7fff_ffff_ffff_ffffi128 {
                    Ok(JsonValue::Int(acc as i64))
                } else if 0 <= acc && acc <= 0xffff_ffff_ffff_ffffi128 {
                    Ok(JsonValue::Uint(acc as u64))
                } else {
                    Err(invalid_agg(
                        "sum",
                        path,
                        "representable JSON integer",
                        String::from_str("out of range"),
                    ))
                }
            } else {
                match float_value(facc) {
                    Some(v) => Ok(v),
                    None => Err(invalid_agg(
                        "sum",
                        path,
                        "finite numeric result",
                        String::from_str("non-finite"),
                    )),
                }
            }
        },
        Err(e) => Err(e),
    }
}

/// The result an average denotes: null on no values, else the double
/// quotient of the sum by the count, carried as decimal text.
pub open spec fn spec_avg_result(vals: Seq<JsonVal>, path: Seq<char>) -> Result<
    JsonVal,
    EngineErrVal,
> {
    if vals.len() == 0 {
        Ok(JsonVal::Null)
    } else {
        match spec_sum_go(vals, SumSt::Exact(0), "avg"@, path) {
            Ok(st) => {
                let base = match st {
                    SumSt::Exact(t) => int_chars(t),
                    SumSt::Flo(d) => d,
                };
                match float_ratio_dec(base, nat_chars(vals.len() as nat)) {
                    Some(q) => if spec_dec_of_chars(q) is Some {
                        Ok(JsonVal::Float(q))
                    } else {
                        Err(spec_nonfinite_err("avg"@, path))
                    },
                    None => Err(spec_nonfinite_err("avg"@, path)),
                }
            },
            Err(e) => Err(e),
        }
    }
}

/// The floating-point mean of the values at `path`; null when none exist.
pub fn avg_aggregation(path: &str, objects: &Vec<DynamicObject>) -> (r: Result<
    JsonValue,
    EngineError,
>)
    requires
        forall|i: int| 0 <= i < objects@.len() ==> obj_wf(#[trigger] &objects@[i]),
    ensures
        match r {
            Ok(v) => spec_avg_result(spec_agg_values(objects@, path@), path@) == Ok::<JsonVal, EngineErrVal>(v@) && val_wf(
                v@,
            ) && canonical_rep(&v),
            Err(e) => spec_avg_result(spec_agg_values(objects@, path@), path@) == Err::<
                JsonVal,
                EngineErrVal,
            >(e@),
        },
{
    let vals = collect_values(objects, path);
    let ghost vv = vals_view(vals@);
    let count = vals.len();
    if count == 0 {
        proof {
            assert(vv =~= Seq::<JsonVal>::empty());
        }
        return Ok(JsonValue::Null);
    }
    match sum_fold(&vals, "avg", path) {
        Ok((acc, use_float, facc)) => {
            let base: String = if use_float {
                facc
            } else {
                let mut cs: Vec<char> = Vec::new();
                push_i128_chars(acc, &mut cs);
                string_from_chars(&cs)
            };
            let mut ccs: Vec<char> = Vec::new();
            push_u128_chars(count as u128, &mut ccs);
            let count_text = string_from_chars(&ccs);
            match float_divide_decimal(base.as_str(), count_text.as_str()) {
                Some(q) => match float_value(q) {
                    Some(v) => Ok(v),
                    None => Err(invalid_agg(
                        "avg",
                        path,
                        "finite numeric result",
                        String::from_str("non-finite"),
                    )),
                },
                None => Err(invalid_agg(
                    "avg",
                    path,
                    "finite numeric result",
                    String::from_str("non-finite"),
                )),
            }
        },
        Err(e) => Err(e),
    }
}


/// One minimum/maximum pass: only booleans, numbers and strings compare;
/// every value must share the first value's kind; within the kind the best
/// value so far is kept.
pub open spec fn spec_minmax_go(
    vals: Seq<JsonVal>,
    best: Option<JsonVal>,
    is_min: bool,
    fname: Seq<char>,
    path: Seq<char>,
) -> Result<Option<JsonVal>, EngineErrVal>
    decreases vals.len(),
{
    if vals.len() == 0 {
        Ok(best)
    } else {
        let v = vals[0];
        if spec_value_rank(v) >= 3 {
            Err(
                EngineErrVal::InvalidAggregation {
                    function: fname,
                    path: path,
                    expected: "bool, number, or string"@,
                    actual: spec_type_name(v),
                },
            )
        } else {
            match best {
                None => spec_minmax_go(vals.drop_first(), Some(v), is_min, fname, path),
                Some(b) => if spec_value_rank(b) != spec_value_rank(v) {
                    Err(
                        EngineErrVal::IncompatibleAggregationTypes {
                            function: fname,
                            path: path,
                            left: spec_type_name(b),
                            right: spec_type_name(v),
                        },
                    )
                } else {
                    let c = spec_cmp_concrete(b, v);
                    let take_new = (is_min && c == Rel::Gt) || (!is_min && c == Rel::Lt);
                    spec_minmax_go(
                        vals.drop_first(),
                        Some(
                            if take_new {
                                v
                            } else {
                                b
                            },
                        ),
                        is_min,
                        fname,
                        path,
                    )
                },
            }
        }
    }
}

/// The minimum or maximum over the values: null when none exist.
pub open spec fn spec_minmax_result(
    vals: Seq<JsonVal>,
    is_min: bool,
    fname: Seq<char>,
    path: Seq<char>,
) -> Result<JsonVal, EngineErrVal> {
    match spec_minmax_go(vals, None, is_min, fname, path) {
        Ok(None) => Ok(JsonVal::Null),
        Ok(Some(b)) => Ok(b),
        Err(e) => Err(e),
    }
}

/// On no values: a sum is zero, while an average, a minimum and a maximum
/// are null.
pub proof fn lemma_empty_aggregations(path: Seq<char>, fname: Seq<char>)
    ensures
        spec_sum_result(Seq::empty(), path) == Ok::<JsonVal, EngineErrVal>(JsonVal::Int(0)),
        spec_avg_result(Seq::empty(), path) == Ok::<JsonVal, EngineErrVal>(JsonVal::Null),
        spec_minmax_result(Seq::empty(), true, fname, path) == Ok::<JsonVal, EngineErrVal>(
            JsonVal::Null,
        ),
        spec_minmax_result(Seq::empty(), false, fname, path) == Ok::<JsonVal, EngineErrVal>(
            JsonVal::Null,
        ),
{
}

/// The minimum or maximum of the values at `path`.
pub fn min_max_aggregation(path: &str, objects: &Vec<DynamicObject>, is_min: bool) -> (r: Result<
    JsonValue,
    EngineError,
>)
    requires
        forall|i: int| 0 <= i < objects@.len() ==> obj_wf(#[trigger] &objects@[i]),
    ensures
        ({
            let fname = if is_min {
                "min"@
            } else {
                "max"@
            };
            match r {
                Ok(v) => spec_minmax_result(spec_agg_values(objects@, path@), is_min, fname, path@)
                    == Ok::<JsonVal, EngineErrVal>(v@) && val_wf(v@) && canonical_rep(&v),
                Err(e) => spec_minmax_result(
                    spec_agg_values(objects@, path@),
                    is_min,
                    fname,
                    path@,
                ) == Err::<JsonVal, EngineErrVal>(e@),
            }
        }),
{
    let fname: &str = if is_min {
        "min"
    } else {
        "max"
    };
    let vals = collect_values(objects, path);
    let ghost vv = vals_view(vals@);
    proof {
        assert(vv.skip(0) =~= vv);
    }
    let mut best: Option<usize> = None;
    let mut i: usize = 0;
    while i < vals.len()
        invariant
            i <= vals@.len(),
            vv == vals_view(vals@),
            fname@ == (if is_min {
                "min"@
            } else {
                "max"@
            }),
            vals_view(vals@) == spec_agg_values(objects@, path@),
            forall|j: int|
                #![trigger vals@[j]]
                0 <= j < vals@.len() ==> val_wf(vals@[j]@) && canonical_rep(&vals@[j]),
            match best {
                None => true,
                Some(b) => b < i,
            },
            spec_minmax_go(vv, None, is_min, fname@, path@) == spec_minmax_go(
                vv.skip(i as int),
                match best {
                    None => None,
                    Some(b) => Some(vv[b as int]),
                },
                is_min,
                fname@,
                path@,
            ),
        decreases vals@.len() - i,
    {
        proof {
            assert(vv.skip(i as int)[0] == vv[i as int]);
            assert(vv[i as int] == vals@[i as int]@);
            assert(vv.skip(i as int).drop_first() =~= vv.skip(i + 1));
        }
        let v = &vals[i];
        let rank = crate::jsonv::value_rank(v);
        if rank >= 3 {
            let actual = String::from_str(value_type_name(v));
            return Err(invalid_agg(fname, path, "bool, number, or string", actual));
        }
        match best {
            None => {
                best = Some(i);
            },
            Some(b) => {
                let bv = &vals[b];
                if crate::jsonv::value_rank(bv) != rank {
                    let left = String::from_str(value_type_name(bv));
                    let right = String::from_str(value_type_name(v));
                    return Err(EngineError::IncompatibleAggregationTypes {
                        function: String::from_str(fname),
                        path: String::from_str(path),
                        left,
                        right,
                    });
                }
                let c = crate::sort::compare_concrete(bv, v);
                let take_new = (is_min && matches!(c, Rel::Gt)) || (!is_min && matches!(
                    c,
                    Rel::Lt,
                ));
                if take_new {
                    best = Some(i);
                }
            },
        }
        i = i + 1;
    }
    proof {
        assert(vv.skip(i as int) =~= Seq::<JsonVal>::empty());
    }
    match best {
        None => Ok(JsonValue::Null),
        Some(b) => Ok(vals[b].duplicate()),
    }
}

/// The count: of all objects for `count(*)`, of the objects that hold a
/// non-null value at the path for `count(path)`.
pub fn count_aggregation(path: Option<&str>, objects: &Vec<DynamicObject>) -> (r: JsonValue)
    requires
        forall|i: int| 0 <= i < objects@.len() ==> obj_wf(#[trigger] &objects@[i]),
    ensures
        match path {
            None => r@ == JsonVal::Int(objects@.len() as int),
            Some(p) => r@ == JsonVal::Int(spec_agg_values(objects@, p@).len() as int),
        },
        val_wf(r@),
        canonical_rep(&r),
{
    match path {
        None => count_value(objects.len() as u64),
        Some(p) => {
            let vals = collect_values(objects, p);
            count_value(vals.len() as u64)
        },
    }
}

pub open spec fn spec_agg_fn_name(f: EngineAggregationFunction) -> Seq<char> {
    match f {
        EngineAggregationFunction::Count => "count"@,
        EngineAggregationFunction::Sum => "sum"@,
        EngineAggregationFunction::Min => "min"@,
        EngineAggregationFunction::Max => "max"@,
        EngineAggregationFunction::Avg => "avg"@,
    }
}

/// The name an aggregation renders under.
pub fn aggregation_function_name(function: &EngineAggregationFunction) -> (r: &'static str)
    ensures
        r@ == spec_agg_fn_name(*function),
{
    match function {
        EngineAggregationFunction::Count => "count",
        EngineAggregationFunction::Sum => "sum",
        EngineAggregationFunction::Min => "min",
        EngineAggregationFunction::Max => "max",
        EngineAggregationFunction::Avg => "avg",
    }
}

pub open spec fn opt_path_view(p: &Option<String>) -> Option<Seq<char>> {
    match p {
        Some(s) => Some(s@),
        None => None,
    }
}

/// The display key of an aggregation: `name(path)`, or `name(*)` without a
/// path.
pub open spec fn spec_agg_key(f: EngineAggregationFunction, path: Option<Seq<char>>) -> Seq<char> {
    spec_agg_fn_name(f) + "("@ + (match path {
        Some(p) => p,
        None => "*"@,
    }) + ")"@
}

pub fn aggregation_key(expr: &EngineAggregationExpr) -> (r: String)
    ensures
        r@ == spec_agg_key(expr.function, opt_path_view(&expr.path)),
{
    let mut out = String::from_str(aggregation_function_name(&expr.function));
    out.append("(");
    match &expr.path {
        Some(p) => {
            out.append(p.as_str());
        },
        None => {
            out.append("*");
        },
    }
    out.append(")");
    out
}

pub open spec fn spec_missing_path_err(f: EngineAggregationFunction) -> EngineErrVal {
    EngineErrVal::InvalidAggregation {
        function: spec_agg_fn_name(f),
        path: "*"@,
        expected: "path argument"@,
        actual: "none"@,
    }
}

/// What one aggregation expression evaluates to over the objects.
pub open spec fn spec_agg_value(
    f: EngineAggregationFunction,
    path: Option<Seq<char>>,
    objs: Seq<DynamicObject>,
) -> Result<JsonVal, EngineErrVal> {
    match f {
        EngineAggregationFunction::Count => match path {
            None => Ok(JsonVal::Int(objs.len() as int)),
            Some(p) => Ok(JsonVal::Int(spec_agg_values(objs, p).len() as int)),
        },
        _ => match path {
            None => Err(spec_missing_path_err(f)),
            Some(p) => match f {
                EngineAggregationFunction::Sum => spec_sum_result(spec_agg_values(objs, p), p),
                EngineAggregationFunction::Min => spec_minmax_result(
                    spec_agg_values(objs, p),
                    true,
                    "min"@,
                    p,
                ),
                EngineAggregationFunction::Max => spec_minmax_result(
                    spec_agg_values(objs, p),
                    false,
                    "max"@,
                    p,
                ),
                _ => spec_avg_result(spec_agg_values(objs, p), p),
            },
        },
    }
}

/// Evaluates one aggregation expression.
pub fn evaluate_aggregation(expr: &EngineAggregationExpr, objects: &Vec<DynamicObject>) -> (r:
    Result<JsonValue, EngineError>)
    requires
        forall|i: int| 0 <= i < objects@.len() ==> obj_wf(#[trigger] &objects@[i]),
    ensures
        match r {
            Ok(v) => spec_agg_value(expr.function, opt_path_view(&expr.path), objects@) == Ok::<
                JsonVal,
                EngineErrVal,
            >(v@) && val_wf(v@) && canonical_rep(&v),
            Err(e) => spec_agg_value(expr.function, opt_path_view(&expr.path), objects@) == Err::<
                JsonVal,
                EngineErrVal,
            >(e@),
        },
{
    match expr.function {
        EngineAggregationFunction::Count => match &expr.path {
            None => Ok(count_aggregation(None, objects)),
            Some(p) => Ok(count_aggregation(Some(p.as_str()), objects)),
        },
        _ => {
            let p = match &expr.path {
                Some(p) => p,
                None => {
                    let fname = aggregation_function_name(&expr.function);
                    return Err(EngineError::InvalidAggregation {
                        function: String::from_str(fname),
                        path: String::from_str("*"),
                        expected: String::from_str("path argument"),
                        actual: String::from_str("none"),
                    });
                },
            };
            match expr.function {
                EngineAggregationFunction::Sum => sum_aggregation(p.as_str(), objects),
                EngineAggregationFunction::Min => min_max_aggregation(p.as_str(), objects, true),
                EngineAggregationFunction::Max => min_max_aggregation(p.as_str(), objects, false),
                _ => avg_aggregation(p.as_str(), objects),
            }
        },
    }
}

/// The aggregation row: every expression's value stored under its display
/// key.
pub open spec fn spec_agg_row(
    exprs: Seq<EngineAggregationExpr>,
    objs: Seq<DynamicObject>,
    row: Seq<(Seq<char>, JsonVal)>,
) -> Result<Seq<(Seq<char>, JsonVal)>, EngineErrVal>
    decreases exprs.len(),
{
    if exprs.len() == 0 {
        Ok(row)
    } else {
        match spec_agg_value(exprs[0].function, opt_path_view(&exprs[0].path), objs) {
            Ok(v) => spec_agg_row(
                exprs.drop_first(),
                objs,
                spec_entries_insert(
                    row,
                    spec_agg_key(exprs[0].function, opt_path_view(&exprs[0].path)),
                    v,
                ),
            ),
            Err(e) => Err(e),
        }
    }
}

/// Runs the plan's aggregations: with an aggregation selection the result is
/// one synthetic row keyed by display names; any other plan passes the
/// objects through unchanged.
pub fn aggregate(plan: &QueryPlan, objects: Vec<DynamicObject>) -> (r: Result<
    Vec<DynamicObject>,
    EngineError,
>)
    requires
        forall|i: int| 0 <= i < objects@.len() ==> obj_wf(#[trigger] &objects@[i]),
    ensures
        match r {
            Ok(v) => (match plan.selection {
                Some(EngineSelection::Aggregations(ref exprs)) => v@.len() == 1 && spec_agg_row(
                    exprs@,
                    objects@,
                    Seq::empty(),
                ) == Ok::<Seq<(Seq<char>, JsonVal)>, EngineErrVal>(v@[0]@),
                _ => v@ == objects@,
            }) && (forall|i: int| 0 <= i < v@.len() ==> obj_wf(#[trigger] &v@[i])),
            Err(e) => (match plan.selection {
                Some(EngineSelection::Aggregations(ref exprs)) => spec_agg_row(
                    exprs@,
                    objects@,
                    Seq::empty(),
                ) == Err::<Seq<(Seq<char>, JsonVal)>, EngineErrVal>(e@),
                _ => false,
            }),
        },
{
    let exprs = match &plan.selection {
        Some(EngineSelection::Aggregations(exprs)) => exprs,
        _ => {
            return Ok(objects);
        },
    };
    let ghost ev = exprs@;
    proof {
        assert(ev.skip(0) =~= ev);
    }
    let mut row = FieldMap::new();
    let mut i: usize = 0;
    while i < exprs.len()
        invariant
            i <= exprs@.len(),
            ev == exprs@,
            (match plan.selection {
                Some(EngineSelection::Aggregations(e)) => e@ == ev,
                _ => false,
            }),
            forall|j: int| 0 <= j < objects@.len() ==> obj_wf(#[trigger] &objects@[j]),
            row.wf(),
            spec_agg_row(ev, objects@, Seq::empty()) == spec_agg_row(
                ev.skip(i as int),
                objects@,
                row@,
            ),
        decreases exprs@.len() - i,
    {
        proof {
            assert(ev.skip(i as int)[0] == ev[i as int]);
            assert(ev.skip(i as int).drop_first() =~= ev.skip(i + 1));
        }
        let key = aggregation_key(&exprs[i]);
        match evaluate_aggregation(&exprs[i], &objects) {
            Ok(v) => {
                row.insert(key, v);
            },
            Err(e) => {
                return Err(e);
            },
        }
        i = i + 1;
    }
    proof {
        assert(ev.skip(i as int) =~= Seq::<EngineAggregationExpr>::empty());
    }
    let one = DynamicObject { fields: row };
    let out = vec![one];
    proof {
        assert(out@[0] == one);
        assert(out@.len() == 1);
    }
    Ok(out)
}

} // verus!
