//! Multi-key stable sorting of flattened objects.
//!
//! The contract pins the result exactly: it equals a stable insertion sort
//! under the per-key order of the plan. An element is inserted after every
//! element it does not strictly precede, so equal-keyed elements keep their
//! input order.

use vstd::prelude::*;

use crate::engine::{EngineSortDirection, EngineSortKey, QueryPlan};
use crate::jsonv::{spec_num_cmp, spec_value_rank, val_wf, value_rank, JsonVal, JsonValue, num_compare};
use crate::num::{rel_flip, Rel};
use crate::object::{obj_wf, spec_obj_get, DynamicObject};
use crate::text::{chars_cmp, chars_vec, seq_cmp};

verus! {

/// Missing fields and explicit nulls sort together, at the extreme end.
pub open spec fn spec_nullish(v: Option<JsonVal>) -> bool {
    match v {
        None => true,
        Some(JsonVal::Null) => true,
        Some(_) => false,
    }
}

/// The order of two concrete values: by kind rank — booleans, numbers,
/// strings, then the rest — with ties broken by the natural order of the
/// kind. Values past strings compare equal among themselves.
pub open spec fn spec_cmp_concrete(a: JsonVal, b: JsonVal) -> Rel {
    let ra = spec_value_rank(a);
    let rb = spec_value_rank(b);
    if ra < rb {
        Rel::Lt
    } else if ra > rb {
        Rel::Gt
    } else if ra == 0 {
        match (a, b) {
            (JsonVal::Bool(x), JsonVal::Bool(y)) => if x == y {
                Rel::Eq
            } else if !x {
                Rel::Lt
            } else {
                Rel::Gt
            },
            _ => Rel::Eq,
        }
    } else if ra == 1 {
        spec_num_cmp(a, b)
    } else if ra == 2 {
        match (a, b) {
            (JsonVal::Str(x), JsonVal::Str(y)) => seq_cmp(x, y),
            _ => Rel::Eq,
        }
    } else {
        Rel::Eq
    }
}

/// The order of two looked-up values under one sort key, direction applied.
pub open spec fn spec_key_cmp(
    a: Seq<(Seq<char>, JsonVal)>,
    b: Seq<(Seq<char>, JsonVal)>,
    path: Seq<char>,
    dir: EngineSortDirection,
) -> Rel {
    let la = spec_obj_get(a, path);
    let lb = spec_obj_get(b, path);
    if spec_nullish(la) && spec_nullish(lb) {
        Rel::Eq
    } else if spec_nullish(la) {
        match dir {
            EngineSortDirection::Asc => Rel::Lt,
            EngineSortDirection::Desc => Rel::Gt,
        }
    } else if spec_nullish(lb) {
        match dir {
            EngineSortDirection::Asc => Rel::Gt,
            EngineSortDirection::Desc => Rel::Lt,
        }
    } else {
        let c = spec_cmp_concrete(la.unwrap(), lb.unwrap());
        match dir {
            EngineSortDirection::Asc => c,
            EngineSortDirection::Desc => rel_flip(c),
        }
    }
}

/// The order of two objects: keys applied in order, later keys breaking ties.
pub open spec fn spec_obj_cmp(
    keys: Seq<EngineSortKey>,
    a: Seq<(Seq<char>, JsonVal)>,
    b: Seq<(Seq<char>, JsonVal)>,
) -> Rel
    decreases keys.len(),
{
    if keys.len() == 0 {
        Rel::Eq
    } else {
        let c = spec_key_cmp(a, b, keys[0].path@, keys[0].direction);
        if c != Rel::Eq {
            c
        } else {
            spec_obj_cmp(keys.drop_first(), a, b)
        }
    }
}

/// Stable insertion: the new element goes before the first element it
/// strictly precedes, hence after everything equal to it.
pub open spec fn spec_insert_sorted(
    keys: Seq<EngineSortKey>,
    x: DynamicObject,
    s: Seq<DynamicObject>,
) -> Seq<DynamicObject>
    decreases s.len(),
{
    if s.len() == 0 {
        seq![x]
    } else if spec_obj_cmp(keys, x@, s[0]@) == Rel::Lt {
        seq![x] + s
    } else {
        seq![s[0]] + spec_insert_sorted(keys, x, s.drop_first())
    }
}

/// The stable multi-key sort: elements inserted left to right.
pub open spec fn spec_sort(keys: Seq<EngineSortKey>, s: Seq<DynamicObject>) -> Seq<DynamicObject>
    decreases s.len(),
{
    if s.len() == 0 {
        Seq::empty()
    } else {
        spec_insert_sorted(keys, s.last(), spec_sort(keys, s.drop_last()))
    }
}

/// Compares two concrete (non-null) values.
pub fn compare_concrete(a: &JsonValue, b: &JsonValue) -> (r: Rel)
    requires
        val_wf(a@),
        val_wf(b@),
        !(a@ is Null),
        !(b@ is Null),
    ensures
        r == spec_cmp_concrete(a@, b@),
{
    let ra = value_rank(a);
    let rb = value_rank(b);
    if ra < rb {
        Rel::Lt
    } else if ra > rb {
        Rel::Gt
    } else if ra == 0 {
        match (a, b) {
            (JsonValue::Bool(x), JsonValue::Bool(y)) => {
                if *x == *y {
                    Rel::Eq
                } else if !*x {
                    Rel::Lt
                } else {
                    Rel::Gt
                }
            },
            _ => Rel::Eq,
        }
    } else if ra == 1 {
        num_compare(a, b)
    } else if ra == 2 {
        match (a, b) {
            (JsonValue::Str(x), JsonValue::Str(y)) => {
                let xc = chars_vec(x.as_str());
                let yc = chars_vec(y.as_str());
                chars_cmp(&xc, &yc)
            },
            _ => Rel::Eq,
        }
    } else {
        Rel::Eq
    }
}

/// Compares two objects under one sort key.
fn compare_key(a: &DynamicObject, b: &DynamicObject, key: &EngineSortKey) -> (r: Rel)
    requires
        obj_wf(a),
        obj_wf(b),
    ensures
        r == spec_key_cmp(a@, b@, key.path@, key.direction),
{
    let la = a.get(key.path.as_str());
    let lb = b.get(key.path.as_str());
    let la_null = match la {
        None => true,
        Some(v) => v.is_null(),
    };
    let lb_null = match lb {
        None => true,
        Some(v) => v.is_null(),
    };
    if la_null && lb_null {
        Rel::Eq
    } else if la_null {
        match key.direction {
            EngineSortDirection::Asc => Rel::Lt,
            EngineSortDirection::Desc => Rel::Gt,
        }
    } else if lb_null {
        match key.direction {
            EngineSortDirection::Asc => Rel::Gt,
            EngineSortDirection::Desc => Rel::Lt,
        }
    } else {
        let va = la.unwrap();
        let vb = lb.unwrap();
        let c = compare_concrete(va, vb);
        match key.direction {
            EngineSortDirection::Asc => c,
            EngineSortDirection::Desc => match c {
                Rel::Lt => Rel::Gt,
                Rel::Eq => Rel::Eq,
                Rel::Gt => Rel::Lt,
            },
        }
    }
}

/// Compares two objects under the whole key list.
fn compare_objects(a: &DynamicObject, b: &DynamicObject, keys: &Vec<EngineSortKey>) -> (r: Rel)
    requires
        obj_wf(a),
        obj_wf(b),
    ensures
        r == spec_obj_cmp(keys@, a@, b@),
{
    proof {
        assert(keys@.skip(0) =~= keys@);
    }
    let mut i: usize = 0;
    while i < keys.len()
        invariant
            i <= keys@.len(),
            obj_wf(a),
            obj_wf(b),
            spec_obj_cmp(keys@, a@, b@) == spec_obj_cmp(keys@.skip(i as int), a@, b@),
        decreases keys@.len() - i,
    {
        proof {
            assert(keys@.skip(i as int)[0] == keys@[i as int]);
            assert(keys@.skip(i as int).drop_first() =~= keys@.skip(i + 1));
        }
        let c = compare_key(a, b, &keys[i]);
        if !matches!(c, Rel::Eq) {
            return c;
        }
        i = i + 1;
    }
    Rel::Eq
}

/// Where an insertion lands in the sorted run.
proof fn lemma_sort_insert_at(
    keys: Seq<EngineSortKey>,
    x: DynamicObject,
    s: Seq<DynamicObject>,
    idx: int,
)
    requires
        0 <= idx <= s.len(),
        forall|j: int| #![trigger s[j]] 0 <= j < idx ==> spec_obj_cmp(keys, x@, s[j]@) != Rel::Lt,
        idx < s.len() ==> spec_obj_cmp(keys, x@, s[idx]@) == Rel::Lt,
    ensures
        spec_insert_sorted(keys, x, s) =~= s.take(idx) + seq![x] + s.skip(idx),
    decreases s.len(),
{
    if s.len() == 0 {
    } else if idx == 0 {
    } else {
        lemma_sort_insert_at(keys, x, s.drop_first(), idx - 1);
        assert(seq![s[0]] + (s.drop_first().take(idx - 1) + seq![x] + s.drop_first().skip(idx - 1))
            =~= s.take(idx) + seq![x] + s.skip(idx));
    }
}

/// Sorts the objects by the plan's keys; with no keys the input order is
/// kept unchanged.
pub fn sort_objects(plan: &QueryPlan, objects: Vec<DynamicObject>) -> (r: Vec<DynamicObject>)
    requires
        forall|i: int| 0 <= i < objects@.len() ==> obj_wf(#[trigger] &objects@[i]),
    ensures
        match plan.sort_keys {
            None => r@ == objects@,
            Some(ref keys) => r@ == spec_sort(keys@, objects@),
        },
        forall|i: int| 0 <= i < r@.len() ==> obj_wf(#[trigger] &r@[i]),
{
    let keys = match &plan.sort_keys {
        None => {
            return objects;
        },
        Some(keys) => keys,
    };
    let ghost orig = objects@;
    let mut objects = objects;
    let n = objects.len();
    proof {
        assert(orig.len() == n);
    }
    let mut out: Vec<DynamicObject> = Vec::new();
    let mut i: usize = 0;
    while objects.len() > 0
        invariant
            orig.len() == n,
            i + objects@.len() == orig.len(),
            objects@ == orig.skip(i as int),
            out@ == spec_sort(keys@, orig.take(i as int)),
            forall|j: int| 0 <= j < orig.len() ==> obj_wf(#[trigger] &orig[j]),
            forall|j: int| 0 <= j < out@.len() ==> obj_wf(#[trigger] &out@[j]),
        decreases objects@.len(),
    {
        let x = objects.remove(0);
        proof {
            assert(x == orig[i as int]);
            assert(objects@ =~= orig.skip(i + 1));
            assert(orig.take(i + 1).drop_last() =~= orig.take(i as int));
            assert(orig.take(i + 1).last() == orig[i as int]);
        }
        let ghost pre = out@;
        let mut j: usize = 0;
        loop
            invariant
                j <= out@.len(),
                out@ == pre,
                obj_wf(&x),
                forall|q: int| 0 <= q < out@.len() ==> obj_wf(#[trigger] &out@[q]),
                forall|q: int|
                    #![trigger out@[q]]
                    0 <= q < j ==> spec_obj_cmp(keys@, x@, out@[q]@) != Rel::Lt,
            ensures
                j <= pre.len(),
                out@ == pre,
                forall|q: int| #![trigger pre[q]] 0 <= q < j ==> spec_obj_cmp(keys@, x@, pre[q]@)
                    != Rel::Lt,
                j < pre.len() ==> spec_obj_cmp(keys@, x@, pre[j as int]@) == Rel::Lt,
            decreases out@.len() - j,
        {
            if j >= out.len() {
                break;
            }
            let c = compare_objects(&x, &out[j], keys);
            if matches!(c, Rel::Lt) {
                break;
            }
            j = j + 1;
        }
        proof {
            lemma_sort_insert_at(keys@, x, pre, j as int);
        }
        out.insert(j, x);
        proof {
            assert(out@ =~= pre.take(j as int) + seq![orig[i as int]] + pre.skip(j as int));
            assert(out@ =~= spec_insert_sorted(keys@, orig[i as int], pre));
            assert(out@ =~= spec_sort(keys@, orig.take(i + 1)));
        }
        i = i + 1;
    }
    proof {
        assert(orig.take(i as int) =~= orig);
    }
    out
}

/// Flipping a key's direction flips its comparison.
pub open spec fn flip_dir(d: EngineSortDirection) -> EngineSortDirection {
    match d {
        EngineSortDirection::Asc => EngineSortDirection::Desc,
        EngineSortDirection::Desc => EngineSortDirection::Asc,
    }
}

/// Reversing every key's direction reverses each pairwise comparison, so a
/// sort under the reversed keys orders any two distinctly-keyed objects the
/// opposite way.
pub proof fn lemma_reverse_directions(
    keys: Seq<EngineSortKey>,
    flipped: Seq<EngineSortKey>,
    a: Seq<(Seq<char>, JsonVal)>,
    b: Seq<(Seq<char>, JsonVal)>,
)
    requires
        flipped.len() == keys.len(),
        forall|i: int|
            #![trigger flipped[i]]
            0 <= i < keys.len() ==> flipped[i].path@ == keys[i].path@ && flipped[i].direction
                == flip_dir(keys[i].direction),
    ensures
        spec_obj_cmp(flipped, a, b) == rel_flip(spec_obj_cmp(keys, a, b)),
    decreases keys.len(),
{
    if keys.len() > 0 {
        assert(spec_key_cmp(a, b, flipped[0].path@, flipped[0].direction) == rel_flip(
            spec_key_cmp(a, b, keys[0].path@, keys[0].direction),
        ));
        assert(forall|i: int|
            #![trigger flipped.drop_first()[i]]
            0 <= i < keys.drop_first().len() ==> flipped.drop_first()[i] == flipped[i + 1]);
        lemma_reverse_directions(keys.drop_first(), flipped.drop_first(), a, b);
    }
}

} // verus!
