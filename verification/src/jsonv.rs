//! The JSON value model.
//!
//! Scalars are held as plain values: integers split by representation range,
//! floating-point numbers as their decimal text (see [`crate::num`]), and
//! object members kept sorted by key, the order JSON maps render in.

use vstd::prelude::*;

use crate::num::{
    dec_cmp, dec_of_int, dec_wf, parse_dec, spec_dec_of_chars, Dec, dec_compare, dec_of_i128, Rel,
};
use crate::text::{chars_vec, seq_lt};

verus! {

broadcast use vstd::std_specs::vec::axiom_vec_decreases_to_view, vstd::std_specs::vec::axiom_vec_index_decreases, vstd::seq::axiom_seq_index_decreases;

/// A JSON value, as specifications see it.
#[verifier::ext_equal]
pub ghost enum JsonVal {
    Null,
    Bool(bool),
    Int(int),
    Float(Seq<char>),
    Str(Seq<char>),
    Arr(Seq<JsonVal>),
    Obj(Seq<(Seq<char>, JsonVal)>),
}

/// A JSON value. `Int` holds what fits a signed machine word; `Uint` the
/// unsigned values above that; `Float` the decimal text of a finite double.
#[derive(Debug, PartialEq)]
pub enum JsonValue {
    Null,
    Bool(bool),
    Int(i64),
    Uint(u64),
    Float(String),
    Str(String),
    Arr(Vec<JsonValue>),
    Obj(Vec<(String, JsonValue)>),
}

impl View for JsonValue {
    type V = JsonVal;

    open spec fn view(&self) -> JsonVal
        decreases self,
    {
        match self {
            JsonValue::Null => JsonVal::Null,
            JsonValue::Bool(b) => JsonVal::Bool(*b),
            JsonValue::Int(i) => JsonVal::Int(*i as int),
            JsonValue::Uint(u) => JsonVal::Int(*u as int),
            JsonValue::Float(s) => JsonVal::Float(s@),
            JsonValue::Str(s) => JsonVal::Str(s@),
            JsonValue::Arr(items) => JsonVal::Arr(
                Seq::new(
                    items@.len(),
                    |i: int|
                        if 0 <= i < items@.len() {
                            items@[i].view()
                        } else {
                            JsonVal::Null
                        },
                ),
            ),
            JsonValue::Obj(members) => JsonVal::Obj(
                Seq::new(
                    members@.len(),
                    |i: int|
                        if 0 <= i < members@.len() {
                            (members@[i].0@, members@[i].1.view())
                        } else {
                            (Seq::empty(), JsonVal::Null)
                        },
                ),
            ),
        }
    }
}

/// Object member keys strictly ascend in code-point order.
pub open spec fn keys_sorted(members: Seq<(Seq<char>, JsonVal)>) -> bool {
    forall|i: int| #![trigger members[i]] 0 <= i && i + 1 < members.len() ==> seq_lt(
        members[i].0,
        members[i + 1].0,
    )
}

/// Well-formed spec value: floats parse as decimals, object keys are sorted.
pub open spec fn val_wf(v: JsonVal) -> bool
    decreases v,
{
    match v {
        JsonVal::Null => true,
        JsonVal::Bool(_) => true,
        JsonVal::Int(_) => true,
        JsonVal::Float(s) => spec_dec_of_chars(s) is Some,
        JsonVal::Str(_) => true,
        JsonVal::Arr(items) => forall|i: int|
            #![trigger items[i]]
            0 <= i < items.len() ==> val_wf(items[i]),
        JsonVal::Obj(members) => keys_sorted(members) && forall|i: int|
            #![trigger members[i]]
            0 <= i < members.len() ==> val_wf(members[i].1),
    }
}

/// Well-formed executable value: the view is well formed and the integer
/// representation is canonical, so equal views mean equal representations.
pub open spec fn value_wf(v: &JsonValue) -> bool
    decreases v,
{
    &&& val_wf(v@)
    &&& canonical_rep(v)
}

pub open spec fn canonical_rep(v: &JsonValue) -> bool
    decreases v,
{
    match v {
        JsonValue::Uint(u) => *u > i64::MAX as u64,
        JsonValue::Arr(items) => forall|i: int|
            #![trigger items@[i]]
            0 <= i < items@.len() ==> canonical_rep(&items@[i]),
        JsonValue::Obj(members) => forall|i: int|
            #![trigger members@[i]]
            0 <= i < members@.len() ==> canonical_rep(&members@[i].1),
        _ => true,
    }
}

impl JsonValue {
    /// A deep copy whose view equals this value's view.
    pub fn duplicate(&self) -> (r: Self)
        ensures
            r@ == self@,
            canonical_rep(self) ==> canonical_rep(&r),
        decreases self@,
    {
        proof {
            reveal_with_fuel(<JsonValue as View>::view, 2);
        }
        match self {
            JsonValue::Null => JsonValue::Null,
            JsonValue::Bool(b) => JsonValue::Bool(*b),
            JsonValue::Int(i) => JsonValue::Int(*i),
            JsonValue::Uint(u) => JsonValue::Uint(*u),
            JsonValue::Float(s) => JsonValue::Float(clone_string(s)),
            JsonValue::Str(s) => JsonValue::Str(clone_string(s)),
            JsonValue::Arr(items) => {
                let mut out: Vec<JsonValue> = Vec::new();
                let mut i: usize = 0;
                while i < items.len()
                    invariant
                        i <= items@.len(),
                        out@.len() == i,
                        self@ is Arr,
                        self@->Arr_0.len() == items@.len(),
                        forall|j: int|
                            0 <= j < items@.len() ==> self@->Arr_0[j] == #[trigger] items@[j]@,
                        forall|j: int| 0 <= j < i ==> #[trigger] out@[j]@ == items@[j]@,
                        forall|j: int|
                            0 <= j < i ==> (canonical_rep(&items@[j]) ==> canonical_rep(
                                #[trigger] &out@[j],
                            )),
                    decreases items@.len() - i,
                {
                    proof {
                        reveal_with_fuel(<JsonValue as View>::view, 2);
                        assert(decreases_to!(self@ => self@->Arr_0));
                        assert(decreases_to!(self@->Arr_0 => self@->Arr_0[i as int]));
                        assert(self@->Arr_0[i as int] == items@[i as int]@);
                    }
                    out.push(items[i].duplicate());
                    i = i + 1;
                }
                let r = JsonValue::Arr(out);
                proof {
                    reveal_with_fuel(<JsonValue as View>::view, 2);
                    assert(r@ is Arr);
                    assert(r@->Arr_0.len() == self@->Arr_0.len());
                    assert forall|j: int| 0 <= j < r@->Arr_0.len() implies r@->Arr_0[j] == self@
                        ->Arr_0[j] by {
                        assert(out@[j]@ == items@[j]@);
                    }
                    assert(r@->Arr_0 =~= self@->Arr_0);
                    assert(r@ =~= self@);
                }
                r
            },
            JsonValue::Obj(members) => {
                proof {
                    assert(self@ is Obj);
                    assert forall|j: int| 0 <= j < members@.len() implies (#[trigger] self@->Obj_0[
                        j
                    ]).0 == members@[j].0@ && self@->Obj_0[j].1 == members@[j].1@ by {
                        assert(self@->Obj_0[j] == (members@[j].0@, members@[j].1@));
                    }
                }
                let mut out: Vec<(String, JsonValue)> = Vec::new();
                let mut i: usize = 0;
                while i < members.len()
                    invariant
                        i <= members@.len(),
                        out@.len() == i,
                        self@ is Obj,
                        self@->Obj_0.len() == members@.len(),
                        forall|j: int|
                            0 <= j < members@.len() ==> (#[trigger] self@->Obj_0[j]).0 == members@[
                                j
                            ].0@ && self@->Obj_0[j].1 == members@[j].1@,
                        forall|j: int|
                            0 <= j < i ==> #[trigger] out@[j].0@ == members@[j].0@ && out@[j].1@
                                == members@[j].1@,
                        forall|j: int|
                            0 <= j < i ==> (canonical_rep(&members@[j].1) ==> canonical_rep(
                                #[trigger] &out@[j].1,
                            )),
                    decreases members@.len() - i,
                {
                    proof {
                        reveal_with_fuel(<JsonValue as View>::view, 2);
                        assert(decreases_to!(self@ => self@->Obj_0));
                        assert(decreases_to!(self@->Obj_0 => self@->Obj_0[i as int]));
                        assert(decreases_to!(self@->Obj_0[i as int] => self@->Obj_0[i as int].1));
                        assert(self@->Obj_0[i as int].1 == members@[i as int].1@);
                    }
                    let (k, v) = &members[i];
                    out.push((clone_string(k), v.duplicate()));
                    i = i + 1;
                }
                let r = JsonValue::Obj(out);
                proof {
                    reveal_with_fuel(<JsonValue as View>::view, 2);
                    assert(r@ is Obj);
                    assert(r@->Obj_0.len() == self@->Obj_0.len());
                    assert forall|j: int| 0 <= j < r@->Obj_0.len() implies r@->Obj_0[j] == self@
                        ->Obj_0[j] by {
                        assert(out@[j].0@ == members@[j].0@);
                        assert(out@[j].1@ == members@[j].1@);
                    }
                    assert(r@->Obj_0 =~= self@->Obj_0);
                    assert(r@ =~= self@);
                }
                r
            },
        }
    }

    /// Whether this value is JSON `null`.
    pub fn is_null(&self) -> (r: bool)
        ensures
            r == (self@ is Null),
    {
        match self {
            JsonValue::Null => true,
            _ => false,
        }
    }
}

/// The spec shape of an entry list: decoded keys with spec values.
pub open spec fn entries_view(s: Seq<(String, JsonValue)>) -> Seq<(Seq<char>, JsonVal)>
    decreases s.len(),
{
    if s.len() == 0 {
        Seq::empty()
    } else {
        entries_view(s.drop_last()).push((s.last().0@, s.last().1@))
    }
}

pub broadcast proof fn lemma_entries_view_len(s: Seq<(String, JsonValue)>)
    ensures
        #[trigger] entries_view(s).len() == s.len(),
    decreases s.len(),
{
    if s.len() > 0 {
        lemma_entries_view_len(s.drop_last());
    }
}

pub broadcast proof fn lemma_entries_view_index(s: Seq<(String, JsonValue)>, i: int)
    requires
        0 <= i < s.len(),
    ensures
        #[trigger] entries_view(s)[i] == (s[i].0@, s[i].1@),
    decreases s.len(),
{
    lemma_entries_view_len(s);
    if i + 1 < s.len() {
        lemma_entries_view_index(s.drop_last(), i);
    }
}

/// A canonical object's members are canonical.
pub proof fn lemma_canonical_obj(v: &JsonValue, members: &Vec<(String, JsonValue)>)
    requires
        canonical_rep(v),
        (match v {
            JsonValue::Obj(m) => m@ == members@,
            _ => false,
        }),
    ensures
        forall|j: int|
            #![trigger members@[j]]
            0 <= j < members@.len() ==> canonical_rep(&members@[j].1),
{
}

/// A canonical array's items are canonical.
pub proof fn lemma_canonical_arr(v: &JsonValue, items: &Vec<JsonValue>)
    requires
        canonical_rep(v),
        (match v {
            JsonValue::Arr(m) => m@ == items@,
            _ => false,
        }),
    ensures
        forall|j: int|
            #![trigger items@[j]]
            0 <= j < items@.len() ==> canonical_rep(&items@[j]),
{
}

/// Well-formedness introduction for an array value.
pub proof fn lemma_arr_wf_intro(v: &JsonValue, items: Seq<JsonValue>)
    requires
        (match v {
            JsonValue::Arr(m) => m@ == items,
            _ => false,
        }),
        forall|j: int|
            #![trigger items[j]]
            0 <= j < items.len() ==> val_wf(items[j]@) && canonical_rep(&items[j]),
    ensures
        val_wf(v@),
        canonical_rep(v),
{
    reveal_with_fuel(<JsonValue as View>::view, 2);
    assert(v@ is Arr);
    assert forall|j: int| 0 <= j < v@->Arr_0.len() implies val_wf(#[trigger] v@->Arr_0[j]) by {
        assert(v@->Arr_0[j] == items[j]@);
    }
}

/// Well-formedness elimination for an array value.
pub proof fn lemma_arr_wf_elim(v: &JsonValue, items: &Vec<JsonValue>)
    requires
        (match v {
            JsonValue::Arr(m) => m@ == items@,
            _ => false,
        }),
        val_wf(v@),
        canonical_rep(v),
    ensures
        forall|j: int|
            #![trigger items@[j]]
            0 <= j < items@.len() ==> val_wf(items@[j]@) && canonical_rep(&items@[j]),
{
    reveal_with_fuel(<JsonValue as View>::view, 2);
    lemma_canonical_arr(v, items);
    assert forall|j: int|
        #![trigger items@[j]]
        0 <= j < items@.len() implies val_wf(items@[j]@) && canonical_rep(&items@[j]) by {
        assert(v@->Arr_0[j] == items@[j]@);
        assert(val_wf(v@->Arr_0[j]));
    }
}

/// Well-formedness introduction for an object value: sorted entries with
/// well-formed values.
pub proof fn lemma_obj_wf_intro(v: &JsonValue, members: Seq<(String, JsonValue)>)
    requires
        (match v {
            JsonValue::Obj(m) => m@ == members,
            _ => false,
        }),
        forall|j: int|
            #![trigger members[j]]
            0 <= j && j + 1 < members.len() ==> crate::text::seq_lt(
                members[j].0@,
                members[j + 1].0@,
            ),
        forall|j: int|
            #![trigger members[j]]
            0 <= j < members.len() ==> val_wf(members[j].1@) && canonical_rep(&members[j].1),
    ensures
        val_wf(v@),
        canonical_rep(v),
{
    reveal_with_fuel(<JsonValue as View>::view, 2);
    assert(v@ is Obj);
    assert forall|j: int|
        #![trigger v@->Obj_0[j]]
        0 <= j && j + 1 < v@->Obj_0.len() implies crate::text::seq_lt(
        v@->Obj_0[j].0,
        v@->Obj_0[j + 1].0,
    ) by {
        assert(v@->Obj_0[j] == (members[j].0@, members[j].1@));
        assert(v@->Obj_0[j + 1] == (members[j + 1].0@, members[j + 1].1@));
    }
    assert forall|j: int|
        #![trigger v@->Obj_0[j]]
        0 <= j < v@->Obj_0.len() implies val_wf(v@->Obj_0[j].1) by {
        assert(v@->Obj_0[j] == (members[j].0@, members[j].1@));
    }
}

/// Well-formedness elimination for an object value.
pub proof fn lemma_obj_wf_elim(v: &JsonValue, members: &Vec<(String, JsonValue)>)
    requires
        (match v {
            JsonValue::Obj(m) => m@ == members@,
            _ => false,
        }),
        val_wf(v@),
        canonical_rep(v),
    ensures
        forall|j: int|
            #![trigger members@[j]]
            0 <= j && j + 1 < members@.len() ==> crate::text::seq_lt(
                members@[j].0@,
                members@[j + 1].0@,
            ),
        forall|j: int|
            #![trigger members@[j]]
            0 <= j < members@.len() ==> val_wf(members@[j].1@) && canonical_rep(&members@[j].1),
{
    reveal_with_fuel(<JsonValue as View>::view, 2);
    lemma_canonical_obj(v, members);
    assert forall|j: int|
        #![trigger members@[j]]
        0 <= j && j + 1 < members@.len() implies crate::text::seq_lt(
        members@[j].0@,
        members@[j + 1].0@,
    ) by {
        assert(v@->Obj_0[j] == (members@[j].0@, members@[j].1@));
        assert(v@->Obj_0[j + 1] == (members@[j + 1].0@, members@[j + 1].1@));
        assert(crate::text::seq_lt(v@->Obj_0[j].0, v@->Obj_0[j + 1].0));
    }
    assert forall|j: int|
        #![trigger members@[j]]
        0 <= j < members@.len() implies val_wf(members@[j].1@) && canonical_rep(
        &members@[j].1,
    ) by {
        assert(v@->Obj_0[j] == (members@[j].0@, members@[j].1@));
        assert(val_wf(v@->Obj_0[j].1));
    }
}

/// The spec view of an array value's items equals the item vector's views.
pub proof fn lemma_arr_view_bridge(v: &JsonValue, items: &Vec<JsonValue>)
    requires
        (match v {
            JsonValue::Arr(m) => m@ == items@,
            _ => false,
        }),
    ensures
        v@ is Arr,
        v@->Arr_0 == vals_view(items@),
{
    reveal_with_fuel(<JsonValue as View>::view, 2);
    broadcast use lemma_vals_view_len, lemma_vals_view_index;

    assert(v@->Arr_0 =~= vals_view(items@));
}

/// The spec view of an object value's members equals the member vector's
/// views.
pub proof fn lemma_obj_view_bridge(v: &JsonValue, members: &Vec<(String, JsonValue)>)
    requires
        (match v {
            JsonValue::Obj(m) => m@ == members@,
            _ => false,
        }),
    ensures
        v@ is Obj,
        v@->Obj_0 == entries_view(members@),
{
    reveal_with_fuel(<JsonValue as View>::view, 2);
    broadcast use lemma_entries_view_len, lemma_entries_view_index;

    assert(v@->Obj_0 =~= entries_view(members@));
}

/// The views of a sequence of values.
pub open spec fn vals_view(s: Seq<JsonValue>) -> Seq<JsonVal>
    decreases s.len(),
{
    if s.len() == 0 {
        Seq::empty()
    } else {
        vals_view(s.drop_last()).push(s.last()@)
    }
}

pub broadcast proof fn lemma_vals_view_len(s: Seq<JsonValue>)
    ensures
        #[trigger] vals_view(s).len() == s.len(),
    decreases s.len(),
{
    if s.len() > 0 {
        lemma_vals_view_len(s.drop_last());
    }
}

pub broadcast proof fn lemma_vals_view_index(s: Seq<JsonValue>, i: int)
    requires
        0 <= i < s.len(),
    ensures
        #[trigger] vals_view(s)[i] == s[i]@,
    decreases s.len(),
{
    lemma_vals_view_len(s);
    if i + 1 < s.len() {
        lemma_vals_view_index(s.drop_last(), i);
    }
}

/// Clones a string, keeping its characters.
pub fn clone_string(s: &String) -> (r: String)
    ensures
        r@ == s@,
{
    s.clone()
}

/// Builds a float value from its decimal text; `None` when the text is not a
/// decimal literal.
pub fn float_value(text: String) -> (r: Option<JsonValue>)
    ensures
        match r {
            Some(v) => v@ == JsonVal::Float(text@) && value_wf(&v),
            None => spec_dec_of_chars(text@) is None,
        },
{
    let cs = chars_vec(text.as_str());
    match parse_dec(&cs) {
        Some(_) => Some(JsonValue::Float(text)),
        None => None,
    }
}

/// The exact numeric value of a spec number: integers directly, floats
/// through their decimal text.
pub open spec fn spec_num_dec(v: JsonVal) -> crate::num::DecNorm {
    match v {
        JsonVal::Int(i) => dec_of_int(i),
        JsonVal::Float(s) => spec_dec_of_chars(s).unwrap(),
        _ => dec_of_int(0),
    }
}

pub open spec fn is_num(v: JsonVal) -> bool {
    v is Int || v is Float
}

/// Exact three-way comparison of two numbers by numeric value. An integer
/// against a float compares by the exact values of both sides — a deliberate
/// strengthening of comparing through double precision, observable only for
/// integers beyond 2^53 within rounding distance of the float.
pub open spec fn spec_num_cmp(a: JsonVal, b: JsonVal) -> Rel {
    match (a, b) {
        (JsonVal::Int(x), JsonVal::Int(y)) => if x < y {
            Rel::Lt
        } else if x > y {
            Rel::Gt
        } else {
            Rel::Eq
        },
        _ => dec_cmp(spec_num_dec(a), spec_num_dec(b)),
    }
}

/// Compares two numeric values exactly.
pub fn num_compare(a: &JsonValue, b: &JsonValue) -> (r: Rel)
    requires
        is_num(a@) && is_num(b@),
        val_wf(a@) && val_wf(b@),
    ensures
        r == spec_num_cmp(a@, b@),
{
    match (a, b) {
        (JsonValue::Int(x), JsonValue::Int(y)) => int_rel(*x as i128, *y as i128),
        (JsonValue::Int(x), JsonValue::Uint(y)) => int_rel(*x as i128, *y as i128),
        (JsonValue::Uint(x), JsonValue::Int(y)) => int_rel(*x as i128, *y as i128),
        (JsonValue::Uint(x), JsonValue::Uint(y)) => int_rel(*x as i128, *y as i128),
        _ => {
            let da = num_dec_exec(a);
            let db = num_dec_exec(b);
            dec_compare(&da, &db)
        },
    }
}

fn int_rel(x: i128, y: i128) -> (r: Rel)
    ensures
        r == (if x < y {
            Rel::Lt
        } else if x > y {
            Rel::Gt
        } else {
            Rel::Eq
        }),
{
    if x < y {
        Rel::Lt
    } else if x > y {
        Rel::Gt
    } else {
        Rel::Eq
    }
}

/// The exact decimal of a numeric value.
fn num_dec_exec(v: &JsonValue) -> (r: Dec)
    requires
        is_num(v@),
        val_wf(v@),
    ensures
        r.dnorm() == spec_num_dec(v@),
        dec_wf(r.dnorm()),
{
    match v {
        JsonValue::Int(i) => dec_of_i128(*i as i128),
        JsonValue::Uint(u) => dec_of_i128(*u as i128),
        JsonValue::Float(s) => {
            let cs = chars_vec(s.as_str());
            match parse_dec(&cs) {
                Some(d) => d,
                None => {
                    // Well-formedness rules this branch out.
                    proof {
                        assert(false);
                    }
                    dec_of_i128(0)
                },
            }
        },
        _ => {
            proof {
                assert(false);
            }
            dec_of_i128(0)
        },
    }
}

/// The strict-type equality of two scalar values: comparable pairs yield
/// `Some`, every other pairing — null on either side included — is
/// indeterminate.
pub open spec fn spec_comparable_eq(a: JsonVal, b: JsonVal) -> Option<bool> {
    match (a, b) {
        (JsonVal::Str(x), JsonVal::Str(y)) => Some(x == y),
        (JsonVal::Bool(x), JsonVal::Bool(y)) => Some(x == y),
        (JsonVal::Int(x), JsonVal::Int(y)) => Some(x == y),
        (JsonVal::Int(_), JsonVal::Float(_)) => Some(false),
        (JsonVal::Float(_), JsonVal::Int(_)) => Some(false),
        (JsonVal::Float(x), JsonVal::Float(y)) => Some(
            dec_cmp(spec_dec_of_chars(x).unwrap(), spec_dec_of_chars(y).unwrap()) == Rel::Eq,
        ),
        _ => None,
    }
}

/// Strict same-type equality: both strings, both booleans or both numbers;
/// every other pairing is indeterminate. An integer never equals a float,
/// as their JSON representations differ; two floats are equal when their
/// decimals denote one value.
pub fn comparable_eq(actual: &JsonValue, expected: &JsonValue) -> (r: Option<bool>)
    requires
        value_wf(actual),
        value_wf(expected),
    ensures
        r == spec_comparable_eq(actual@, expected@),
{
    proof {
        reveal_with_fuel(canonical_rep, 2);
        reveal_with_fuel(<JsonValue as View>::view, 2);
    }
    match (actual, expected) {
        (JsonValue::Str(x), JsonValue::Str(y)) => Some(*x == *y),
        (JsonValue::Bool(x), JsonValue::Bool(y)) => Some(*x == *y),
        (JsonValue::Float(_), JsonValue::Float(_)) => Some(
            matches!(num_compare(actual, expected), Rel::Eq),
        ),
        (JsonValue::Float(_), JsonValue::Int(_)) => Some(false),
        (JsonValue::Float(_), JsonValue::Uint(_)) => Some(false),
        (JsonValue::Int(_), JsonValue::Float(_)) => Some(false),
        (JsonValue::Uint(_), JsonValue::Float(_)) => Some(false),
        (JsonValue::Int(x), JsonValue::Int(y)) => Some(*x == *y),
        (JsonValue::Int(_), JsonValue::Uint(_)) => Some(false),
        (JsonValue::Uint(_), JsonValue::Int(_)) => Some(false),
        (JsonValue::Uint(x), JsonValue::Uint(y)) => Some(*x == *y),
        _ => None,
    }
}

/// The rank a value sorts by when values of different kinds meet: booleans,
/// then numbers, then strings, then everything else.
pub open spec fn spec_value_rank(v: JsonVal) -> int {
    match v {
        JsonVal::Bool(_) => 0,
        JsonVal::Int(_) => 1,
        JsonVal::Float(_) => 1,
        JsonVal::Str(_) => 2,
        _ => 3,
    }
}

pub fn value_rank(v: &JsonValue) -> (r: u8)
    ensures
        r as int == spec_value_rank(v@),
{
    match v {
        JsonValue::Bool(_) => 0,
        JsonValue::Int(_) => 1,
        JsonValue::Uint(_) => 1,
        JsonValue::Float(_) => 1,
        JsonValue::Str(_) => 2,
        _ => 3,
    }
}

pub open spec fn spec_type_name(v: JsonVal) -> Seq<char> {
    match v {
        JsonVal::Null => "null"@,
        JsonVal::Bool(_) => "bool"@,
        JsonVal::Int(_) => "number"@,
        JsonVal::Float(_) => "number"@,
        JsonVal::Str(_) => "string"@,
        JsonVal::Arr(_) => "array"@,
        JsonVal::Obj(_) => "object"@,
    }
}

/// The kind of a value, for error messages.
pub fn value_type_name(v: &JsonValue) -> (r: &'static str)
    ensures
        r@ == spec_type_name(v@),
{
    match v {
        JsonValue::Null => "null",
        JsonValue::Bool(_) => "bool",
        JsonValue::Int(_) => "number",
        JsonValue::Uint(_) => "number",
        JsonValue::Float(_) => "number",
        JsonValue::Str(_) => "string",
        JsonValue::Arr(_) => "array",
        JsonValue::Obj(_) => "object",
    }
}

/// What `str::parse` to a double, constrained to finite results, returns on
/// a token: the canonical decimal text serde_json renders that double in, or
/// `None` when the token does not parse to a finite double.
pub uninterp spec fn parsed_float_dec(s: Seq<char>) -> Option<Seq<char>>;

/// Relies on `str::parse` to a double, on `serde_json::Number::from_f64` —
/// which refuses anything not finite — and on `Number`'s canonical decimal
/// rendering. `None` when the token does not parse or is not finite.
#[verifier::external_body]
pub(crate) fn parse_float_token(token: &str) -> (r: Option<String>)
    ensures
        r.deep_view() == parsed_float_dec(token@),
{
    match token.parse() {
        Ok(v) => serde_json::Number::from_f64(v).map(|n| n.to_string()),
        Err(_) => None,
    }
}

/// What adding two doubles, each given by decimal text, returns: the sum's
/// canonical decimal text, or `None` when an input does not parse or the sum
/// is not finite.
pub uninterp spec fn float_sum_dec(a: Seq<char>, b: Seq<char>) -> Option<Seq<char>>;

/// Relies on `serde_json::Number`'s parsing, `as_f64`, `from_f64` and
/// rendering, and on the `+` of doubles: both decimal texts read back as
/// doubles and added; `None` when a side does not parse or the sum is not
/// finite.
#[verifier::external_body]
pub(crate) fn float_add_decimal(a: &str, b: &str) -> (r: Option<String>)
    ensures
        r.deep_view() == float_sum_dec(a@, b@),
{
    let xo: Option<serde_json::Number> = a.parse().ok();
    let yo: Option<serde_json::Number> = b.parse().ok();
    match (xo.as_ref().and_then(serde_json::Number::as_f64), yo.as_ref().and_then(serde_json::Number::as_f64)) {
        (Some(p), Some(q)) => serde_json::Number::from_f64(p + q).map(|n| n.to_string()),
        _ => None,
    }
}

/// What dividing two doubles, each given by decimal text, returns: the
/// quotient's canonical decimal text, or `None` when an input does not parse
/// or the quotient is not finite.
pub uninterp spec fn float_ratio_dec(a: Seq<char>, b: Seq<char>) -> Option<Seq<char>>;

/// Relies on `serde_json::Number`'s parsing, `as_f64`, `from_f64` and
/// rendering, and on the `/` of doubles: both decimal texts read back as
/// doubles and divided; `None` when a side does not parse or the quotient is
/// not finite.
#[verifier::external_body]
pub(crate) fn float_divide_decimal(a: &str, b: &str) -> (r: Option<String>)
    ensures
        r.deep_view() == float_ratio_dec(a@, b@),
{
    let xo: Option<serde_json::Number> = a.parse().ok();
    let yo: Option<serde_json::Number> = b.parse().ok();
    match (xo.as_ref().and_then(serde_json::Number::as_f64), yo.as_ref().and_then(serde_json::Number::as_f64)) {
        (Some(p), Some(q)) => serde_json::Number::from_f64(p / q).map(|n| n.to_string()),
        _ => None,
    }
}

} // verus!
