//! The flattened object model: a map from encoded dotted paths to leaf
//! values, kept sorted by key. The same sorted-entry machinery also backs
//! JSON object members.

use vstd::prelude::*;

use crate::jsonv::{canonical_rep, entries_view, val_wf, JsonVal, JsonValue};
use crate::num::Rel;
use crate::path::{decode_path, spec_decode};
use crate::text::{chars_cmp, chars_vec, lemma_seq_cmp_eq, lemma_seq_cmp_flip, seq_cmp, seq_lt};

verus! {

broadcast use crate::jsonv::lemma_entries_view_len, crate::jsonv::lemma_entries_view_index;

/// Keys strictly ascend in code-point order.
pub open spec fn entry_keys_sorted(s: Seq<(String, JsonValue)>) -> bool {
    forall|i: int| #![trigger s[i]] 0 <= i && i + 1 < s.len() ==> seq_lt(s[i].0@, s[i + 1].0@)
}

/// Every value is well formed and canonically represented.
pub open spec fn entry_values_wf(s: Seq<(String, JsonValue)>) -> bool {
    forall|i: int| #![trigger s[i]] 0 <= i < s.len() ==> val_wf(s[i].1@) && canonical_rep(&s[i].1)
}

pub open spec fn entries_wf(s: Seq<(String, JsonValue)>) -> bool {
    entry_keys_sorted(s) && entry_values_wf(s)
}

/// Insertion into a sorted entry list: before the first larger key, replacing
/// an equal key.
pub open spec fn spec_entries_insert(
    m: Seq<(Seq<char>, JsonVal)>,
    k: Seq<char>,
    v: JsonVal,
) -> Seq<(Seq<char>, JsonVal)>
    decreases m.len(),
{
    if m.len() == 0 {
        seq![(k, v)]
    } else if seq_lt(k, m[0].0) {
        seq![(k, v)] + m
    } else if k == m[0].0 {
        seq![(k, v)] + m.drop_first()
    } else {
        seq![m[0]] + spec_entries_insert(m.drop_first(), k, v)
    }
}

/// Lookup of the first entry with the given key.
pub open spec fn spec_entries_get(m: Seq<(Seq<char>, JsonVal)>, k: Seq<char>) -> Option<JsonVal>
    decreases m.len(),
{
    if m.len() == 0 {
        None
    } else if m[0].0 == k {
        Some(m[0].1)
    } else {
        spec_entries_get(m.drop_first(), k)
    }
}

/// Characterizes a lookup by the position of the first equal key.
pub proof fn lemma_entries_get_at(m: Seq<(Seq<char>, JsonVal)>, k: Seq<char>, pos: int)
    requires
        0 <= pos <= m.len(),
        forall|j: int| #![trigger m[j]] 0 <= j < pos ==> m[j].0 != k,
        pos < m.len() ==> m[pos].0 == k,
    ensures
        pos < m.len() ==> spec_entries_get(m, k) == Some(m[pos].1),
        pos == m.len() ==> spec_entries_get(m, k) is None,
    decreases m.len(),
{
    if m.len() > 0 && pos > 0 {
        assert(forall|j: int|
            #![trigger m.drop_first()[j]]
            0 <= j < pos - 1 ==> m.drop_first()[j] == m[j + 1]);
        lemma_entries_get_at(m.drop_first(), k, pos - 1);
    }
}

/// Consecutive sortedness gives pairwise order.
pub proof fn lemma_sorted_pairwise(m: Seq<(Seq<char>, JsonVal)>, i: int, j: int)
    requires
        map_keys_sorted(m),
        0 <= i < j < m.len(),
    ensures
        seq_lt(m[i].0, m[j].0),
    decreases j - i,
{
    if j == i + 1 {
    } else {
        lemma_sorted_pairwise(m, i, j - 1);
        crate::text::lemma_seq_lt_trans(m[i].0, m[j - 1].0, m[j].0);
    }
}

/// Where an insertion lands: before index `idx` every key is smaller, and at
/// `idx` the key is equal (replace) or larger (insert).
pub proof fn lemma_insert_at(m: Seq<(Seq<char>, JsonVal)>, k: Seq<char>, v: JsonVal, idx: int)
    requires
        0 <= idx <= m.len(),
        forall|j: int| #![trigger m[j]] 0 <= j < idx ==> seq_lt(m[j].0, k),
        idx < m.len() ==> seq_cmp(m[idx].0, k) != Rel::Lt,
    ensures
        idx < m.len() && m[idx].0 == k ==> spec_entries_insert(m, k, v) =~= m.take(idx) + seq![
            (k, v),
        ] + m.skip(idx + 1),
        !(idx < m.len() && m[idx].0 == k) ==> spec_entries_insert(m, k, v) =~= m.take(idx) + seq![
            (k, v),
        ] + m.skip(idx),
    decreases m.len(),
{
    if m.len() == 0 {
        assert(spec_entries_insert(m, k, v) =~= m.take(idx) + seq![(k, v)] + m.skip(idx));
    } else if idx == 0 {
        lemma_seq_cmp_eq(m[0].0, k);
        lemma_seq_cmp_flip(m[0].0, k);
        if m[0].0 == k {
            assert(spec_entries_insert(m, k, v) =~= m.take(0) + seq![(k, v)] + m.skip(1));
        } else {
            // the key at idx compares greater, so the new pair goes in front
            assert(seq_cmp(m[0].0, k) == Rel::Gt);
            assert(seq_lt(k, m[0].0));
            assert(spec_entries_insert(m, k, v) =~= m.take(0) + seq![(k, v)] + m.skip(0));
        }
    } else {
        lemma_seq_cmp_eq(k, m[0].0);
        lemma_seq_cmp_flip(k, m[0].0);
        assert(seq_lt(m[0].0, k));
        assert(seq_cmp(k, m[0].0) == Rel::Gt);
        assert(!seq_lt(k, m[0].0));
        assert(k != m[0].0);
        let t = m.drop_first();
        assert(forall|j: int| #![trigger t[j]] 0 <= j < idx - 1 ==> seq_lt(t[j].0, k));
        lemma_insert_at(t, k, v, idx - 1);
        if idx < m.len() && m[idx].0 == k {
            assert(t[idx - 1].0 == k);
            assert(spec_entries_insert(m, k, v) =~= seq![m[0]] + (t.take(idx - 1) + seq![(k, v)]
                + t.skip(idx)));
            assert(seq![m[0]] + (t.take(idx - 1) + seq![(k, v)] + t.skip(idx)) =~= m.take(idx)
                + seq![(k, v)] + m.skip(idx + 1));
        } else {
            assert(spec_entries_insert(m, k, v) =~= seq![m[0]] + (t.take(idx - 1) + seq![(k, v)]
                + t.skip(idx - 1)));
            assert(seq![m[0]] + (t.take(idx - 1) + seq![(k, v)] + t.skip(idx - 1)) =~= m.take(idx)
                + seq![(k, v)] + m.skip(idx));
        }
    }
}

/// Where `key` belongs in a sorted entry list: the first position whose key
/// is not smaller. The flag says whether that position holds exactly `key`.
fn find_pos(entries: &Vec<(String, JsonValue)>, kc: &Vec<char>) -> (r: (usize, bool))
    ensures
        r.0 <= entries@.len(),
        forall|j: int| #![trigger entries@[j]] 0 <= j < r.0 ==> seq_lt(entries@[j].0@, kc@),
        r.1 ==> r.0 < entries@.len() && entries@[r.0 as int].0@ == kc@,
        !r.1 && r.0 < entries@.len() ==> seq_cmp(entries@[r.0 as int].0@, kc@) == Rel::Gt,
{
    let mut i: usize = 0;
    while i < entries.len()
        invariant
            i <= entries@.len(),
            forall|j: int| #![trigger entries@[j]] 0 <= j < i ==> seq_lt(entries@[j].0@, kc@),
        decreases entries@.len() - i,
    {
        let ec = chars_vec(entries[i].0.as_str());
        let c = chars_cmp(&ec, kc);
        proof {
            lemma_seq_cmp_eq(entries@[i as int].0@, kc@);
        }
        match c {
            Rel::Lt => {
                i = i + 1;
            },
            Rel::Eq => {
                return (i, true);
            },
            Rel::Gt => {
                return (i, false);
            },
        }
    }
    (i, false)
}

/// Inserts `(key, value)` into a sorted entry list, keeping it sorted and
/// replacing an equal key in place.
#[verifier::rlimit(80)]
pub fn entries_insert(entries: &mut Vec<(String, JsonValue)>, key: String, value: JsonValue)
    requires
        entry_keys_sorted(old(entries)@),
    ensures
        entries_view(final(entries)@) == spec_entries_insert(
            entries_view(old(entries)@),
            key@,
            value@,
        ),
        entry_keys_sorted(final(entries)@),
        entry_values_wf(old(entries)@) && val_wf(value@) && canonical_rep(&value)
            ==> entry_values_wf(final(entries)@),
{
    let ghost k0 = key@;
    let ghost v0 = value@;
    let ghost m = entries_view(old(entries)@);
    let kc = chars_vec(key.as_str());
    let (i, found_eq) = find_pos(entries, &kc);
    proof {
        assert forall|j: int| #![trigger m[j]] 0 <= j < i implies seq_lt(m[j].0, k0) by {
            assert(seq_lt(entries@[j].0@, kc@));
            assert(m[j].0 == entries@[j].0@);
        }
        if i < entries@.len() {
            lemma_seq_cmp_eq(entries@[i as int].0@, kc@);
        }
        lemma_insert_at(m, k0, v0, i as int);
    }
    if found_eq {
        let ghost pre = entries@;
        proof {
            assert(pre == old(entries)@);
            assert(entry_keys_sorted(pre));
        }
        entries.set(i, (key, value));
        proof {
            assert(entries@[i as int].0@ == k0 && entries@[i as int].1@ == v0);
            assert(forall|x: int| 0 <= x < entries@.len() && x != i ==> entries@[x] == pre[x]);
            assert(entries_view(entries@) =~= m.take(i as int) + seq![(k0, v0)] + m.skip(i + 1));
            assert forall|a: int|
                0 <= a && a + 1 < entries@.len() implies seq_lt(
                #[trigger] entries@[a].0@,
                entries@[a + 1].0@,
            ) by {
                assert(entry_keys_sorted(pre));
                assert(0 <= a && a + 1 < pre.len());
                assert(seq_lt(pre[a].0@, pre[a + 1].0@));
                if a + 1 == i as int {
                    assert(pre[a + 1].0@ == kc@);
                }
                if a == i as int {
                    assert(pre[a].0@ == kc@);
                }
            }
        }
    } else {
        let ghost pre = entries@;
        proof {
            assert(pre == old(entries)@);
            assert(entry_keys_sorted(pre));
            if i < pre.len() {
                lemma_seq_cmp_flip(pre[i as int].0@, k0);
                lemma_seq_cmp_eq(k0, pre[i as int].0@);
                assert(seq_lt(k0, pre[i as int].0@));
            }
        }
        entries.insert(i, (key, value));
        proof {
            assert(entries@.len() == pre.len() + 1);
            assert(entries@[i as int].0@ == k0 && entries@[i as int].1@ == v0);
            assert(forall|x: int| 0 <= x < i ==> entries@[x] == pre[x]);
            assert(forall|x: int| i < x < entries@.len() ==> entries@[x] == pre[x - 1]);
            assert(entries_view(entries@) =~= m.take(i as int) + seq![(k0, v0)] + m.skip(i as int));
            assert forall|a: int|
                0 <= a && a + 1 < entries@.len() implies seq_lt(
                #[trigger] entries@[a].0@,
                entries@[a + 1].0@,
            ) by {
                if a + 1 < i as int {
                    assert(seq_lt(pre[a].0@, pre[a + 1].0@));
                } else if a + 1 == i as int {
                    assert(seq_lt(pre[a].0@, k0));
                } else if a == i as int {
                    assert(entries@[a + 1].0@ == pre[a].0@);
                    assert(seq_lt(k0, pre[a].0@));
                } else {
                    assert(seq_lt(pre[a - 1].0@, pre[a].0@));
                }
            }
        }
    }
}

/// Finds the value stored under `key`, by exact key match.
pub fn entries_get<'a>(entries: &'a Vec<(String, JsonValue)>, key: &str) -> (r: Option<
    &'a JsonValue,
>)
    ensures
        match r {
            Some(v) => spec_entries_get(entries_view(entries@), key@) == Some(v@)
                && (entry_values_wf(entries@) ==> val_wf(v@) && canonical_rep(v)),
            None => spec_entries_get(entries_view(entries@), key@) is None,
        },
{
    let ghost m = entries_view(entries@);
    proof {
        assert(m.skip(0) =~= m);
    }
    let mut i: usize = 0;
    while i < entries.len()
        invariant
            i <= entries@.len(),
            m == entries_view(entries@),
            spec_entries_get(m, key@) == spec_entries_get(m.skip(i as int), key@),
            forall|j: int| #![trigger entries@[j]] 0 <= j < i ==> entries@[j].0@ != key@,
        decreases entries@.len() - i,
    {
        proof {
            assert(m.skip(i as int)[0] == m[i as int]);
            assert(m.skip(i as int).drop_first() =~= m.skip(i + 1));
        }
        if str_equal(entries[i].0.as_str(), key) {
            return Some(&entries[i].1);
        }
        i = i + 1;
    }
    proof {
        assert(m.skip(i as int) =~= Seq::<(Seq<char>, JsonVal)>::empty());
    }
    None
}

/// Whether two string slices hold the same characters.
pub fn str_equal(a: &str, b: &str) -> (r: bool)
    ensures
        r == (a@ == b@),
{
    let ac = chars_vec(a);
    let bc = chars_vec(b);
    let c = chars_cmp(&ac, &bc);
    proof {
        lemma_seq_cmp_eq(a@, b@);
    }
    matches!(c, Rel::Eq)
}

/// A mapping from encoded dotted paths to the values stored at them, kept
/// sorted by path.
#[derive(Debug, PartialEq)]
pub struct FieldMap {
    entries: Vec<(String, JsonValue)>,
}

impl View for FieldMap {
    type V = Seq<(Seq<char>, JsonVal)>;

    closed spec fn view(&self) -> Seq<(Seq<char>, JsonVal)> {
        entries_view(self.entries@)
    }
}

/// Well-formedness of a field map: sorted keys, well-formed values.
pub open spec fn map_keys_sorted(m: Seq<(Seq<char>, JsonVal)>) -> bool {
    forall|i: int| #![trigger m[i]] 0 <= i && i + 1 < m.len() ==> seq_lt(m[i].0, m[i + 1].0)
}

pub open spec fn map_values_wf(m: Seq<(Seq<char>, JsonVal)>) -> bool {
    forall|i: int| #![trigger m[i]] 0 <= i < m.len() ==> val_wf(m[i].1)
}

impl FieldMap {
    /// The representation invariant: entries sorted and values canonical.
    pub closed spec fn wf(&self) -> bool {
        entries_wf(self.entries@)
    }

    pub proof fn lemma_wf_view(&self)
        requires
            self.wf(),
        ensures
            map_keys_sorted(self@),
            map_values_wf(self@),
    {
        reveal(<FieldMap as View>::view);
        assert(self@ == entries_view(self.entries@));
        crate::jsonv::lemma_entries_view_len(self.entries@);
        assert(self@.len() == self.entries@.len());
        assert forall|i: int| 0 <= i && i + 1 < self@.len() implies seq_lt(
            #[trigger] self@[i].0,
            self@[i + 1].0,
        ) by {
            crate::jsonv::lemma_entries_view_len(self.entries@);
            crate::jsonv::lemma_entries_view_index(self.entries@, i);
            crate::jsonv::lemma_entries_view_index(self.entries@, i + 1);
            assert(seq_lt(self.entries@[i].0@, self.entries@[i + 1].0@));
        }
        assert forall|i: int| 0 <= i < self@.len() implies val_wf(#[trigger] self@[i].1) by {
            assert(entries_view(self.entries@)[i] == (self.entries@[i].0@, self.entries@[i].1@));
            assert(val_wf(self.entries@[i].1@));
        }
    }

    /// An empty map.
    pub fn new() -> (r: Self)
        ensures
            r@ == Seq::<(Seq<char>, JsonVal)>::empty(),
            r.wf(),
    {
        let r = FieldMap { entries: Vec::new() };
        proof {
            assert(r@ =~= Seq::<(Seq<char>, JsonVal)>::empty());
        }
        r
    }

    /// Stores `value` under `path`, replacing what an equal path held.
    pub fn insert(&mut self, path: String, value: JsonValue)
        requires
            old(self).wf(),
            val_wf(value@),
            canonical_rep(&value),
        ensures
            final(self).wf(),
            final(self)@ == spec_entries_insert(old(self)@, path@, value@),
    {
        entries_insert(&mut self.entries, path, value);
    }

    /// The value stored under the exact encoded path.
    pub fn get<'a>(&'a self, path: &str) -> (r: Option<&'a JsonValue>)
        ensures
            match r {
                Some(v) => spec_entries_get(self@, path@) == Some(v@) && (self.wf() ==> val_wf(v@)
                    && canonical_rep(v)),
                None => spec_entries_get(self@, path@) is None,
            },
    {
        entries_get(&self.entries, path)
    }

    /// How many paths are stored.
    pub fn len(&self) -> (r: usize)
        ensures
            r == self@.len(),
    {
        self.entries.len()
    }

    /// The path at position `i`, in sorted order.
    pub fn key_at<'a>(&'a self, i: usize) -> (r: &'a String)
        requires
            i < self@.len(),
        ensures
            r@ == self@[i as int].0,
    {
        &self.entries[i].0
    }

    /// The value at position `i`, in sorted order.
    pub fn value_at<'a>(&'a self, i: usize) -> (r: &'a JsonValue)
        requires
            i < self@.len(),
        ensures
            r@ == self@[i as int].1,
            self.wf() ==> val_wf(r@) && canonical_rep(r),
    {
        &self.entries[i].1
    }

    /// Whether any value of this map is well formed, carried for callers.
    pub fn duplicate(&self) -> (r: Self)
        requires
            self.wf(),
        ensures
            r@ == self@,
            r.wf(),
    {
        let mut out: Vec<(String, JsonValue)> = Vec::new();
        let mut i: usize = 0;
        while i < self.entries.len()
            invariant
                i <= self.entries@.len(),
                out@.len() == i,
                entries_wf(self.entries@),
                forall|j: int|
                    #![trigger out@[j]]
                    0 <= j < i ==> out@[j].0@ == self.entries@[j].0@ && out@[j].1@
                        == self.entries@[j].1@ && canonical_rep(&out@[j].1),
            decreases self.entries@.len() - i,
        {
            let (k, v) = &self.entries[i];
            out.push((crate::jsonv::clone_string(k), v.duplicate()));
            i = i + 1;
        }
        proof {
            assert forall|a: int|
                0 <= a && a + 1 < out@.len() implies seq_lt(
                #[trigger] out@[a].0@,
                out@[a + 1].0@,
            ) by {
                assert(out@[a].0@ == self.entries@[a].0@);
                assert(out@[a + 1].0@ == self.entries@[a + 1].0@);
                assert(entry_keys_sorted(self.entries@));
                assert(seq_lt(self.entries@[a].0@, self.entries@[a + 1].0@));
            }
            assert forall|a: int|
                0 <= a < out@.len() implies val_wf(#[trigger] out@[a].1@) && canonical_rep(
                &out@[a].1,
            ) by {
                assert(out@[a].1@ == self.entries@[a].1@);
                assert(val_wf(self.entries@[a].1@));
            }
        }
        let ghost osnap = out@;
        let r = FieldMap { entries: out };
        proof {
            assert(r.entries@ == osnap);
            assert(r@ =~= self@);
        }
        r
    }
}

/// The lookup a query path performs on a flattened object: the exact encoded
/// path first; failing that, the first stored path whose decoded form is the
/// asked path.
pub open spec fn spec_obj_get(m: Seq<(Seq<char>, JsonVal)>, path: Seq<char>) -> Option<JsonVal> {
    match spec_entries_get(m, path) {
        Some(v) => Some(v),
        None => spec_get_decoded(m, path),
    }
}

/// The first entry whose decoded key equals `path`.
pub open spec fn spec_get_decoded(m: Seq<(Seq<char>, JsonVal)>, path: Seq<char>) -> Option<JsonVal>
    decreases m.len(),
{
    if m.len() == 0 {
        None
    } else if spec_decode(m[0].0) == path {
        Some(m[0].1)
    } else {
        spec_get_decoded(m.drop_first(), path)
    }
}

/// One Kubernetes object, flattened: every leaf keyed by its encoded dotted
/// path.
#[derive(Debug, PartialEq)]
pub struct DynamicObject {
    pub fields: FieldMap,
}

impl View for DynamicObject {
    type V = Seq<(Seq<char>, JsonVal)>;

    open spec fn view(&self) -> Seq<(Seq<char>, JsonVal)> {
        self.fields@
    }
}

pub open spec fn obj_wf(o: &DynamicObject) -> bool {
    o.fields.wf()
}

impl DynamicObject {
    /// An object with no fields.
    pub fn new() -> (r: Self)
        ensures
            r@ == Seq::<(Seq<char>, JsonVal)>::empty(),
            obj_wf(&r),
    {
        DynamicObject { fields: FieldMap::new() }
    }

    /// The value at a path: the exact encoded path when stored, else the
    /// first stored path that decodes to the asked path, so dotted keys can
    /// be queried in their natural form.
    pub fn get<'a>(&'a self, path: &str) -> (r: Option<&'a JsonValue>)
        ensures
            match r {
                Some(v) => spec_obj_get(self@, path@) == Some(v@) && (obj_wf(self) ==> val_wf(v@)
                    && canonical_rep(v)),
                None => spec_obj_get(self@, path@) is None,
            },
    {
        let direct = self.fields.get(path);
        if direct.is_some() {
            return direct;
        }
        let ghost m = self@;
        proof {
            assert(m.skip(0) =~= m);
        }
        let n = self.fields.len();
        let mut i: usize = 0;
        while i < n
            invariant
                i <= n,
                n == m.len(),
                m == self@,
                spec_entries_get(m, path@) is None,
                spec_get_decoded(m, path@) == spec_get_decoded(m.skip(i as int), path@),
            decreases n - i,
        {
            proof {
                assert(m.skip(i as int)[0] == m[i as int]);
                assert(m.skip(i as int).drop_first() =~= m.skip(i + 1));
            }
            let decoded = decode_path(self.fields.key_at(i).as_str());
            if str_equal(decoded.as_str(), path) {
                return Some(self.fields.value_at(i));
            }
            i = i + 1;
        }
        proof {
            assert(m.skip(i as int) =~= Seq::<(Seq<char>, JsonVal)>::empty());
        }
        None
    }

    /// A deep copy with the same view.
    pub fn duplicate(&self) -> (r: Self)
        requires
            obj_wf(self),
        ensures
            r@ == self@,
            obj_wf(&r),
    {
        DynamicObject { fields: self.fields.duplicate() }
    }
}

} // verus!
