//! The path codec.
//!
//! Dotted field paths are stored with `%` escaped as `%25` and `.` as `%2E`
//! inside a segment, so a literal dot inside a key stays distinguishable from
//! a segment separator. Decoding is the exact inverse and is case-insensitive
//! on the two hex codes.

use vstd::prelude::*;

use crate::text::{chars_vec, seq_lt, string_from_chars, strs_view};

verus! {

broadcast use crate::text::lemma_strs_view_len, crate::text::lemma_strs_view_index, crate::jsonv::lemma_entries_view_len, crate::jsonv::lemma_entries_view_index, crate::jsonv::lemma_vals_view_len, crate::jsonv::lemma_vals_view_index;

/// How one character of a path segment is encoded.
pub open spec fn enc_char(c: char) -> Seq<char> {
    if c == '%' {
        seq!['%', '2', '5']
    } else if c == '.' {
        seq!['%', '2', 'E']
    } else {
        seq![c]
    }
}

/// The encoding of one path segment.
pub open spec fn spec_encode_segment(s: Seq<char>) -> Seq<char>
    decreases s.len(),
{
    if s.len() == 0 {
        Seq::empty()
    } else {
        enc_char(s[0]) + spec_encode_segment(s.drop_first())
    }
}

/// The encoding of a whole path: every segment encoded, separators kept.
pub open spec fn spec_encode_path(s: Seq<char>) -> Seq<char>
    decreases s.len(),
{
    if s.len() == 0 {
        Seq::empty()
    } else if s[0] == '.' {
        seq!['.'] + spec_encode_path(s.drop_first())
    } else {
        enc_char(s[0]) + spec_encode_path(s.drop_first())
    }
}

pub open spec fn is_code_25(c1: char, c2: char) -> bool {
    c1 == '2' && c2 == '5'
}

pub open spec fn is_code_2e(c1: char, c2: char) -> bool {
    c1 == '2' && (c2 == 'e' || c2 == 'E')
}

/// The decoding of a segment or of a whole path: `%25` yields `%`, `%2E` (or
/// `%2e`) yields `.`, everything else passes through.
pub open spec fn spec_decode(s: Seq<char>) -> Seq<char>
    decreases s.len(),
{
    if s.len() == 0 {
        Seq::empty()
    } else if s[0] == '%' && s.len() >= 3 && is_code_2e(s[1], s[2]) {
        seq!['.'] + spec_decode(s.skip(3))
    } else if s[0] == '%' && s.len() >= 3 && is_code_25(s[1], s[2]) {
        seq!['%'] + spec_decode(s.skip(3))
    } else {
        seq![s[0]] + spec_decode(s.drop_first())
    }
}

/// Decoding inverts segment encoding.
pub proof fn lemma_decode_encode_segment(s: Seq<char>)
    ensures
        spec_decode(spec_encode_segment(s)) == s,
    decreases s.len(),
{
    if s.len() == 0 {
        assert(spec_decode(spec_encode_segment(s)) =~= s);
    } else {
        lemma_decode_encode_segment(s.drop_first());
        let e = spec_encode_segment(s);
        let tail = spec_encode_segment(s.drop_first());
        if s[0] == '%' {
            assert(e =~= seq!['%', '2', '5'] + tail);
            assert(e.skip(3) =~= tail);
            assert(spec_decode(e) =~= seq!['%'] + s.drop_first());
            assert(seq!['%'] + s.drop_first() =~= s);
        } else if s[0] == '.' {
            assert(e =~= seq!['%', '2', 'E'] + tail);
            assert(e.skip(3) =~= tail);
            assert(spec_decode(e) =~= seq!['.'] + s.drop_first());
            assert(seq!['.'] + s.drop_first() =~= s);
        } else {
            assert(e =~= seq![s[0]] + tail);
            assert(e.drop_first() =~= tail);
            assert(spec_decode(e) =~= seq![s[0]] + s.drop_first());
            assert(seq![s[0]] + s.drop_first() =~= s);
        }
    }
}

/// Decoding inverts path encoding.
pub proof fn lemma_decode_encode_path(s: Seq<char>)
    ensures
        spec_decode(spec_encode_path(s)) == s,
    decreases s.len(),
{
    if s.len() == 0 {
        assert(spec_decode(spec_encode_path(s)) =~= s);
    } else {
        lemma_decode_encode_path(s.drop_first());
        let e = spec_encode_path(s);
        let tail = spec_encode_path(s.drop_first());
        if s[0] == '%' {
            assert(e =~= seq!['%', '2', '5'] + tail);
            assert(e.skip(3) =~= tail);
            assert(spec_decode(e) =~= seq!['%'] + s.drop_first());
            assert(seq!['%'] + s.drop_first() =~= s);
        } else if s[0] == '.' {
            assert(e =~= seq!['.'] + tail);
            assert(e.drop_first() =~= tail);
            assert(spec_decode(e) =~= seq!['.'] + s.drop_first());
            assert(seq!['.'] + s.drop_first() =~= s);
        } else {
            assert(e =~= seq![s[0]] + tail);
            assert(e.drop_first() =~= tail);
            assert(spec_decode(e) =~= seq![s[0]] + s.drop_first());
            assert(seq![s[0]] + s.drop_first() =~= s);
        }
    }
}

/// Appends the encoding of one segment character.
fn push_enc_char(c: char, out: &mut Vec<char>)
    ensures
        final(out)@ == old(out)@ + enc_char(c),
{
    if c == '%' {
        out.push('%');
        out.push('2');
        out.push('5');
        proof {
            assert(final(out)@ =~= old(out)@ + enc_char(c));
        }
    } else if c == '.' {
        out.push('%');
        out.push('2');
        out.push('E');
        proof {
            assert(final(out)@ =~= old(out)@ + enc_char(c));
        }
    } else {
        out.push(c);
        proof {
            assert(final(out)@ =~= old(out)@ + enc_char(c));
        }
    }
}

/// Encodes the characters of one path segment.
pub fn encode_segment_chars(s: &Vec<char>) -> (r: Vec<char>)
    ensures
        r@ == spec_encode_segment(s@),
{
    let mut out: Vec<char> = Vec::new();
    let mut i: usize = 0;
    while i < s.len()
        invariant
            i <= s@.len(),
            out@ == spec_encode_segment(s@.take(i as int)),
        decreases s@.len() - i,
    {
        proof {
            lemma_encode_segment_snoc(s@.take(i as int), s@[i as int]);
            assert(s@.take(i as int).push(s@[i as int]) =~= s@.take(i + 1));
        }
        push_enc_char(s[i], &mut out);
        i = i + 1;
    }
    proof {
        assert(s@.take(i as int) =~= s@);
    }
    out
}

pub proof fn lemma_encode_segment_snoc(s: Seq<char>, c: char)
    ensures
        spec_encode_segment(s.push(c)) == spec_encode_segment(s) + enc_char(c),
    decreases s.len(),
{
    reveal_with_fuel(spec_encode_segment, 3);
    if s.len() == 0 {
        assert(s.push(c).drop_first() =~= Seq::empty());
        assert(spec_encode_segment(s.push(c)) =~= spec_encode_segment(s) + enc_char(c));
    } else {
        assert(s.push(c).drop_first() =~= s.drop_first().push(c));
        lemma_encode_segment_snoc(s.drop_first(), c);
        assert(spec_encode_segment(s.push(c)) =~= spec_encode_segment(s) + enc_char(c));
    }
}

pub proof fn lemma_encode_path_snoc(s: Seq<char>, c: char)
    ensures
        spec_encode_path(s.push(c)) == spec_encode_path(s) + (if c == '.' {
            seq!['.']
        } else {
            enc_char(c)
        }),
    decreases s.len(),
{
    let tail: Seq<char> = if c == '.' {
        seq!['.']
    } else {
        enc_char(c)
    };
    reveal_with_fuel(spec_encode_path, 3);
    if s.len() == 0 {
        assert(s.push(c).drop_first() =~= Seq::empty());
        assert(spec_encode_path(s.push(c)) =~= spec_encode_path(s) + tail);
    } else {
        assert(s.push(c).drop_first() =~= s.drop_first().push(c));
        lemma_encode_path_snoc(s.drop_first(), c);
        assert(spec_encode_path(s.push(c)) =~= spec_encode_path(s) + tail);
    }
}

/// Encodes the characters of a whole path.
pub fn encode_path_chars(s: &Vec<char>) -> (r: Vec<char>)
    ensures
        r@ == spec_encode_path(s@),
{
    let mut out: Vec<char> = Vec::new();
    let mut i: usize = 0;
    while i < s.len()
        invariant
            i <= s@.len(),
            out@ == spec_encode_path(s@.take(i as int)),
        decreases s@.len() - i,
    {
        proof {
            lemma_encode_path_snoc(s@.take(i as int), s@[i as int]);
            assert(s@.take(i as int).push(s@[i as int]) =~= s@.take(i + 1));
        }
        if s[i] == '.' {
            out.push('.');
            proof {
                assert(out@ =~= spec_encode_path(s@.take(i + 1)));
            }
        } else {
            push_enc_char(s[i], &mut out);
        }
        i = i + 1;
    }
    proof {
        assert(s@.take(i as int) =~= s@);
    }
    out
}

/// Decodes the characters of a segment or a path.
pub fn decode_chars(s: &Vec<char>) -> (r: Vec<char>)
    ensures
        r@ == spec_decode(s@),
{
    proof {
        assert(s@.skip(0) =~= s@);
    }
    let mut out: Vec<char> = Vec::new();
    let mut i: usize = 0;
    while i < s.len()
        invariant
            i <= s@.len(),
            out@ + spec_decode(s@.skip(i as int)) == spec_decode(s@),
        decreases s@.len() - i,
    {
        let ghost rest = s@.skip(i as int);
        proof {
            assert(rest[0] == s@[i as int]);
            if i + 2 < s@.len() {
                assert(rest[1] == s@[i + 1]);
                assert(rest[2] == s@[i + 2]);
            }
        }
        if s[i] == '%' && s.len() - i > 2 && s[i + 1] == '2' && (s[i + 2] == 'e' || s[i + 2] == 'E')
        {
            out.push('.');
            proof {
                assert(rest.len() >= 3);
                assert(rest.skip(3) =~= s@.skip(i + 3));
                assert(out@ + spec_decode(s@.skip(i + 3)) =~= spec_decode(s@));
            }
            i = i + 3;
        } else if s[i] == '%' && s.len() - i > 2 && s[i + 1] == '2' && s[i + 2] == '5' {
            out.push('%');
            proof {
                assert(rest.len() >= 3);
                assert(rest.skip(3) =~= s@.skip(i + 3));
                assert(out@ + spec_decode(s@.skip(i + 3)) =~= spec_decode(s@));
            }
            i = i + 3;
        } else {
            out.push(s[i]);
            proof {
                assert(rest.drop_first() =~= s@.skip(i + 1));
                assert(out@ + spec_decode(s@.skip(i + 1)) =~= spec_decode(s@));
            }
            i = i + 1;
        }
    }
    proof {
        assert(s@.skip(i as int) =~= Seq::<char>::empty());
        assert(out@ =~= spec_decode(s@));
    }
    out
}

/// Encodes one path segment: `%` becomes `%25` and `.` becomes `%2E`.
pub fn encode_segment(segment: &str) -> (r: String)
    ensures
        r@ == spec_encode_segment(segment@),
{
    let cs = chars_vec(segment);
    let out = encode_segment_chars(&cs);
    string_from_chars(&out)
}

/// Decodes one path segment, the exact inverse of [`encode_segment`], taking
/// the two hex codes case-insensitively.
pub fn decode_segment(segment: &str) -> (r: String)
    ensures
        r@ == spec_decode(segment@),
{
    let cs = chars_vec(segment);
    let out = decode_chars(&cs);
    string_from_chars(&out)
}

/// Encodes a user path segment-wise, keeping the separating dots.
pub fn encode_path(path: &str) -> (r: String)
    ensures
        r@ == spec_encode_path(path@),
{
    let cs = chars_vec(path);
    let out = encode_path_chars(&cs);
    string_from_chars(&out)
}

/// Decodes an encoded path back to its user form.
pub fn decode_path(path: &str) -> (r: String)
    ensures
        r@ == spec_decode(path@),
{
    let cs = chars_vec(path);
    let out = decode_chars(&cs);
    string_from_chars(&out)
}

/// Decoding inverts encoding: any segment and any path survive the round
/// trip unchanged.
pub proof fn lemma_path_round_trip(segment: Seq<char>, path: Seq<char>)
    ensures
        spec_decode(spec_encode_segment(segment)) == segment,
        spec_decode(spec_encode_path(path)) == path,
{
    lemma_decode_encode_segment(segment);
    lemma_decode_encode_path(path);
}

} // verus!

use crate::jsonv::{canonical_rep, entries_view, val_wf, JsonVal, JsonValue};
use crate::object::{spec_entries_insert, FieldMap};
use crate::num::nat_chars;

verus! {

/// The path of a child under `prefix`.
pub open spec fn spec_child_path(prefix: Seq<char>, seg: Seq<char>) -> Seq<char> {
    if prefix.len() == 0 {
        seg
    } else {
        prefix + "."@ + seg
    }
}

/// Flattening: depth-first over objects and arrays; object keys contribute
/// encoded segments; array indices contribute decimal segments and the whole
/// array is also stored at its own path; scalars are stored at their path;
/// nulls and the empty root path are never stored.
pub open spec fn spec_flatten(
    prefix: Seq<char>,
    v: JsonVal,
    acc: Seq<(Seq<char>, JsonVal)>,
) -> Seq<(Seq<char>, JsonVal)>
    decreases v, 0nat,
{
    match v {
        JsonVal::Null => acc,
        JsonVal::Obj(members) => spec_flatten_members(prefix, members, acc),
        JsonVal::Arr(items) => {
            let walked = spec_flatten_items(prefix, items, 0, acc);
            if prefix.len() == 0 {
                walked
            } else {
                spec_entries_insert(walked, prefix, v)
            }
        },
        _ => if prefix.len() == 0 {
            acc
        } else {
            spec_entries_insert(acc, prefix, v)
        },
    }
}

pub open spec fn spec_flatten_members(
    prefix: Seq<char>,
    members: Seq<(Seq<char>, JsonVal)>,
    acc: Seq<(Seq<char>, JsonVal)>,
) -> Seq<(Seq<char>, JsonVal)>
    decreases members, 1nat,
{
    if members.len() == 0 {
        acc
    } else {
        spec_flatten_members(
            prefix,
            members.drop_first(),
            spec_flatten(
                spec_child_path(prefix, spec_encode_segment(members[0].0)),
                members[0].1,
                acc,
            ),
        )
    }
}

pub open spec fn spec_flatten_items(
    prefix: Seq<char>,
    items: Seq<JsonVal>,
    idx: nat,
    acc: Seq<(Seq<char>, JsonVal)>,
) -> Seq<(Seq<char>, JsonVal)>
    decreases items, items.len() - idx,
    when idx <= items.len()
{
    if idx == items.len() {
        acc
    } else {
        spec_flatten_items(
            prefix,
            items,
            idx + 1,
            spec_flatten(spec_child_path(prefix, nat_chars(idx)), items[idx as int], acc),
        )
    }
}

} // verus!

verus! {

/// Flattens one value into the map under `prefix`.
fn flatten_into(prefix: &String, v: &JsonValue, out: &mut FieldMap)
    requires
        val_wf(v@),
        canonical_rep(v),
        old(out).wf(),
    ensures
        final(out).wf(),
        final(out)@ == spec_flatten(prefix@, v@, old(out)@),
    decreases v@, 0nat,
{
    proof {
        reveal_with_fuel(<JsonValue as View>::view, 2);
    }
    match v {
        JsonValue::Null => {
        },
        JsonValue::Obj(members) => {
            proof {
                assert(v@ is Obj);
                assert forall|j: int| 0 <= j < members@.len() implies (#[trigger] v@->Obj_0[j]).0
                    == members@[j].0@ && v@->Obj_0[j].1 == members@[j].1@ by {
                    assert(v@->Obj_0[j] == (members@[j].0@, members@[j].1@));
                }
            }
            let ghost mv = v@->Obj_0;
            proof {
                assert(spec_flatten(prefix@, v@, old(out)@) == spec_flatten_members(
                    prefix@,
                    mv,
                    old(out)@,
                ));
                assert(mv.skip(0) =~= mv);
            }
            let mut i: usize = 0;
            while i < members.len()
                invariant
                    i <= members@.len(),
                    v@ is Obj,
                    (match v {
                        JsonValue::Obj(m) => m@ == members@,
                        _ => false,
                    }),
                    mv == v@->Obj_0,
                    mv.len() == members@.len(),
                    forall|j: int|
                        0 <= j < members@.len() ==> (#[trigger] mv[j]).0 == members@[j].0@ && mv[
                            j
                        ].1 == members@[j].1@,
                    val_wf(v@),
                    canonical_rep(v),
                    out.wf(),
                    spec_flatten_members(prefix@, mv, old(out)@) == spec_flatten_members(
                        prefix@,
                        mv.skip(i as int),
                        out@,
                    ),
                decreases members@.len() - i,
            {
                proof {
                    reveal_with_fuel(<JsonValue as View>::view, 2);
                    crate::jsonv::lemma_canonical_obj(v, members);
                    assert(mv.skip(i as int)[0] == mv[i as int]);
                    assert(mv.skip(i as int).drop_first() =~= mv.skip(i + 1));
                    assert(decreases_to!(v@ => v@->Obj_0));
                    assert(decreases_to!(v@->Obj_0 => v@->Obj_0[i as int]));
                    assert(decreases_to!(v@->Obj_0[i as int] => v@->Obj_0[i as int].1));
                    assert(val_wf(v@));
                    assert(v@ is Obj && v@->Obj_0 == mv);
                    assert(0 <= i < mv.len());
                    assert(val_wf(mv[i as int].1));
                    assert(canonical_rep(&members@[i as int].1));
                }
                let (key, child) = &members[i];
                let enc = encode_segment(key.as_str());
                let child_prefix: String = if prefix.as_str().is_empty() {
                    enc
                } else {
                    let mut cp = crate::jsonv::clone_string(prefix);
                    cp.append(".");
                    cp.append(enc.as_str());
                    cp
                };
                proof {
                    assert(child_prefix@ == spec_child_path(
                        prefix@,
                        spec_encode_segment(members@[i as int].0@),
                    ));
                }
                flatten_into(&child_prefix, child, out);
                i = i + 1;
            }
            proof {
                assert(mv.skip(i as int) =~= Seq::<(Seq<char>, JsonVal)>::empty());
            }
        },
        JsonValue::Arr(items) => {
            proof {
                assert(v@ is Arr);
                assert forall|j: int| 0 <= j < items@.len() implies #[trigger] v@->Arr_0[j]
                    == items@[j]@ by {}
            }
            let ghost iv = v@->Arr_0;
            proof {
                assert(iv.len() == items@.len());
                assert(spec_flatten(prefix@, v@, old(out)@) == (if prefix@.len() == 0 {
                    spec_flatten_items(prefix@, iv, 0, old(out)@)
                } else {
                    spec_entries_insert(spec_flatten_items(prefix@, iv, 0, old(out)@), prefix@, v@)
                }));
            }
            let mut i: usize = 0;
            while i < items.len()
                invariant
                    i <= items@.len(),
                    v@ is Arr,
                    (match v {
                        JsonValue::Arr(m) => m@ == items@,
                        _ => false,
                    }),
                    iv == v@->Arr_0,
                    iv.len() == items@.len(),
                    forall|j: int| 0 <= j < items@.len() ==> #[trigger] iv[j] == items@[j]@,
                    val_wf(v@),
                    canonical_rep(v),
                    out.wf(),
                    spec_flatten_items(prefix@, iv, 0, old(out)@) == spec_flatten_items(
                        prefix@,
                        iv,
                        i as nat,
                        out@,
                    ),
                decreases items@.len() - i,
            {
                proof {
                    reveal_with_fuel(<JsonValue as View>::view, 2);
                    crate::jsonv::lemma_canonical_arr(v, items);
                    assert(decreases_to!(v@ => v@->Arr_0));
                    assert(decreases_to!(v@->Arr_0 => v@->Arr_0[i as int]));
                    assert(val_wf(v@));
                    assert(v@ is Arr && v@->Arr_0 == iv);
                    assert(val_wf(iv[i as int]));
                    assert(canonical_rep(&items@[i as int]));
                }
                let mut seg: Vec<char> = Vec::new();
                crate::num::push_u128_chars(i as u128, &mut seg);
                let seg_s = crate::text::string_from_chars(&seg);
                let child_prefix: String = if prefix.as_str().is_empty() {
                    seg_s
                } else {
                    let mut cp = crate::jsonv::clone_string(prefix);
                    cp.append(".");
                    cp.append(seg_s.as_str());
                    cp
                };
                proof {
                    assert(child_prefix@ == spec_child_path(prefix@, nat_chars(i as nat)));
                }
                flatten_into(&child_prefix, &items[i], out);
                i = i + 1;
            }
            if !prefix.as_str().is_empty() {
                out.insert(crate::jsonv::clone_string(prefix), v.duplicate());
            }
        },
        _ => {
            if !prefix.as_str().is_empty() {
                out.insert(crate::jsonv::clone_string(prefix), v.duplicate());
            }
        },
    }
}

/// Flattens a JSON value into its map of encoded paths: leaves and whole
/// arrays at their paths, nulls and the empty root path never stored.
pub fn flatten_json_to_fields(root: &JsonValue) -> (r: FieldMap)
    requires
        val_wf(root@),
        canonical_rep(root),
    ensures
        r.wf(),
        r@ == spec_flatten(Seq::empty(), root@, Seq::empty()),
{
    let mut out = FieldMap::new();
    let prefix = String::new();
    flatten_into(&prefix, root, &mut out);
    out
}

} // verus!

verus! {

/// Splits an encoded path on dots and decodes each segment.
pub open spec fn spec_decode_parts(s: Seq<char>) -> Seq<Seq<char>> {
    if s.len() == 0 {
        Seq::empty()
    } else {
        spec_decode_parts_from(s, 0)
    }
}

/// The decoded segments from position `i` on.
pub open spec fn spec_decode_parts_from(s: Seq<char>, i: int) -> Seq<Seq<char>>
    decreases s.len() - i,
    when 0 <= i <= s.len()
{
    let e0 = dot_run_end(s, i);
    let e = if i <= e0 <= s.len() {
        e0
    } else {
        i
    };
    if e == s.len() {
        seq![spec_decode(s.subrange(i, e))]
    } else {
        seq![spec_decode(s.subrange(i, e))] + spec_decode_parts_from(s, e + 1)
    }
}

/// The first index at or after `i` holding a dot.
pub open spec fn dot_run_end(s: Seq<char>, i: int) -> int
    decreases s.len() - i,
    when 0 <= i <= s.len()
{
    if i == s.len() {
        i
    } else if s[i] == '.' {
        i
    } else {
        dot_run_end(s, i + 1)
    }
}

proof fn lemma_dot_run_end(s: Seq<char>, i: int)
    requires
        0 <= i <= s.len(),
    ensures
        i <= dot_run_end(s, i) <= s.len(),
        forall|k: int| i <= k < dot_run_end(s, i) ==> s[k] != '.',
        dot_run_end(s, i) < s.len() ==> s[dot_run_end(s, i)] == '.',
    decreases s.len() - i,
{
    if i < s.len() && s[i] != '.' {
        lemma_dot_run_end(s, i + 1);
    }
}

/// Decodes the dot-separated segments of an encoded path.
pub fn decode_parts(path: &Vec<char>) -> (r: Vec<String>)
    ensures
        strs_view(r@) == spec_decode_parts(path@),
{
    let mut out: Vec<String> = Vec::new();
    let mut start: usize = 0;
    let ghost whole = path@;
    if path.len() == 0 {
        proof {
            assert(strs_view(out@) =~= spec_decode_parts(whole));
        }
        return out;
    }
    loop
        invariant_except_break
            spec_decode_parts(whole) =~= strs_view(out@) + spec_decode_parts_from(
                whole,
                start as int,
            ),
        invariant
            start <= whole.len(),
            whole == path@,
            whole.len() > 0,
        ensures
            strs_view(out@) =~= spec_decode_parts(whole),
        decreases whole.len() - start,
    {
        proof {
            lemma_dot_run_end(whole, start as int);
        }
        let mut e = start;
        while e < path.len() && path[e] != '.'
            invariant
                start <= e <= whole.len(),
                whole == path@,
                forall|k: int| start <= k < e ==> whole[k] != '.',
                dot_run_end(whole, start as int) == dot_run_end(whole, e as int),
            decreases whole.len() - e,
        {
            e = e + 1;
        }
        proof {
            assert(dot_run_end(whole, e as int) == e);
        }
        let mut seg: Vec<char> = Vec::new();
        let mut i = start;
        while i < e
            invariant
                start <= i <= e <= whole.len(),
                whole == path@,
                seg@ =~= whole.subrange(start as int, i as int),
            decreases e - i,
        {
            proof {
                assert(whole.subrange(start as int, i + 1) =~= whole.subrange(
                    start as int,
                    i as int,
                ).push(whole[i as int]));
            }
            seg.push(path[i]);
            i = i + 1;
        }
        let decoded_chars = decode_chars(&seg);
        let decoded = crate::text::string_from_chars(&decoded_chars);
        let ghost pre = out@;
        out.push(decoded);
        proof {
            assert(strs_view(out@).drop_last() =~= strs_view(pre));
            assert(strs_view(out@) =~= strs_view(pre).push(spec_decode(seg@)));
            assert(seg@ =~= whole.subrange(start as int, e as int));
        }
        if e == path.len() {
            proof {
                assert(spec_decode_parts_from(whole, start as int) =~= seq![
                    spec_decode(whole.subrange(start as int, e as int)),
                ]);
                assert(strs_view(out@) + Seq::<Seq<char>>::empty() =~= strs_view(out@));
                assert(spec_decode_parts(whole) =~= strs_view(out@));
            }
            break;
        }
        proof {
            assert(spec_decode_parts_from(whole, start as int) =~= seq![
                spec_decode(whole.subrange(start as int, e as int)),
            ] + spec_decode_parts_from(whole, e + 1));
            assert(strs_view(pre) + spec_decode_parts_from(whole, start as int) =~= strs_view(
                out@,
            ) + spec_decode_parts_from(whole, e + 1));
        }
        start = e + 1;
    }
    out
}

} // verus!

verus! {

/// A sequence of `n` nulls, the padding array growth uses.
pub open spec fn spec_nulls(n: nat) -> Seq<JsonVal>
    decreases n,
{
    if n == 0 {
        Seq::empty()
    } else {
        spec_nulls((n - 1) as nat).push(JsonVal::Null)
    }
}

/// Inserting one decoded path into a nested value: integer segments select
/// array positions, extending with nulls; other segments select object
/// members, keys kept sorted; at the end of the path the value lands. An
/// array index at or above 2^32 cannot be materialised and leaves the node
/// unchanged.
pub open spec fn spec_insert_nested(
    node: JsonVal,
    parts: Seq<Seq<char>>,
    from: int,
    value: JsonVal,
) -> JsonVal
    decreases parts.len() - from,
    when 0 <= from <= parts.len()
{
    if from == parts.len() {
        value
    } else {
        match crate::num::spec_parse_u64(parts[from]) {
            Some(idx) => if idx >= 0xffff_ffffu64 {
                node
            } else {
                let arr = if node is Arr {
                    node->Arr_0
                } else {
                    Seq::empty()
                };
                let padded = if arr.len() > idx {
                    arr
                } else {
                    arr + spec_nulls((idx + 1 - arr.len()) as nat)
                };
                JsonVal::Arr(
                    padded.update(
                        idx as int,
                        spec_insert_nested(padded[idx as int], parts, from + 1, value),
                    ),
                )
            },
            None => {
                let members = if node is Obj {
                    node->Obj_0
                } else {
                    Seq::empty()
                };
                let existing = match crate::object::spec_entries_get(members, parts[from]) {
                    Some(v) => v,
                    None => JsonVal::Null,
                };
                JsonVal::Obj(
                    crate::object::spec_entries_insert(
                        members,
                        parts[from],
                        spec_insert_nested(existing, parts, from + 1, value),
                    ),
                )
            },
        }
    }
}

/// Inserts a value under a decoded path, reshaping nodes as the path asks.
pub fn insert_nested_value(node: &JsonValue, parts: &Vec<String>, from: usize, value: JsonValue) -> (r:
    JsonValue)
    requires
        from <= parts@.len(),
        val_wf(node@),
        canonical_rep(node),
        val_wf(value@),
        canonical_rep(&value),
    ensures
        r@ == spec_insert_nested(node@, strs_view(parts@), from as int, value@),
        val_wf(r@),
        canonical_rep(&r),
    decreases parts@.len() - from, 1nat,
{
    proof {
        reveal_with_fuel(<JsonValue as View>::view, 2);
    }
    if from == parts.len() {
        return value;
    }
    let part = &parts[from];
    let pc = chars_vec(part.as_str());
    proof {
        assert(part@ == strs_view(parts@)[from as int]);
    }
    match crate::num::parse_u64_chars(&pc) {
        Some(idx64) => {
            if idx64 >= 0xffff_ffffu64 {
                return node.duplicate();
            }
            let empty_items: Vec<JsonValue> = Vec::new();
            let items: &Vec<JsonValue> = match node {
                JsonValue::Arr(items) => {
                    proof {
                        crate::jsonv::lemma_arr_view_bridge(node, items);
                        crate::jsonv::lemma_arr_wf_elim(node, items);
                    }
                    items
                },
                _ => &empty_items,
            };
            proof {
                if node@ is Arr {
                    assert(crate::jsonv::vals_view(items@) == node@->Arr_0);
                } else {
                    assert(crate::jsonv::vals_view(items@) =~= Seq::<JsonVal>::empty());
                }
            }
            let out = rebuild_array(items, idx64, parts, from, value);
            let ghost snap = out@;
            let r = JsonValue::Arr(out);
            proof {
                match &r {
                    JsonValue::Arr(m) => {
                        crate::jsonv::lemma_arr_view_bridge(&r, m);
                    },
                    _ => {
                    },
                }
                crate::jsonv::lemma_arr_wf_intro(&r, snap);
                assert(r@ =~= spec_insert_nested(node@, strs_view(parts@), from as int, value@));
            }
            r
        },
        None => {
            let empty_members: Vec<(String, JsonValue)> = Vec::new();
            let members: &Vec<(String, JsonValue)> = match node {
                JsonValue::Obj(m) => {
                    proof {
                        crate::jsonv::lemma_obj_view_bridge(node, m);
                        crate::jsonv::lemma_obj_wf_elim(node, m);
                    }
                    m
                },
                _ => &empty_members,
            };
            proof {
                if node@ is Obj {
                    assert(entries_view(members@) == node@->Obj_0);
                } else {
                    assert(entries_view(members@) =~= Seq::<(Seq<char>, JsonVal)>::empty());
                }
            }
            let out = rebuild_members(members, part, parts, from, value);
            let ghost snap = out@;
            let r = JsonValue::Obj(out);
            proof {
                match &r {
                    JsonValue::Obj(m) => {
                        crate::jsonv::lemma_obj_view_bridge(&r, m);
                    },
                    _ => {
                    },
                }
                assert forall|x: int|
                    #![trigger snap[x]]
                    0 <= x && x + 1 < snap.len() implies seq_lt(snap[x].0@, snap[x + 1].0@) by {
                    assert(entries_view(snap)[x] == (snap[x].0@, snap[x].1@));
                    assert(entries_view(snap)[x + 1] == (snap[x + 1].0@, snap[x + 1].1@));
                }
                crate::jsonv::lemma_obj_wf_intro(&r, snap);
                assert(r@ =~= spec_insert_nested(node@, strs_view(parts@), from as int, value@));
            }
            r
        },
    }
}

/// The padded items of an array, as the spec pads them.
pub open spec fn spec_padded(arr0: Seq<JsonVal>, idx: u64) -> Seq<JsonVal> {
    if arr0.len() > idx {
        arr0
    } else {
        arr0 + spec_nulls((idx + 1 - arr0.len()) as nat)
    }
}

/// Rebuilds an array with the path's value landed at `idx64`, padding with
/// nulls as far as the index asks.
#[verifier::rlimit(100)]
fn rebuild_array(
    items: &Vec<JsonValue>,
    idx64: u64,
    parts: &Vec<String>,
    from: usize,
    value: JsonValue,
) -> (r: Vec<JsonValue>)
    requires
        idx64 < 0xffff_ffffu64,
        from < parts@.len(),
        crate::num::spec_parse_u64(strs_view(parts@)[from as int]) == Some(idx64),
        forall|q: int|
            #![trigger items@[q]]
            0 <= q < items@.len() ==> val_wf(items@[q]@) && canonical_rep(&items@[q]),
        val_wf(value@),
        canonical_rep(&value),
    ensures
        crate::jsonv::vals_view(r@) == spec_padded(crate::jsonv::vals_view(items@), idx64).update(
            idx64 as int,
            spec_insert_nested(
                spec_padded(crate::jsonv::vals_view(items@), idx64)[idx64 as int],
                strs_view(parts@),
                from + 1,
                value@,
            ),
        ),
        forall|q: int|
            #![trigger r@[q]]
            0 <= q < r@.len() ==> val_wf(r@[q]@) && canonical_rep(&r@[q]),
    decreases parts@.len() - from, 0nat,
{
    let pn = parts.len();
    proof {
        assert(parts@.len() == pn);
    }
    let idx: usize = idx64 as usize;
    let ghost arr0 = crate::jsonv::vals_view(items@);
    let ghost padded = spec_padded(arr0, idx64);
    proof {
        crate::jsonv::lemma_vals_view_len(items@);
        lemma_spec_nulls_len((if arr0.len() > idx64 {
            0nat
        } else {
            (idx64 + 1 - arr0.len()) as nat
        }));
        assert forall|q: int| 0 <= q < padded.len() implies #[trigger] padded[q] == (if q
            < arr0.len() {
            arr0[q]
        } else {
            JsonVal::Null
        }) by {
            if q >= arr0.len() {
                lemma_spec_nulls_index((padded.len() - arr0.len()) as nat, q - arr0.len());
            }
        }
        assert forall|q: int| 0 <= q < items@.len() implies #[trigger] arr0[q] == items@[q]@ by {
            crate::jsonv::lemma_vals_view_index(items@, q);
        }
    }
    let total: usize = if items.len() > idx {
        items.len()
    } else {
        idx + 1
    };
    let null_elem = JsonValue::Null;
    let mut out: Vec<JsonValue> = Vec::new();
    let mut j: usize = 0;
    while j < total
        invariant
            j <= total,
            idx == idx64,
            idx < total,
            total == padded.len(),
            arr0 == crate::jsonv::vals_view(items@),
            arr0.len() == items@.len(),
            padded == spec_padded(arr0, idx64),
            forall|q: int|
                0 <= q < padded.len() ==> #[trigger] padded[q] == (if q < arr0.len() {
                    arr0[q]
                } else {
                    JsonVal::Null
                }),
            forall|q: int| 0 <= q < items@.len() ==> #[trigger] arr0[q] == items@[q]@,
            forall|q: int|
                #![trigger items@[q]]
                0 <= q < items@.len() ==> val_wf(items@[q]@) && canonical_rep(&items@[q]),
            val_wf(value@),
            canonical_rep(&value),
            null_elem == JsonValue::Null,
            from < parts@.len(),
            parts@.len() == pn,
            crate::num::spec_parse_u64(strs_view(parts@)[from as int]) == Some(idx64),
            out@.len() == j,
            forall|q: int|
                #![trigger out@[q]]
                0 <= q < j ==> val_wf(out@[q]@) && canonical_rep(&out@[q]) && out@[q]@ == (if q
                    == idx64 {
                    spec_insert_nested(padded[idx64 as int], strs_view(parts@), from + 1, value@)
                } else {
                    padded[q]
                }),
        decreases total - j,
    {
        if j == idx {
            let rebuilt: JsonValue;
            if idx < items.len() {
                rebuilt = insert_nested_value(&items[idx], parts, from + 1, value.duplicate());
            } else {
                proof {
                    assert(padded[idx64 as int] == JsonVal::Null);
                    assert(val_wf(null_elem@) && canonical_rep(&null_elem));
                }
                rebuilt = insert_nested_value(&null_elem, parts, from + 1, value.duplicate());
            }
            out.push(rebuilt);
        } else if j < items.len() {
            out.push(items[j].duplicate());
        } else {
            out.push(JsonValue::Null);
        }
        j = j + 1;
    }
    proof {
        assert(crate::jsonv::vals_view(out@) =~= padded.update(
            idx64 as int,
            spec_insert_nested(padded[idx64 as int], strs_view(parts@), from + 1, value@),
        ));
    }
    out
}

/// Rebuilds a sorted member list with the path's value landed under `part`:
/// an existing key is replaced in place, an absent key enters at its sorted
/// position, and the landed value is the nested insertion into what the key
/// held (or null).
#[verifier::rlimit(100)]
fn rebuild_members(
    members: &Vec<(String, JsonValue)>,
    part: &String,
    parts: &Vec<String>,
    from: usize,
    value: JsonValue,
) -> (r: Vec<(String, JsonValue)>)
    requires
        from < parts@.len(),
        part@ == strs_view(parts@)[from as int],
        forall|q: int|
            #![trigger members@[q]]
            0 <= q < members@.len() ==> val_wf(members@[q].1@) && canonical_rep(&members@[q].1),
        forall|q: int|
            #![trigger members@[q]]
            0 <= q && q + 1 < members@.len() ==> seq_lt(members@[q].0@, members@[q + 1].0@),
        val_wf(value@),
        canonical_rep(&value),
    ensures
        ({
            let m0 = entries_view(members@);
            let existing = match crate::object::spec_entries_get(m0, part@) {
                Some(v) => v,
                None => JsonVal::Null,
            };
            entries_view(r@) == crate::object::spec_entries_insert(
                m0,
                part@,
                spec_insert_nested(existing, strs_view(parts@), from + 1, value@),
            )
        }),
        forall|q: int|
            #![trigger r@[q]]
            0 <= q < r@.len() ==> val_wf(r@[q].1@) && canonical_rep(&r@[q].1),
        forall|q: int|
            #![trigger r@[q]]
            0 <= q && q + 1 < r@.len() ==> seq_lt(r@[q].0@, r@[q + 1].0@),
    decreases parts@.len() - from, 0nat,
{
    let pn = parts.len();
    proof {
        assert(parts@.len() == pn);
        assert(from < pn);
    }
    let ghost m0 = entries_view(members@);
    proof {
        crate::jsonv::lemma_entries_view_len(members@);
        assert forall|q: int| 0 <= q < members@.len() implies #[trigger] m0[q] == (
            members@[q].0@,
            members@[q].1@,
        ) by {
            crate::jsonv::lemma_entries_view_index(members@, q);
        }
        assert(crate::object::map_keys_sorted(m0));
    }
    let pc = chars_vec(part.as_str());
    let pos = obj_member_position(members, part.as_str());
    let found = pos < members.len();
    proof {
        assert forall|q: int| #![trigger m0[q]] 0 <= q < pos implies m0[q].0 != part@ by {}
        if found {
            assert(m0[pos as int].0 == part@);
        }
        crate::object::lemma_entries_get_at(m0, part@, pos as int);
    }
    let at: usize = if found {
        pos
    } else {
        sorted_position(members, &pc)
    };
    let null_elem = JsonValue::Null;
    let rebuilt: JsonValue;
    if found {
        rebuilt = insert_nested_value(&members[pos].1, parts, from + 1, value);
    } else {
        rebuilt = insert_nested_value(&null_elem, parts, from + 1, value);
    }
    let ghost nc = rebuilt@;
    let mut out: Vec<(String, JsonValue)> = Vec::new();
    let mut j: usize = 0;
    while j < at
        invariant
            j <= at,
            at <= members@.len(),
            m0 == entries_view(members@),
            m0.len() == members@.len(),
            forall|q: int|
                0 <= q < members@.len() ==> #[trigger] m0[q] == (members@[q].0@, members@[q].1@),
            forall|q: int|
                #![trigger members@[q]]
                0 <= q < members@.len() ==> val_wf(members@[q].1@) && canonical_rep(
                    &members@[q].1,
                ),
            out@.len() == j,
            forall|q: int|
                #![trigger out@[q]]
                0 <= q < j ==> out@[q].0@ == m0[q].0 && out@[q].1@ == m0[q].1 && val_wf(
                    out@[q].1@,
                ) && canonical_rep(&out@[q].1),
        decreases at - j,
    {
        let (k, v) = &members[j];
        out.push((crate::jsonv::clone_string(k), v.duplicate()));
        j = j + 1;
    }
    out.push((crate::jsonv::clone_string(part), rebuilt));
    let ghost base: int = if found {
        at + 1
    } else {
        at as int
    };
    let mut q: usize = if found {
        at + 1
    } else {
        at
    };
    while q < members.len()
        invariant
            base == (if found {
                at + 1
            } else {
                at as int
            }),
            base <= q <= members@.len(),
            at <= members@.len(),
            found ==> at < members@.len(),
            m0 == entries_view(members@),
            m0.len() == members@.len(),
            forall|x: int|
                0 <= x < members@.len() ==> #[trigger] m0[x] == (members@[x].0@, members@[x].1@),
            forall|x: int|
                #![trigger members@[x]]
                0 <= x < members@.len() ==> val_wf(members@[x].1@) && canonical_rep(
                    &members@[x].1,
                ),
            out@.len() == at + 1 + (q - base),
            forall|x: int|
                #![trigger out@[x]]
                0 <= x < at ==> out@[x].0@ == m0[x].0 && out@[x].1@ == m0[x].1,
            out@[at as int].0@ == part@ && out@[at as int].1@ == nc,
            forall|x: int|
                #![trigger out@[x]]
                at < x < out@.len() ==> out@[x].0@ == m0[x - at - 1 + base].0 && out@[x].1@ == m0[
                    x - at - 1 + base
                ].1,
            forall|x: int|
                #![trigger out@[x]]
                0 <= x < out@.len() ==> val_wf(out@[x].1@) && canonical_rep(&out@[x].1),
        decreases members@.len() - q,
    {
        let (k, v) = &members[q];
        out.push((crate::jsonv::clone_string(k), v.duplicate()));
        q = q + 1;
    }
    proof {
        assert(crate::object::map_keys_sorted(m0));
        assert forall|x: int| #![trigger m0[x]] 0 <= x < at implies seq_lt(m0[x].0, part@) by {
            if found {
                crate::object::lemma_sorted_pairwise(m0, x, at as int);
            }
        }
        if found {
            crate::text::lemma_seq_cmp_eq(m0[at as int].0, part@);
        }
        if !found && (at as int) < m0.len() {
            crate::text::lemma_seq_cmp_eq(m0[at as int].0, part@);
            crate::text::lemma_seq_cmp_flip(m0[at as int].0, part@);
            assert(seq_lt(part@, m0[at as int].0));
        }
        crate::object::lemma_insert_at(m0, part@, nc, at as int);
        assert(entries_view(out@) =~= (if found {
            m0.take(at as int) + seq![(part@, nc)] + m0.skip(at + 1)
        } else {
            m0.take(at as int) + seq![(part@, nc)] + m0.skip(at as int)
        }));
        assert forall|x: int|
            #![trigger out@[x]]
            0 <= x && x + 1 < out@.len() implies seq_lt(out@[x].0@, out@[x + 1].0@) by {
            assert(entries_view(out@)[x] == (out@[x].0@, out@[x].1@));
            assert(entries_view(out@)[x + 1] == (out@[x + 1].0@, out@[x + 1].1@));
            lemma_rebuilt_sorted(m0, part@, nc, at as int, found, entries_view(out@), x);
        }
    }
    out
}

proof fn lemma_spec_nulls_len(n: nat)
    ensures
        spec_nulls(n).len() == n,
    decreases n,
{
    if n > 0 {
        lemma_spec_nulls_len((n - 1) as nat);
    }
}

proof fn lemma_spec_nulls_index(n: nat, i: int)
    requires
        0 <= i < n,
    ensures
        spec_nulls(n)[i] == JsonVal::Null,
    decreases n,
{
    lemma_spec_nulls_len(n);
    if i + 1 < n {
        lemma_spec_nulls_index((n - 1) as nat, i);
    } else {
        lemma_spec_nulls_len((n - 1) as nat);
    }
}

/// Sortedness of the rebuilt member list around the landing position.
proof fn lemma_rebuilt_sorted(
    m0: Seq<(Seq<char>, JsonVal)>,
    k: Seq<char>,
    v: JsonVal,
    at: int,
    found: bool,
    snap: Seq<(Seq<char>, JsonVal)>,
    x: int,
)
    requires
        crate::object::map_keys_sorted(m0),
        0 <= at <= m0.len(),
        forall|j: int| #![trigger m0[j]] 0 <= j < at ==> seq_lt(m0[j].0, k),
        found ==> at < m0.len() && m0[at].0 == k,
        !found && at < m0.len() ==> seq_lt(k, m0[at].0),
        snap =~= (if found {
            m0.take(at) + seq![(k, v)] + m0.skip(at + 1)
        } else {
            m0.take(at) + seq![(k, v)] + m0.skip(at)
        }),
        0 <= x && x + 1 < snap.len(),
    ensures
        seq_lt(snap[x].0, snap[x + 1].0),
{
    let s2: int = if found {
        1
    } else {
        0
    };
    if x + 1 < at {
        assert(snap[x] == m0[x]);
        assert(snap[x + 1] == m0[x + 1]);
    } else if x + 1 == at {
        assert(snap[x] == m0[x]);
        assert(snap[x + 1].0 == k);
    } else if x == at {
        assert(snap[x].0 == k);
        assert(snap[x + 1] == m0[x + s2]);
        if found {
            crate::object::lemma_sorted_pairwise(m0, at, at + 1);
        }
    } else {
        assert(snap[x] == m0[x - 1 + s2]);
        assert(snap[x + 1] == m0[x + s2]);
    }
}

/// The sorted position an absent key lands at: every key before it is
/// smaller, the key at it (if any) is larger.
fn sorted_position(members: &Vec<(String, JsonValue)>, kc: &Vec<char>) -> (r: usize)
    requires
        forall|j: int|
            #![trigger members@[j]]
            0 <= j && j + 1 < members@.len() ==> seq_lt(members@[j].0@, members@[j + 1].0@),
    ensures
        r <= members@.len(),
        forall|j: int| #![trigger members@[j]] 0 <= j < r ==> seq_lt(members@[j].0@, kc@),
        r < members@.len() ==> crate::text::seq_cmp(members@[r as int].0@, kc@) != crate::num::Rel::Lt,
{
    let mut i: usize = 0;
    while i < members.len()
        invariant
            i <= members@.len(),
            forall|j: int| #![trigger members@[j]] 0 <= j < i ==> seq_lt(members@[j].0@, kc@),
        decreases members@.len() - i,
    {
        let ec = chars_vec(members[i].0.as_str());
        let c = crate::text::chars_cmp(&ec, kc);
        proof {
            crate::text::lemma_seq_cmp_flip(members@[i as int].0@, kc@);
        }
        if !matches!(c, crate::num::Rel::Lt) {
            return i;
        }
        i = i + 1;
    }
    i
}

/// Finds the first position whose key equals the part, scanning in order.
fn obj_member_position(members: &Vec<(String, JsonValue)>, part: &str) -> (r: usize)
    ensures
        r <= members@.len(),
        r < members@.len() ==> members@[r as int].0@ == part@,
        forall|j: int| #![trigger members@[j]] 0 <= j < r ==> members@[j].0@ != part@,
{
    let mut i: usize = 0;
    while i < members.len()
        invariant
            i <= members@.len(),
            forall|j: int| #![trigger members@[j]] 0 <= j < i ==> members@[j].0@ != part@,
        decreases members@.len() - i,
    {
        if crate::object::str_equal(members[i].0.as_str(), part) {
            return i;
        }
        i = i + 1;
    }
    i
}

} // verus!


verus! {

/// The reconstruction fold: every entry's decoded path inserted in turn,
/// starting from an empty object.
pub open spec fn spec_reconstruct_go(
    m: Seq<(Seq<char>, JsonVal)>,
    i: int,
    acc: JsonVal,
) -> JsonVal
    decreases m.len() - i,
    when 0 <= i <= m.len()
{
    if i == m.len() {
        acc
    } else {
        spec_reconstruct_go(
            m,
            i + 1,
            spec_insert_nested(acc, spec_decode_parts(m[i].0), 0, m[i].1),
        )
    }
}

/// The nested JSON value a field map denotes.
pub open spec fn spec_reconstruct(m: Seq<(Seq<char>, JsonVal)>) -> JsonVal {
    spec_reconstruct_go(m, 0, JsonVal::Obj(Seq::empty()))
}

/// Rebuilds the nested JSON value a field map denotes: every encoded path is
/// decoded into segments and its value inserted, starting from an empty
/// object. Decoding is deterministic, so the outcome does not depend on how
/// the map was assembled.
pub fn reconstruct_nested_from_fields(fields: &FieldMap) -> (r: JsonValue)
    requires
        fields.wf(),
    ensures
        r@ == spec_reconstruct(fields@),
        val_wf(r@),
        canonical_rep(&r),
{
    proof {
        fields.lemma_wf_view();
        reveal_with_fuel(<JsonValue as View>::view, 2);
    }
    let mut root = JsonValue::Obj(Vec::new());
    proof {
        assert(root@ is Obj);
        assert(root@->Obj_0 =~= Seq::<(Seq<char>, JsonVal)>::empty());
        assert(root@ =~= JsonVal::Obj(Seq::empty()));
        assert(val_wf(root@) && canonical_rep(&root));
    }
    let n = fields.len();
    let mut i: usize = 0;
    while i < n
        invariant
            i <= n,
            n == fields@.len(),
            fields.wf(),
            val_wf(root@),
            canonical_rep(&root),
            spec_reconstruct(fields@) == spec_reconstruct_go(fields@, i as int, root@),
        decreases n - i,
    {
        let key = fields.key_at(i);
        let kc = chars_vec(key.as_str());
        let parts = decode_parts(&kc);
        let value = fields.value_at(i).duplicate();
        proof {
            fields.lemma_wf_view();
            assert(val_wf(fields@[i as int].1));
            assert(kc@ == fields@[i as int].0);
        }
        root = insert_nested_value(&root, &parts, 0, value);
        i = i + 1;
    }
    root
}

/// Whether some stored path extends `prefix` with a non-empty suffix.
pub open spec fn spec_has_descendant(m: Seq<(Seq<char>, JsonVal)>, prefix: Seq<char>) -> bool {
    exists|i: int|
        0 <= i < m.len() && (#[trigger] m[i].0).len() > prefix.len() && m[i].0.take(
            prefix.len() as int,
        ) == prefix
}

/// The subtree fold: every stored path under the prefix contributes its
/// value at its decoded suffix; the flag says whether any did.
pub open spec fn spec_subtree_go(
    m: Seq<(Seq<char>, JsonVal)>,
    i: int,
    prefix: Seq<char>,
    acc: JsonVal,
    found: bool,
) -> (JsonVal, bool)
    decreases m.len() - i,
    when 0 <= i <= m.len()
{
    if i == m.len() {
        (acc, found)
    } else {
        let k = m[i].0;
        if k.len() > prefix.len() && k.take(prefix.len() as int) == prefix {
            spec_subtree_go(
                m,
                i + 1,
                prefix,
                spec_insert_nested(
                    acc,
                    spec_decode_parts(k.skip(prefix.len() as int)),
                    0,
                    m[i].1,
                ),
                true,
            )
        } else {
            spec_subtree_go(m, i + 1, prefix, acc, found)
        }
    }
}

/// The subtree a prefix denotes, with whether any descendant contributed.
pub open spec fn spec_select_subtree(m: Seq<(Seq<char>, JsonVal)>, prefix: Seq<char>) -> (
    JsonVal,
    bool,
) {
    spec_subtree_go(m, 0, prefix, JsonVal::Obj(Seq::empty()), false)
}

/// Selects the value a user path denotes: the exact encoded path's value
/// when stored; otherwise the subtree rebuilt from the decoded suffixes of
/// every stored path under `path` plus a dot; absent when neither exists.
pub fn select_path_value(fields: &FieldMap, path: &str) -> (r: Option<JsonValue>)
    requires
        fields.wf(),
    ensures
        ({
            let enc = spec_encode_path(path@);
            let sub = spec_select_subtree(fields@, enc + "."@);
            match r {
                Some(v) => val_wf(v@) && canonical_rep(&v) && (match crate::object::spec_entries_get(
                    fields@,
                    enc,
                ) {
                    Some(stored) => v@ == stored,
                    None => sub.1 && v@ == sub.0,
                }),
                None => crate::object::spec_entries_get(fields@, enc) is None && !sub.1
                    && !spec_has_descendant(fields@, enc + "."@),
            }
        }),
{
    proof {
        fields.lemma_wf_view();
    }
    let encoded = encode_path(path);
    match fields.get(encoded.as_str()) {
        Some(v) => {
            return Some(v.duplicate());
        },
        None => {
        },
    }
    let pc = chars_vec(encoded.as_str());
    let ghost pc0 = pc@;
    let mut prefix_chars = pc;
    prefix_chars.push('.');
    let ghost prefix = prefix_chars@;
    proof {
        reveal_strlit(".");
        assert(pc0 == spec_encode_path(path@));
        assert(prefix =~= pc0.push('.'));
        assert(prefix =~= spec_encode_path(path@) + "."@);
    }
    let plen = prefix_chars.len();
    let mut nested = JsonValue::Obj(Vec::new());
    proof {
        reveal_with_fuel(<JsonValue as View>::view, 2);
        assert(nested@ is Obj);
        assert(nested@->Obj_0 =~= Seq::<(Seq<char>, JsonVal)>::empty());
        assert(nested@ =~= JsonVal::Obj(Seq::empty()));
        assert(val_wf(nested@) && canonical_rep(&nested));
    }
    let mut found = false;
    let n = fields.len();
    let mut i: usize = 0;
    while i < n
        invariant
            i <= n,
            n == fields@.len(),
            fields.wf(),
            val_wf(nested@),
            canonical_rep(&nested),
            prefix == prefix_chars@,
            plen == prefix.len(),
            spec_select_subtree(fields@, prefix) == spec_subtree_go(
                fields@,
                i as int,
                prefix,
                nested@,
                found,
            ),
            !found ==> forall|j: int|
                0 <= j < i ==> !((#[trigger] fields@[j].0).len() > prefix.len() && fields@[j].0.take(
                    prefix.len() as int,
                ) == prefix),
        decreases n - i,
    {
        let key = fields.key_at(i);
        let kc = chars_vec(key.as_str());
        proof {
            assert(kc@ == fields@[i as int].0);
        }
        let is_child = longer_with_prefix(&kc, &prefix_chars);
        if is_child {
            let mut suffix: Vec<char> = Vec::new();
            let mut k = plen;
            proof {
                assert(plen <= kc@.len());
            }
            while k < kc.len()
                invariant
                    plen <= k <= kc@.len(),
                    suffix@ =~= kc@.subrange(plen as int, k as int),
                decreases kc@.len() - k,
            {
                proof {
                    assert(kc@.subrange(plen as int, k + 1) =~= kc@.subrange(
                        plen as int,
                        k as int,
                    ).push(kc@[k as int]));
                }
                suffix.push(kc[k]);
                k = k + 1;
            }
            proof {
                assert(suffix@ =~= kc@.skip(plen as int));
            }
            let parts = decode_parts(&suffix);
            let value = fields.value_at(i).duplicate();
            proof {
                fields.lemma_wf_view();
                assert(val_wf(fields@[i as int].1));
            }
            nested = insert_nested_value(&nested, &parts, 0, value);
            found = true;
        }
        i = i + 1;
    }
    if found {
        Some(nested)
    } else {
        proof {
            assert(!spec_has_descendant(fields@, prefix));
        }
        None
    }
}

/// Whether `key` is strictly longer than `prefix` and starts with it.
fn longer_with_prefix(key: &Vec<char>, prefix: &Vec<char>) -> (r: bool)
    ensures
        r == (key@.len() > prefix@.len() && key@.take(prefix@.len() as int) == prefix@),
{
    if key.len() <= prefix.len() {
        return false;
    }
    let mut i: usize = 0;
    while i < prefix.len()
        invariant
            i <= prefix@.len(),
            prefix@.len() < key@.len(),
            forall|j: int| 0 <= j < i ==> key@[j] == prefix@[j],
        decreases prefix@.len() - i,
    {
        if key[i] != prefix[i] {
            proof {
                assert(key@.take(prefix@.len() as int)[i as int] != prefix@[i as int]);
            }
            return false;
        }
        i = i + 1;
    }
    proof {
        assert(key@.take(prefix@.len() as int) =~= prefix@);
    }
    true
}

} // verus!

verus! {

/// A clean field map: no empty path, no null value.
pub open spec fn entries_clean(m: Seq<(Seq<char>, JsonVal)>) -> bool {
    forall|i: int| #![trigger m[i]] 0 <= i < m.len() ==> m[i].0.len() > 0 && !(m[i].1 is Null)
}

proof fn lemma_insert_clean(m: Seq<(Seq<char>, JsonVal)>, k: Seq<char>, v: JsonVal)
    requires
        entries_clean(m),
        k.len() > 0,
        !(v is Null),
    ensures
        entries_clean(spec_entries_insert(m, k, v)),
    decreases m.len(),
{
    if m.len() == 0 {
    } else if crate::text::seq_lt(k, m[0].0) {
        let r = spec_entries_insert(m, k, v);
        assert forall|i: int| #![trigger r[i]] 0 <= i < r.len() implies r[i].0.len() > 0 && !(
        r[i].1 is Null) by {
            if i > 0 {
                assert(r[i] == m[i - 1]);
            }
        }
    } else if k == m[0].0 {
        let r = spec_entries_insert(m, k, v);
        assert forall|i: int| #![trigger r[i]] 0 <= i < r.len() implies r[i].0.len() > 0 && !(
        r[i].1 is Null) by {
            if i > 0 {
                assert(r[i] == m[i]);
            }
        }
    } else {
        assert(entries_clean(m.drop_first()));
        lemma_insert_clean(m.drop_first(), k, v);
        let r = spec_entries_insert(m, k, v);
        let t = spec_entries_insert(m.drop_first(), k, v);
        assert forall|i: int| #![trigger r[i]] 0 <= i < r.len() implies r[i].0.len() > 0 && !(
        r[i].1 is Null) by {
            if i == 0 {
                assert(r[0] == m[0]);
            } else {
                assert(r[i] == t[i - 1]);
            }
        }
    }
}

proof fn lemma_flatten_clean(prefix: Seq<char>, v: JsonVal, acc: Seq<(Seq<char>, JsonVal)>)
    requires
        entries_clean(acc),
    ensures
        entries_clean(spec_flatten(prefix, v, acc)),
    decreases v, 0nat,
{
    match v {
        JsonVal::Null => {
        },
        JsonVal::Obj(members) => {
            lemma_flatten_members_clean(prefix, members, acc);
        },
        JsonVal::Arr(items) => {
            lemma_flatten_items_clean(prefix, items, 0, acc);
            if prefix.len() > 0 {
                lemma_insert_clean(spec_flatten_items(prefix, items, 0, acc), prefix, v);
            }
        },
        _ => {
            if prefix.len() > 0 {
                lemma_insert_clean(acc, prefix, v);
            }
        },
    }
}

proof fn lemma_flatten_members_clean(
    prefix: Seq<char>,
    members: Seq<(Seq<char>, JsonVal)>,
    acc: Seq<(Seq<char>, JsonVal)>,
)
    requires
        entries_clean(acc),
    ensures
        entries_clean(spec_flatten_members(prefix, members, acc)),
    decreases members, 1nat,
{
    if members.len() > 0 {
        lemma_flatten_clean(
            spec_child_path(prefix, spec_encode_segment(members[0].0)),
            members[0].1,
            acc,
        );
        lemma_flatten_members_clean(
            prefix,
            members.drop_first(),
            spec_flatten(
                spec_child_path(prefix, spec_encode_segment(members[0].0)),
                members[0].1,
                acc,
            ),
        );
    }
}

proof fn lemma_flatten_items_clean(
    prefix: Seq<char>,
    items: Seq<JsonVal>,
    idx: nat,
    acc: Seq<(Seq<char>, JsonVal)>,
)
    requires
        entries_clean(acc),
        idx <= items.len(),
    ensures
        entries_clean(spec_flatten_items(prefix, items, idx, acc)),
    decreases items, items.len() - idx,
{
    if idx < items.len() {
        lemma_flatten_clean(spec_child_path(prefix, nat_chars(idx)), items[idx as int], acc);
        lemma_flatten_items_clean(
            prefix,
            items,
            idx + 1,
            spec_flatten(spec_child_path(prefix, nat_chars(idx)), items[idx as int], acc),
        );
    }
}

/// Flattening stores no empty path and no null leaf: every entry of the map
/// a value flattens to has a non-empty encoded path and a non-null value.
pub proof fn lemma_flatten_stores_no_empty_paths_and_no_nulls(v: JsonVal)
    ensures
        entries_clean(spec_flatten(Seq::empty(), v, Seq::empty())),
{
    lemma_flatten_clean(Seq::empty(), v, Seq::empty());
}

} // verus!
