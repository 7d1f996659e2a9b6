//! Character-level utilities shared by the path codec, the query parser,
//! the selector planner and the decimal comparisons.

use vstd::prelude::*;

verus! {

/// The characters of `s`, in order, as a vector.
pub fn chars_vec(s: &str) -> (r: Vec<char>)
    ensures
        r@ == s@,
{
    let n = s.unicode_len();
    let mut out: Vec<char> = Vec::new();
    let mut i: usize = 0;
    while i < n
        invariant
            i <= n,
            n == s@.len(),
            out@ =~= s@.take(i as int),
        decreases n - i,
    {
        out.push(s.get_char(i));
        i = i + 1;
    }
    proof {
        assert(out@ =~= s@);
    }
    out
}

/// Relies on `String: FromIterator<char>`: the returned string holds exactly
/// the given characters, in order.
#[verifier::external_body]
pub(crate) fn string_from_chars(chars: &Vec<char>) -> (r: String)
    ensures
        r@ == chars@,
{
    chars.iter().copied().collect()
}

/// The blank characters that separate query tokens: space, tab, carriage
/// return and line feed.
pub open spec fn is_query_space(c: char) -> bool {
    c == ' ' || c == '\t' || c == '\r' || c == '\n'
}

#[verifier::when_used_as_spec(is_query_space)]
pub fn query_space(c: char) -> (r: bool)
    ensures
        r == is_query_space(c),
{
    c == ' ' || c == '\t' || c == '\r' || c == '\n'
}

/// The ASCII blank characters, as `u8::is_ascii_whitespace` counts them.
pub open spec fn is_ascii_space(c: char) -> bool {
    c == ' ' || c == '\t' || c == '\r' || c == '\n' || c == '\x0c'
}

#[verifier::when_used_as_spec(is_ascii_space)]
pub fn ascii_space(c: char) -> (r: bool)
    ensures
        r == is_ascii_space(c),
{
    c == ' ' || c == '\t' || c == '\r' || c == '\n' || c == '\x0c'
}

/// The Unicode `White_Space` characters.
pub open spec fn is_unicode_space(c: char) -> bool {
    let u = c as u32;
    (9 <= u && u <= 13) || u == 0x20 || u == 0x85 || u == 0xa0 || u == 0x1680 || (0x2000 <= u
        && u <= 0x200a) || u == 0x2028 || u == 0x2029 || u == 0x202f || u == 0x205f || u == 0x3000
}

#[verifier::when_used_as_spec(is_unicode_space)]
pub fn unicode_space(c: char) -> (r: bool)
    ensures
        r == is_unicode_space(c),
{
    let u = c as u32;
    (9 <= u && u <= 13) || u == 0x20 || u == 0x85 || u == 0xa0 || u == 0x1680 || (0x2000 <= u
        && u <= 0x200a) || u == 0x2028 || u == 0x2029 || u == 0x202f || u == 0x205f || u == 0x3000
}

pub open spec fn seq_has_unicode_space(s: Seq<char>) -> bool {
    exists|i: int| 0 <= i < s.len() && is_unicode_space(s[i])
}

/// Whether any character of `s` is Unicode white space.
pub fn has_unicode_space(s: &Vec<char>) -> (r: bool)
    ensures
        r == seq_has_unicode_space(s@),
{
    let mut i: usize = 0;
    while i < s.len()
        invariant
            i <= s@.len(),
            forall|j: int| 0 <= j < i ==> !is_unicode_space(s@[j]),
        decreases s@.len() - i,
    {
        if unicode_space(s[i]) {
            return true;
        }
        i = i + 1;
    }
    false
}

pub open spec fn seq_has_char(s: Seq<char>, c: char) -> bool {
    exists|i: int| 0 <= i < s.len() && s[i] == c
}

/// Whether `s` holds the character `c`.
pub fn has_char(s: &Vec<char>, c: char) -> (r: bool)
    ensures
        r == seq_has_char(s@, c),
{
    let mut i: usize = 0;
    while i < s.len()
        invariant
            i <= s@.len(),
            forall|j: int| 0 <= j < i ==> s@[j] != c,
        decreases s@.len() - i,
    {
        if s[i] == c {
            return true;
        }
        i = i + 1;
    }
    false
}

pub open spec fn spec_lower_char(c: char) -> char {
    if 'A' <= c && c <= 'Z' {
        ((c as u8) + 32) as char
    } else {
        c
    }
}

/// The ASCII lower-case form of one character.
pub fn lower_char(c: char) -> (r: char)
    ensures
        r == spec_lower_char(c),
{
    if 'A' <= c && c <= 'Z' {
        ((c as u8) + 32) as char
    } else {
        c
    }
}

pub open spec fn spec_lower(s: Seq<char>) -> Seq<char> {
    s.map(|_i: int, c: char| spec_lower_char(c))
}

/// The ASCII lower-case form of a character sequence.
pub fn lower_chars(s: &Vec<char>) -> (r: Vec<char>)
    ensures
        r@ == spec_lower(s@),
{
    let mut out: Vec<char> = Vec::new();
    let mut i: usize = 0;
    while i < s.len()
        invariant
            i <= s@.len(),
            out@ =~= spec_lower(s@).take(i as int),
        decreases s@.len() - i,
    {
        out.push(lower_char(s[i]));
        i = i + 1;
    }
    proof {
        assert(out@ =~= spec_lower(s@));
    }
    out
}

/// Whether `a` and `b` are equal after ASCII lower-casing.
pub fn eq_ignore_case(a: &Vec<char>, b: &Vec<char>) -> (r: bool)
    ensures
        r == (spec_lower(a@) == spec_lower(b@)),
{
    if a.len() != b.len() {
        proof {
            assert(spec_lower(a@).len() != spec_lower(b@).len());
        }
        return false;
    }
    let mut i: usize = 0;
    while i < a.len()
        invariant
            i <= a@.len(),
            a@.len() == b@.len(),
            forall|j: int| 0 <= j < i ==> spec_lower(a@)[j] == spec_lower(b@)[j],
        decreases a@.len() - i,
    {
        if lower_char(a[i]) != lower_char(b[i]) {
            proof {
                assert(spec_lower(a@)[i as int] != spec_lower(b@)[i as int]);
            }
            return false;
        }
        i = i + 1;
    }
    proof {
        assert(spec_lower(a@) =~= spec_lower(b@));
    }
    true
}

/// The views of a sequence of strings.
pub open spec fn strs_view(s: Seq<String>) -> Seq<Seq<char>>
    decreases s.len(),
{
    if s.len() == 0 {
        Seq::empty()
    } else {
        strs_view(s.drop_last()).push(s.last()@)
    }
}

pub broadcast proof fn lemma_strs_view_len(s: Seq<String>)
    ensures
        #[trigger] strs_view(s).len() == s.len(),
    decreases s.len(),
{
    if s.len() > 0 {
        lemma_strs_view_len(s.drop_last());
    }
}

pub broadcast proof fn lemma_strs_view_index(s: Seq<String>, i: int)
    requires
        0 <= i < s.len(),
    ensures
        #[trigger] strs_view(s)[i] == s[i]@,
    decreases s.len(),
{
    lemma_strs_view_len(s);
    if i + 1 < s.len() {
        lemma_strs_view_index(s.drop_last(), i);
    }
}

/// Lexicographic three-way comparison of character sequences by code point,
/// the order of `str`'s own comparison.
pub open spec fn seq_cmp(a: Seq<char>, b: Seq<char>) -> crate::num::Rel
    decreases a.len(),
{
    if a.len() == 0 && b.len() == 0 {
        crate::num::Rel::Eq
    } else if a.len() == 0 {
        crate::num::Rel::Lt
    } else if b.len() == 0 {
        crate::num::Rel::Gt
    } else if a[0] != b[0] {
        if a[0] < b[0] {
            crate::num::Rel::Lt
        } else {
            crate::num::Rel::Gt
        }
    } else {
        seq_cmp(a.drop_first(), b.drop_first())
    }
}

pub open spec fn seq_lt(a: Seq<char>, b: Seq<char>) -> bool {
    seq_cmp(a, b) == crate::num::Rel::Lt
}

pub proof fn lemma_seq_cmp_eq(a: Seq<char>, b: Seq<char>)
    ensures
        (seq_cmp(a, b) == crate::num::Rel::Eq) <==> (a == b),
    decreases a.len(),
{
    if a.len() == 0 && b.len() == 0 {
        assert(a =~= b);
    } else if a.len() > 0 && b.len() > 0 && a[0] == b[0] {
        lemma_seq_cmp_eq(a.drop_first(), b.drop_first());
        if a.drop_first() == b.drop_first() {
            assert forall|i: int| 0 <= i < a.len() implies a[i] == b[i] by {
                if i > 0 {
                    assert(a.drop_first()[i - 1] == b.drop_first()[i - 1]);
                }
            }
            assert(a =~= b);
        }
        if a == b {
            assert(a.drop_first() =~= b.drop_first());
        }
    } else {
        if a == b {
            assert(a.len() == b.len());
        }
    }
}

pub proof fn lemma_seq_cmp_flip(a: Seq<char>, b: Seq<char>)
    ensures
        seq_cmp(b, a) == crate::num::rel_flip(seq_cmp(a, b)),
    decreases a.len(),
{
    if a.len() == 0 && b.len() == 0 {
    } else if a.len() == 0 {
        assert(seq_cmp(a, b) == crate::num::Rel::Lt);
        assert(seq_cmp(b, a) == crate::num::Rel::Gt);
    } else if b.len() == 0 {
        assert(seq_cmp(a, b) == crate::num::Rel::Gt);
        assert(seq_cmp(b, a) == crate::num::Rel::Lt);
    } else if a[0] == b[0] {
        lemma_seq_cmp_flip(a.drop_first(), b.drop_first());
    }
}

pub proof fn lemma_seq_lt_trans(a: Seq<char>, b: Seq<char>, c: Seq<char>)
    requires
        seq_lt(a, b),
        seq_lt(b, c),
    ensures
        seq_lt(a, c),
    decreases a.len() + b.len() + c.len(),
{
    if b.len() == 0 {
        // seq_lt(b, c) forces c nonempty, and seq_lt(a, b) is impossible
        // unless a is empty too, which contradicts a < b.
    } else if a.len() == 0 {
        assert(c.len() > 0);
    } else {
        assert(c.len() > 0);
        if a[0] == b[0] && b[0] == c[0] {
            lemma_seq_lt_trans(a.drop_first(), b.drop_first(), c.drop_first());
        }
    }
}

/// Lexicographic order on character sequences by code point, the order of
/// `str`'s own comparison.
pub open spec fn seq_le(a: Seq<char>, b: Seq<char>) -> bool
    decreases a.len(),
{
    if a.len() == 0 {
        true
    } else if b.len() == 0 {
        false
    } else if a[0] != b[0] {
        a[0] < b[0]
    } else {
        seq_le(a.drop_first(), b.drop_first())
    }
}

/// Three-way comparison of two character vectors.
pub fn chars_cmp(a: &Vec<char>, b: &Vec<char>) -> (r: crate::num::Rel)
    ensures
        r == seq_cmp(a@, b@),
{
    proof {
        assert(a@.skip(0) =~= a@);
        assert(b@.skip(0) =~= b@);
    }
    let mut i: usize = 0;
    while i < a.len() && i < b.len()
        invariant
            i <= a@.len(),
            i <= b@.len(),
            seq_cmp(a@, b@) == seq_cmp(a@.skip(i as int), b@.skip(i as int)),
        decreases a@.len() - i,
    {
        proof {
            assert(a@.skip(i as int)[0] == a@[i as int]);
            assert(b@.skip(i as int)[0] == b@[i as int]);
            assert(a@.skip(i as int).drop_first() =~= a@.skip(i + 1));
            assert(b@.skip(i as int).drop_first() =~= b@.skip(i + 1));
        }
        let ca = a[i];
        let cb = b[i];
        if ca != cb {
            if ca < cb {
                return crate::num::Rel::Lt;
            }
            return crate::num::Rel::Gt;
        }
        i = i + 1;
    }
    if a.len() == b.len() {
        crate::num::Rel::Eq
    } else if a.len() < b.len() {
        crate::num::Rel::Lt
    } else {
        crate::num::Rel::Gt
    }
}

/// Whether `a` comes at or before `b` in code-point order.
pub fn chars_le(a: &Vec<char>, b: &Vec<char>) -> (r: bool)
    ensures
        r == seq_le(a@, b@),
{
    let n = if a.len() < b.len() {
        a.len()
    } else {
        b.len()
    };
    proof {
        assert(a@.skip(0) =~= a@);
        assert(b@.skip(0) =~= b@);
    }
    let mut i: usize = 0;
    while i < n
        invariant
            i <= n,
            n == if a@.len() < b@.len() {
                a@.len()
            } else {
                b@.len()
            },
            forall|j: int| 0 <= j < i ==> a@[j] == b@[j],
            seq_le(a@, b@) == seq_le(a@.skip(i as int), b@.skip(i as int)),
        decreases n - i,
    {
        if a[i] != b[i] {
            let r = a[i] < b[i];
            proof {
                assert(a@.skip(i as int)[0] == a@[i as int]);
                assert(b@.skip(i as int)[0] == b@[i as int]);
            }
            return r;
        }
        proof {
            assert(a@.skip(i as int).drop_first() =~= a@.skip(i + 1));
            assert(b@.skip(i as int).drop_first() =~= b@.skip(i + 1));
            assert(a@.skip(i as int)[0] == a@[i as int]);
            assert(b@.skip(i as int)[0] == b@[i as int]);
        }
        i = i + 1;
    }
    proof {
        if a@.len() <= b@.len() {
            assert(a@.skip(i as int).len() == 0);
        } else {
            assert(b@.skip(i as int).len() == 0);
            assert(a@.skip(i as int).len() > 0);
        }
    }
    a.len() <= b.len()
}

} // verus!

verus! {

/// Whether `n` occurs as a contiguous run inside `h`.
pub open spec fn seq_contains_sub(h: Seq<char>, n: Seq<char>) -> bool {
    exists|k: int| 0 <= k && k + n.len() <= h.len() && #[trigger] h.subrange(k, k + n.len()) == n
}

/// Substring search.
pub fn contains_sub(h: &Vec<char>, n: &Vec<char>) -> (r: bool)
    ensures
        r == seq_contains_sub(h@, n@),
{
    if n.len() > h.len() {
        return false;
    }
    let hn = h.len();
    proof {
        assert(h@.len() == hn);
    }
    let mut k: usize = 0;
    while k <= h.len() - n.len()
        invariant
            h@.len() == hn,
            n@.len() <= h@.len(),
            k <= h@.len() - n@.len() + 1,
            forall|q: int| 0 <= q < k ==> #[trigger] h@.subrange(q, q + n@.len()) != n@,
        decreases h@.len() - n@.len() + 1 - k,
    {
        let mut j: usize = 0;
        let mut matches_here = true;
        while j < n.len()
            invariant
                h@.len() == hn,
                k + n@.len() <= h@.len(),
                j <= n@.len(),
                matches_here ==> forall|q: int| 0 <= q < j ==> h@[k + q] == n@[q],
                !matches_here ==> h@.subrange(k as int, k + n@.len()) != n@,
            decreases n@.len() - j,
        {
            if h[k + j] != n[j] {
                proof {
                    assert(h@.subrange(k as int, k + n@.len())[j as int] != n@[j as int]);
                }
                matches_here = false;
                j = n.len();
            } else {
                j = j + 1;
            }
        }
        if matches_here {
            proof {
                assert(h@.subrange(k as int, k + n@.len()) =~= n@);
            }
            return true;
        }
        if k == h.len() - n.len() {
            return false;
        }
        k = k + 1;
    }
    false
}

/// The first index at or after `i` that is not white space.
pub open spec fn ws_run_end(s: Seq<char>, i: int) -> int
    decreases s.len() - i,
    when 0 <= i <= s.len()
{
    if i == s.len() {
        i
    } else if is_unicode_space(s[i]) {
        ws_run_end(s, i + 1)
    } else {
        i
    }
}

/// The position after the last non-white-space character at or before `j`.
pub open spec fn ws_back_end(s: Seq<char>, j: int) -> int
    decreases j,
    when 0 <= j <= s.len()
{
    if j == 0 {
        0
    } else if is_unicode_space(s[j - 1]) {
        ws_back_end(s, j - 1)
    } else {
        j
    }
}

/// The characters with leading and trailing white space removed.
pub open spec fn spec_trim(s: Seq<char>) -> Seq<char> {
    if ws_run_end(s, 0) == s.len() {
        Seq::empty()
    } else {
        s.subrange(ws_run_end(s, 0), ws_back_end(s, s.len() as int))
    }
}

proof fn lemma_ws_run_end(s: Seq<char>, i: int)
    requires
        0 <= i <= s.len(),
    ensures
        i <= ws_run_end(s, i) <= s.len(),
        forall|k: int| i <= k < ws_run_end(s, i) ==> is_unicode_space(s[k]),
        ws_run_end(s, i) < s.len() ==> !is_unicode_space(s[ws_run_end(s, i)]),
    decreases s.len() - i,
{
    if i < s.len() && is_unicode_space(s[i]) {
        lemma_ws_run_end(s, i + 1);
    }
}

proof fn lemma_ws_back_end(s: Seq<char>, j: int)
    requires
        0 <= j <= s.len(),
    ensures
        0 <= ws_back_end(s, j) <= j,
        forall|k: int| ws_back_end(s, j) <= k < j ==> is_unicode_space(s[k]),
        ws_back_end(s, j) > 0 ==> !is_unicode_space(s[ws_back_end(s, j) - 1]),
    decreases j,
{
    if j > 0 && is_unicode_space(s[j - 1]) {
        lemma_ws_back_end(s, j - 1);
    }
}

/// Trims white space from both ends.
pub fn trim_chars(s: &Vec<char>) -> (r: Vec<char>)
    ensures
        r@ == spec_trim(s@),
{
    proof {
        lemma_ws_run_end(s@, 0);
        lemma_ws_back_end(s@, s@.len() as int);
    }
    let mut a: usize = 0;
    while a < s.len() && unicode_space(s[a])
        invariant
            a <= s@.len(),
            forall|k: int| 0 <= k < a ==> is_unicode_space(s@[k]),
            ws_run_end(s@, 0) == ws_run_end(s@, a as int),
        decreases s@.len() - a,
    {
        a = a + 1;
    }
    proof {
        assert(ws_run_end(s@, a as int) == a);
    }
    if a == s.len() {
        proof {
            assert(spec_trim(s@) =~= Seq::<char>::empty());
        }
        return Vec::new();
    }
    let mut b: usize = s.len();
    while b > 0 && unicode_space(s[b - 1])
        invariant
            b <= s@.len(),
            forall|k: int| b <= k < s@.len() ==> is_unicode_space(s@[k]),
            ws_back_end(s@, s@.len() as int) == ws_back_end(s@, b as int),
        decreases b,
    {
        b = b - 1;
    }
    proof {
        assert(ws_back_end(s@, b as int) == b);
        assert(a < b);
    }
    let mut out: Vec<char> = Vec::new();
    let mut i: usize = a;
    while i < b
        invariant
            a <= i <= b <= s@.len(),
            out@ =~= s@.subrange(a as int, i as int),
        decreases b - i,
    {
        proof {
            assert(s@.subrange(a as int, i + 1) =~= s@.subrange(a as int, i as int).push(
                s@[i as int],
            ));
        }
        out.push(s[i]);
        i = i + 1;
    }
    proof {
        assert(out@ =~= spec_trim(s@));
    }
    out
}

} // verus!
