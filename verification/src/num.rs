//! Exact decimal numbers.
//!
//! A floating-point value travels through this library as its decimal text
//! (the form serde_json renders it in). This module parses such text into a
//! normalized form — sign, significant digits, order of magnitude — and
//! compares two such forms by their exact numeric value. It also holds the
//! verified integer parsing and formatting that the query parser and the
//! output layer use.

use vstd::prelude::*;

verus! {

/// Outcome of a comparison.
#[derive(Clone, Copy, Debug, PartialEq, Eq, Structural)]
pub enum Rel {
    Lt,
    Eq,
    Gt,
}

pub open spec fn is_digit(c: char) -> bool {
    '0' <= c && c <= '9'
}

pub open spec fn digit_val(c: char) -> u8 {
    ((c as u8) - 48) as u8
}

/// The first index at or after `i` that does not hold a decimal digit.
pub open spec fn digit_run_end(s: Seq<char>, i: int) -> int
    decreases s.len() - i,
    when 0 <= i <= s.len()
{
    if i == s.len() {
        i
    } else if is_digit(s[i]) {
        digit_run_end(s, i + 1)
    } else {
        i
    }
}

pub proof fn lemma_digit_run_end(s: Seq<char>, i: int)
    requires
        0 <= i <= s.len(),
    ensures
        i <= digit_run_end(s, i) <= s.len(),
        forall|k: int| i <= k < digit_run_end(s, i) ==> is_digit(s[k]),
        digit_run_end(s, i) < s.len() ==> !is_digit(s[digit_run_end(s, i)]),
    decreases s.len() - i,
{
    if i < s.len() && is_digit(s[i]) {
        lemma_digit_run_end(s, i + 1);
    }
}

/// The digits of `s` between `i` and `j`, as numeric values.
pub open spec fn digits_of(s: Seq<char>, i: int, j: int) -> Seq<u8> {
    s.subrange(i, j).map(|_k: int, c: char| digit_val(c))
}

/// The integer a digit sequence denotes.
pub open spec fn digits_int(d: Seq<u8>) -> int
    decreases d.len(),
{
    if d.len() == 0 {
        0
    } else {
        digits_int(d.drop_last()) * 10 + d.last()
    }
}

pub open spec fn pow10(n: nat) -> int
    decreases n,
{
    if n == 0 {
        1
    } else {
        10 * pow10((n - 1) as nat)
    }
}

pub open spec fn all_digits_below_ten(d: Seq<u8>) -> bool {
    forall|k: int| 0 <= k < d.len() ==> d[k] < 10
}

pub proof fn lemma_digits_int_bounds(d: Seq<u8>)
    requires
        all_digits_below_ten(d),
    ensures
        0 <= digits_int(d) < pow10(d.len()),
    decreases d.len(),
{
    if d.len() > 0 {
        assert(all_digits_below_ten(d.drop_last()));
        lemma_digits_int_bounds(d.drop_last());
    }
}

pub proof fn lemma_digits_int_append(d: Seq<u8>, x: u8)
    ensures
        digits_int(d.push(x)) == digits_int(d) * 10 + x,
{
    assert(d.push(x).drop_last() =~= d);
}

/// A digit sequence extends only upward: a strictly longer sequence with the
/// same prefix denotes at least ten times the prefix's value.
pub proof fn lemma_digits_int_prefix(d: Seq<u8>, n: int)
    requires
        all_digits_below_ten(d),
        0 <= n <= d.len(),
    ensures
        digits_int(d) >= digits_int(d.take(n)),
    decreases d.len() - n,
{
    if n < d.len() {
        lemma_digits_int_prefix(d, n + 1);
        assert(d.take(n + 1).drop_last() =~= d.take(n));
        assert(digits_int(d.take(n + 1)) == digits_int(d.take(n)) * 10 + d.take(n + 1).last());
        assert(all_digits_below_ten(d.take(n)));
        lemma_digits_int_bounds(d.take(n));
    } else {
        assert(d.take(n) =~= d);
    }
}

/// Finds the end of the digit run starting at `i`.
pub fn digit_run(s: &Vec<char>, i: usize) -> (j: usize)
    requires
        i <= s@.len(),
    ensures
        j == digit_run_end(s@, i as int),
        i <= j <= s@.len(),
        forall|k: int| i <= k < j ==> is_digit(s@[k]),
        j < s@.len() ==> !is_digit(s@[j as int]),
{
    proof {
        lemma_digit_run_end(s@, i as int);
    }
    let mut j = i;
    while j < s.len() && s[j] >= '0' && s[j] <= '9'
        invariant
            i <= j <= s@.len(),
            forall|k: int| i <= k < j ==> is_digit(s@[k]),
            digit_run_end(s@, i as int) == digit_run_end(s@, j as int),
        decreases s@.len() - j,
    {
        j = j + 1;
    }
    j
}

/// A normalized decimal: `neg` only on a nonzero value; significant digits
/// without leading or trailing zeros (empty for zero); the leading digit
/// carries the weight `10^(mag - 1)`.
pub ghost struct DecNorm {
    pub neg: bool,
    pub digits: Seq<u8>,
    pub mag: int,
}

pub open spec fn dec_wf(d: DecNorm) -> bool {
    &&& all_digits_below_ten(d.digits)
    &&& (d.digits.len() > 0 ==> d.digits[0] != 0 && d.digits.last() != 0)
    &&& (d.digits.len() == 0 ==> !d.neg && d.mag == 0)
}

pub open spec fn strip_leading(d: Seq<u8>) -> Seq<u8>
    decreases d.len(),
{
    if d.len() > 0 && d[0] == 0 {
        strip_leading(d.drop_first())
    } else {
        d
    }
}

pub open spec fn strip_trailing(d: Seq<u8>) -> Seq<u8>
    decreases d.len(),
{
    if d.len() > 0 && d.last() == 0 {
        strip_trailing(d.drop_last())
    } else {
        d
    }
}

pub proof fn lemma_strip_leading_is_skip(d: Seq<u8>, n: int)
    requires
        0 <= n <= d.len(),
        forall|k: int| 0 <= k < n ==> d[k] == 0,
        n < d.len() ==> d[n] != 0,
    ensures
        strip_leading(d) =~= d.skip(n),
    decreases n,
{
    if n == 0 {
        assert(d.skip(0) =~= d);
    } else {
        assert(d[0] == 0);
        assert(d.drop_first() =~= d.skip(1));
        lemma_strip_leading_is_skip(d.skip(1), n - 1);
        assert(d.skip(1).skip(n - 1) =~= d.skip(n));
    }
}

pub proof fn lemma_strip_trailing_is_take(d: Seq<u8>, n: int)
    requires
        0 <= n <= d.len(),
        forall|k: int| n <= k < d.len() ==> d[k] == 0,
        n > 0 ==> d[n - 1] != 0,
    ensures
        strip_trailing(d) =~= d.take(n),
    decreases d.len() - n,
{
    if n == d.len() {
        assert(d.take(n) =~= d);
    } else {
        assert(d.last() == 0);
        assert(d.drop_last() =~= d.take(d.len() - 1));
        lemma_strip_trailing_is_take(d.take(d.len() - 1), n);
        assert(d.take(d.len() - 1).take(n) =~= d.take(n));
    }
}

/// Normalizes raw digits with exponent `exp10` (value = digits × 10^exp10).
pub open spec fn spec_normalize(neg: bool, d: Seq<u8>, exp10: int) -> DecNorm {
    let led = strip_leading(d);
    let core = strip_trailing(led);
    if core.len() == 0 {
        DecNorm { neg: false, digits: Seq::empty(), mag: 0 }
    } else {
        DecNorm { neg, digits: core, mag: exp10 + led.len() }
    }
}

/// The parse of a decimal literal: optional sign, digits, optional fraction,
/// optional exponent of at most nine digits. The result is the sign, the raw
/// significant digits, and the power of ten the digits are scaled by.
pub open spec fn spec_parse_dec(s: Seq<char>) -> Option<(bool, Seq<u8>, int)> {
    if s.len() == 0 {
        None
    } else {
        let neg = s[0] == '-';
        let i0: int = if s[0] == '-' || s[0] == '+' {
            1
        } else {
            0
        };
        let i1 = digit_run_end(s, i0);
        if i1 == i0 {
            None
        } else {
            let has_frac = i1 < s.len() && s[i1] == '.';
            let i2 = if has_frac {
                digit_run_end(s, i1 + 1)
            } else {
                i1
            };
            if has_frac && i2 == i1 + 1 {
                None
            } else {
                let frac_len: int = if has_frac {
                    i2 - (i1 + 1)
                } else {
                    0
                };
                let digits = if has_frac {
                    digits_of(s, i0, i1) + digits_of(s, i1 + 1, i2)
                } else {
                    digits_of(s, i0, i1)
                };
                let has_exp = i2 < s.len() && (s[i2] == 'e' || s[i2] == 'E');
                if has_exp {
                    let eneg = i2 + 1 < s.len() && s[i2 + 1] == '-';
                    let k0: int = if i2 + 1 < s.len() && (s[i2 + 1] == '-' || s[i2 + 1] == '+') {
                        i2 + 2
                    } else {
                        i2 + 1
                    };
                    let k1 = digit_run_end(s, k0);
                    if k1 == k0 || k1 - k0 > 9 || k1 != s.len() {
                        None
                    } else {
                        let e = digits_int(digits_of(s, k0, k1));
                        let exp: int = if eneg {
                            -e
                        } else {
                            e
                        };
                        Some((neg, digits, exp - frac_len))
                    }
                } else if i2 != s.len() {
                    None
                } else {
                    Some((neg, digits, -frac_len))
                }
            }
        }
    }
}

/// The normalized decimal a literal denotes, when it parses.
pub open spec fn spec_dec_of_chars(s: Seq<char>) -> Option<DecNorm> {
    match spec_parse_dec(s) {
        None => None,
        Some((neg, d, exp10)) => Some(spec_normalize(neg, d, exp10)),
    }
}

/// Digit-by-digit comparison of two normalized significant-digit sequences
/// whose leading digits carry equal weight. A sequence that runs out first
/// denotes the smaller magnitude, because the other still ends in a nonzero
/// digit.
pub open spec fn lex_digits(x: Seq<u8>, y: Seq<u8>) -> Rel
    decreases x.len(),
{
    if x.len() == 0 && y.len() == 0 {
        Rel::Eq
    } else if x.len() == 0 {
        Rel::Lt
    } else if y.len() == 0 {
        Rel::Gt
    } else if x[0] != y[0] {
        if x[0] < y[0] {
            Rel::Lt
        } else {
            Rel::Gt
        }
    } else {
        lex_digits(x.drop_first(), y.drop_first())
    }
}

pub open spec fn rel_flip(r: Rel) -> Rel {
    match r {
        Rel::Lt => Rel::Gt,
        Rel::Eq => Rel::Eq,
        Rel::Gt => Rel::Lt,
    }
}

/// Compares the magnitudes of two nonzero normalized decimals.
pub open spec fn dec_cmp_mag(a: DecNorm, b: DecNorm) -> Rel {
    if a.mag < b.mag {
        Rel::Lt
    } else if a.mag > b.mag {
        Rel::Gt
    } else {
        lex_digits(a.digits, b.digits)
    }
}

/// Compares two normalized decimals by their exact numeric value.
pub open spec fn dec_cmp(a: DecNorm, b: DecNorm) -> Rel {
    if a.digits.len() == 0 && b.digits.len() == 0 {
        Rel::Eq
    } else if a.digits.len() == 0 {
        if b.neg {
            Rel::Gt
        } else {
            Rel::Lt
        }
    } else if b.digits.len() == 0 {
        if a.neg {
            Rel::Lt
        } else {
            Rel::Gt
        }
    } else if a.neg != b.neg {
        if a.neg {
            Rel::Lt
        } else {
            Rel::Gt
        }
    } else if a.neg {
        rel_flip(dec_cmp_mag(a, b))
    } else {
        dec_cmp_mag(a, b)
    }
}

/// The digits of a positive integer, most significant first.
pub open spec fn digits_of_nat(n: nat) -> Seq<u8>
    decreases n,
{
    if n < 10 {
        seq![n as u8]
    } else {
        digits_of_nat(n / 10).push((n % 10) as u8)
    }
}

/// The normalized decimal of an integer.
pub open spec fn dec_of_int(i: int) -> DecNorm {
    if i == 0 {
        DecNorm { neg: false, digits: Seq::empty(), mag: 0 }
    } else {
        let m = if i < 0 {
            -i
        } else {
            i
        };
        let d = digits_of_nat(m as nat);
        DecNorm { neg: i < 0, digits: strip_trailing(d), mag: d.len() as int }
    }
}

/// A decimal value in executable form. `mag` and `digits` are as in
/// [`DecNorm`].
#[derive(Debug)]
pub struct Dec {
    pub neg: bool,
    pub digits: Vec<u8>,
    pub mag: i128,
}

impl Dec {
    pub open spec fn dnorm(&self) -> DecNorm {
        DecNorm { neg: self.neg, digits: self.digits@, mag: self.mag as int }
    }
}

/// Parses a decimal literal into its normalized exact value. Returns `None`
/// exactly when the text does not match the literal grammar.
#[verifier::rlimit(60)]
pub fn parse_dec(s: &Vec<char>) -> (r: Option<Dec>)
    ensures
        match r {
            Some(d) => spec_dec_of_chars(s@) == Some(d.dnorm()) && dec_wf(d.dnorm()),
            None => spec_dec_of_chars(s@) is None,
        },
{
    let n = s.len();
    if n == 0 {
        return None;
    }
    let neg = s[0] == '-';
    let i0: usize = if s[0] == '-' || s[0] == '+' {
        1
    } else {
        0
    };
    let i1 = digit_run(s, i0);
    if i1 == i0 {
        return None;
    }
    let has_frac = i1 < n && s[i1] == '.';
    let i2: usize = if has_frac {
        digit_run(s, i1 + 1)
    } else {
        i1
    };
    if has_frac && i2 == i1 + 1 {
        return None;
    }
    let frac_len: usize = if has_frac {
        i2 - (i1 + 1)
    } else {
        0
    };
    let exp_val: i64;
    if i2 < n && (s[i2] == 'e' || s[i2] == 'E') {
        let eneg = i2 + 1 < n && s[i2 + 1] == '-';
        let k0: usize = if i2 + 1 < n && (s[i2 + 1] == '-' || s[i2 + 1] == '+') {
            i2 + 2
        } else {
            i2 + 1
        };
        let k1 = digit_run(s, k0);
        if k1 == k0 || k1 - k0 > 9 || k1 != n {
            return None;
        }
        let e = small_digits_value(s, k0, k1);
        exp_val = if eneg {
            -e
        } else {
            e
        };
    } else if i2 != n {
        return None;
    } else {
        exp_val = 0;
    }
    // Gather the significant digits.
    let mut raw: Vec<u8> = collect_digits(s, i0, i1);
    if has_frac {
        let frac = collect_digits(s, i1 + 1, i2);
        let ghost pre = raw@;
        let mut fi: usize = 0;
        while fi < frac.len()
            invariant
                fi <= frac@.len(),
                raw@ =~= pre + frac@.take(fi as int),
            decreases frac@.len() - fi,
        {
            raw.push(frac[fi]);
            fi = fi + 1;
        }
        proof {
            assert(raw@ =~= pre + frac@);
        }
    }
    let exp10: i128 = (exp_val as i128) - (frac_len as i128);
    Some(normalize_dec(neg, raw, exp10))
}

/// The value of a short all-digit span, as an exponent.
fn small_digits_value(s: &Vec<char>, i: usize, j: usize) -> (v: i64)
    requires
        0 <= i <= j <= s@.len(),
        j - i <= 9,
        forall|k: int| i <= k < j ==> is_digit(s@[k]),
    ensures
        v == digits_int(digits_of(s@, i as int, j as int)),
        0 <= v < 1000000000,
{
    proof {
        lemma_digits_int_bounds(digits_of(s@, i as int, j as int));
    }
    let mut v: i64 = 0;
    let mut k = i;
    while k < j
        invariant
            i <= k <= j <= s@.len(),
            j - i <= 9,
            forall|q: int| i <= q < j ==> is_digit(s@[q]),
            v == digits_int(digits_of(s@, i as int, k as int)),
            0 <= v < pow10((k - i) as nat),
        decreases j - k,
    {
        proof {
            lemma_digits_int_append(digits_of(s@, i as int, k as int), digit_val(s@[k as int]));
            assert(digits_of(s@, i as int, k + 1) =~= digits_of(s@, i as int, k as int).push(
                digit_val(s@[k as int]),
            ));
            assert(all_digits_below_ten(digits_of(s@, i as int, k + 1)));
            lemma_digits_int_bounds(digits_of(s@, i as int, k + 1));
            assert(pow10(((k + 1) - i) as nat) <= pow10(9)) by {
                lemma_pow10_increases(((k + 1) - i) as nat, 9);
            }
            assert(pow10(9) == 1000000000) by {
                reveal_with_fuel(pow10, 11);
            }
        }
        v = v * 10 + ((s[k] as u8) - 48) as i64;
        k = k + 1;
    }
    proof {
        assert(pow10((j - i) as nat) <= 1000000000) by {
            lemma_pow10_increases((j - i) as nat, 9);
            reveal_with_fuel(pow10, 11);
        }
    }
    v
}

pub proof fn lemma_pow10_increases(a: nat, b: nat)
    requires
        a <= b,
    ensures
        pow10(a) <= pow10(b),
        pow10(a) >= 1,
    decreases b,
{
    if b > 0 {
        if a == b {
            lemma_pow10_increases((a - 1) as nat, (b - 1) as nat);
        } else {
            lemma_pow10_increases(a, (b - 1) as nat);
        }
    }
}

/// Copies the digit values of the span `[i, j)`.
fn collect_digits(s: &Vec<char>, i: usize, j: usize) -> (d: Vec<u8>)
    requires
        0 <= i <= j <= s@.len(),
        forall|k: int| i <= k < j ==> is_digit(s@[k]),
    ensures
        d@ =~= digits_of(s@, i as int, j as int),
        all_digits_below_ten(d@),
{
    let mut d: Vec<u8> = Vec::new();
    let mut k = i;
    while k < j
        invariant
            i <= k <= j <= s@.len(),
            forall|q: int| i <= q < j ==> is_digit(s@[q]),
            d@ =~= digits_of(s@, i as int, k as int),
        decreases j - k,
    {
        proof {
            assert(digits_of(s@, i as int, k + 1) =~= digits_of(s@, i as int, k as int).push(
                digit_val(s@[k as int]),
            ));
        }
        d.push((s[k] as u8) - 48);
        k = k + 1;
    }
    d
}

/// Strips leading and trailing zero digits and fixes the magnitude.
fn normalize_dec(neg: bool, d: Vec<u8>, exp10: i128) -> (r: Dec)
    requires
        all_digits_below_ten(d@),
        d@.len() <= 0xffff_ffff_ffff_ffffu64,
        -0x2_0000_0000_0000_0000 <= exp10 <= 0x2_0000_0000_0000_0000,
    ensures
        r.dnorm() == spec_normalize(neg, d@, exp10 as int),
        dec_wf(r.dnorm()),
{
    let mut led: usize = 0;
    while led < d.len() && d[led] == 0
        invariant
            led <= d@.len(),
            forall|k: int| 0 <= k < led ==> d@[k] == 0,
        decreases d@.len() - led,
    {
        led = led + 1;
    }
    proof {
        lemma_strip_leading_is_skip(d@, led as int);
    }
    let mut end: usize = d.len();
    while end > led && d[end - 1] == 0
        invariant
            led <= end <= d@.len(),
            forall|k: int| end <= k < d@.len() ==> d@[k] == 0,
        decreases end,
    {
        end = end - 1;
    }
    proof {
        lemma_strip_trailing_is_take(d@.skip(led as int), end - led);
        assert(d@.skip(led as int).take(end - led) =~= d@.subrange(led as int, end as int));
    }
    if end == led {
        Dec { neg: false, digits: Vec::new(), mag: 0 }
    } else {
        let mut core: Vec<u8> = Vec::new();
        let mut k = led;
        while k < end
            invariant
                led <= k <= end <= d@.len(),
                core@ =~= d@.subrange(led as int, k as int),
            decreases end - k,
        {
            proof {
                assert(d@.subrange(led as int, k + 1) =~= d@.subrange(led as int, k as int).push(
                    d@[k as int],
                ));
            }
            core.push(d[k]);
            k = k + 1;
        }
        let mag: i128 = exp10 + (d.len() - led) as i128;
        Dec { neg, digits: core, mag }
    }
}

/// Compares two normalized decimals by exact numeric value.
pub fn dec_compare(a: &Dec, b: &Dec) -> (r: Rel)
    ensures
        r == dec_cmp(a.dnorm(), b.dnorm()),
{
    if a.digits.len() == 0 && b.digits.len() == 0 {
        Rel::Eq
    } else if a.digits.len() == 0 {
        if b.neg {
            Rel::Gt
        } else {
            Rel::Lt
        }
    } else if b.digits.len() == 0 {
        if a.neg {
            Rel::Lt
        } else {
            Rel::Gt
        }
    } else if a.neg != b.neg {
        if a.neg {
            Rel::Lt
        } else {
            Rel::Gt
        }
    } else {
        let m = dec_compare_mag(a, b);
        if a.neg {
            match m {
                Rel::Lt => Rel::Gt,
                Rel::Eq => Rel::Eq,
                Rel::Gt => Rel::Lt,
            }
        } else {
            m
        }
    }
}

fn dec_compare_mag(a: &Dec, b: &Dec) -> (r: Rel)
    ensures
        r == dec_cmp_mag(a.dnorm(), b.dnorm()),
{
    if a.mag < b.mag {
        Rel::Lt
    } else if a.mag > b.mag {
        Rel::Gt
    } else {
        lex_compare(&a.digits, &b.digits)
    }
}

fn lex_compare(x: &Vec<u8>, y: &Vec<u8>) -> (r: Rel)
    ensures
        r == lex_digits(x@, y@),
{
    proof {
        assert(x@.skip(0) =~= x@);
        assert(y@.skip(0) =~= y@);
    }
    let mut i: usize = 0;
    while i < x.len() && i < y.len()
        invariant
            i <= x@.len(),
            i <= y@.len(),
            lex_digits(x@, y@) == lex_digits(x@.skip(i as int), y@.skip(i as int)),
        decreases x@.len() - i,
    {
        proof {
            assert(x@.skip(i as int)[0] == x@[i as int]);
            assert(y@.skip(i as int)[0] == y@[i as int]);
            assert(x@.skip(i as int).drop_first() =~= x@.skip(i + 1));
            assert(y@.skip(i as int).drop_first() =~= y@.skip(i + 1));
        }
        if x[i] < y[i] {
            return Rel::Lt;
        }
        if x[i] > y[i] {
            return Rel::Gt;
        }
        i = i + 1;
    }
    if x.len() == y.len() {
        Rel::Eq
    } else if x.len() < y.len() {
        Rel::Lt
    } else {
        Rel::Gt
    }
}

/// The normalized decimal of a machine integer.
pub fn dec_of_i128(i: i128) -> (r: Dec)
    ensures
        r.dnorm() == dec_of_int(i as int),
        dec_wf(r.dnorm()),
{
    if i == 0 {
        return Dec { neg: false, digits: Vec::new(), mag: 0 };
    }
    let neg = i < 0;
    let m: u128 = if i < 0 {
        if i == i128::MIN {
            0x8000_0000_0000_0000_0000_0000_0000_0000u128
        } else {
            (-i) as u128
        }
    } else {
        i as u128
    };
    let mut d: Vec<u8> = Vec::new();
    push_nat_digits(m, &mut d);
    let mag: i128 = d.len() as i128;
    let mut end: usize = d.len();
    while end > 0 && d[end - 1] == 0
        invariant
            end <= d@.len(),
            forall|k: int| end <= k < d@.len() ==> d@[k] == 0,
        decreases end,
    {
        end = end - 1;
    }
    proof {
        lemma_digits_of_nat_below_ten(m as nat);
        lemma_digits_of_nat_leading(m as nat);
        lemma_strip_trailing_is_take(d@, end as int);
    }
    let mut core: Vec<u8> = Vec::new();
    let mut k: usize = 0;
    while k < end
        invariant
            k <= end <= d@.len(),
            core@ =~= d@.take(k as int),
        decreases end - k,
    {
        proof {
            assert(d@.take(k + 1) =~= d@.take(k as int).push(d@[k as int]));
        }
        core.push(d[k]);
        k = k + 1;
    }
    Dec { neg, digits: core, mag }
}

pub proof fn lemma_digits_of_nat_below_ten(n: nat)
    ensures
        all_digits_below_ten(digits_of_nat(n)),
        digits_of_nat(n).len() >= 1,
    decreases n,
{
    if n >= 10 {
        lemma_digits_of_nat_below_ten(n / 10);
    }
}

pub proof fn lemma_digits_of_nat_leading(n: nat)
    requires
        n > 0,
    ensures
        digits_of_nat(n)[0] != 0,
    decreases n,
{
    if n >= 10 {
        lemma_digits_of_nat_leading(n / 10);
    }
}

/// Writes the decimal digits of `n`, most significant first.
pub fn push_nat_digits(n: u128, out: &mut Vec<u8>)
    ensures
        final(out)@ == old(out)@ + digits_of_nat(n as nat),
    decreases n,
{
    if n < 10 {
        out.push(n as u8);
        proof {
            assert(out@ =~= old(out)@ + digits_of_nat(n as nat));
        }
    } else {
        push_nat_digits(n / 10, out);
        out.push((n % 10) as u8);
        proof {
            assert(out@ =~= old(out)@ + digits_of_nat(n as nat));
        }
    }
}

pub open spec fn digit_char(d: u8) -> char {
    if d == 0 {
        '0'
    } else if d == 1 {
        '1'
    } else if d == 2 {
        '2'
    } else if d == 3 {
        '3'
    } else if d == 4 {
        '4'
    } else if d == 5 {
        '5'
    } else if d == 6 {
        '6'
    } else if d == 7 {
        '7'
    } else if d == 8 {
        '8'
    } else {
        '9'
    }
}

/// The decimal text of a nonnegative integer.
pub open spec fn nat_chars(n: nat) -> Seq<char> {
    digits_of_nat(n).map(|_i: int, d: u8| digit_char(d))
}

/// The decimal text of an integer.
pub open spec fn int_chars(i: int) -> Seq<char> {
    if i < 0 {
        seq!['-'] + nat_chars((-i) as nat)
    } else {
        nat_chars(i as nat)
    }
}

fn digit_to_char(d: u8) -> (c: char)
    requires
        d < 10,
    ensures
        c == digit_char(d),
{
    if d == 0 {
        '0'
    } else if d == 1 {
        '1'
    } else if d == 2 {
        '2'
    } else if d == 3 {
        '3'
    } else if d == 4 {
        '4'
    } else if d == 5 {
        '5'
    } else if d == 6 {
        '6'
    } else if d == 7 {
        '7'
    } else if d == 8 {
        '8'
    } else {
        '9'
    }
}

/// Appends the decimal text of `n`.
pub fn push_u128_chars(n: u128, out: &mut Vec<char>)
    ensures
        final(out)@ == old(out)@ + nat_chars(n as nat),
    decreases n,
{
    if n < 10 {
        proof {
            lemma_digits_of_nat_below_ten(n as nat);
        }
        out.push(digit_to_char(n as u8));
        proof {
            assert(out@ =~= old(out)@ + nat_chars(n as nat));
        }
    } else {
        push_u128_chars(n / 10, out);
        proof {
            lemma_digits_of_nat_below_ten(n as nat);
        }
        out.push(digit_to_char((n % 10) as u8));
        proof {
            assert(digits_of_nat(n as nat).map(|_i: int, d: u8| digit_char(d)) =~= digits_of_nat(
                (n / 10) as nat,
            ).map(|_i: int, d: u8| digit_char(d)).push(digit_char((n % 10) as u8)));
            assert(out@ =~= old(out)@ + nat_chars(n as nat));
        }
    }
}

/// Appends the decimal text of `i`.
pub fn push_i128_chars(i: i128, out: &mut Vec<char>)
    ensures
        final(out)@ == old(out)@ + int_chars(i as int),
{
    if i < 0 {
        let m: u128 = if i == i128::MIN {
            0x8000_0000_0000_0000_0000_0000_0000_0000u128
        } else {
            (-i) as u128
        };
        out.push('-');
        push_u128_chars(m, out);
        proof {
            assert(out@ =~= old(out)@ + int_chars(i as int));
        }
    } else {
        push_u128_chars(i as u128, out);
    }
}

/// The integer value a token denotes under the unsigned grammar: an optional
/// `+`, then digits only; `None` on malformed text or a value above `u64`'s
/// range.
pub open spec fn spec_parse_u64(s: Seq<char>) -> Option<u64> {
    if s.len() == 0 {
        None
    } else {
        let i0: int = if s[0] == '+' {
            1
        } else {
            0
        };
        if digit_run_end(s, i0) != s.len() || s.len() == i0 {
            None
        } else {
            let v = digits_int(digits_of(s, i0, s.len() as int));
            if v <= u64::MAX {
                Some(v as u64)
            } else {
                None
            }
        }
    }
}

/// The integer value a token denotes under the signed grammar: an optional
/// sign, then digits only; `None` on malformed text or a value outside
/// `i64`'s range.
pub open spec fn spec_parse_i64(s: Seq<char>) -> Option<i64> {
    if s.len() == 0 {
        None
    } else {
        let neg = s[0] == '-';
        let i0: int = if s[0] == '-' || s[0] == '+' {
            1
        } else {
            0
        };
        if digit_run_end(s, i0) != s.len() || s.len() == i0 {
            None
        } else {
            let m = digits_int(digits_of(s, i0, s.len() as int));
            let v: int = if neg {
                -m
            } else {
                m
            };
            if i64::MIN <= v <= i64::MAX {
                Some(v as i64)
            } else {
                None
            }
        }
    }
}

/// Parses an unsigned integer token.
pub fn parse_u64_chars(s: &Vec<char>) -> (r: Option<u64>)
    ensures
        r == spec_parse_u64(s@),
{
    let n = s.len();
    if n == 0 {
        return None;
    }
    let i0: usize = if s[0] == '+' {
        1
    } else {
        0
    };
    if digit_run(s, i0) != n || n == i0 {
        return None;
    }
    proof {
        lemma_digit_run_end(s@, i0 as int);
    }
    match digits_value_u128(s, i0, n) {
        Some(v) if v <= u64::MAX as u128 => Some(v as u64),
        _ => None,
    }
}

/// Parses a signed integer token.
pub fn parse_i64_chars(s: &Vec<char>) -> (r: Option<i64>)
    ensures
        r == spec_parse_i64(s@),
{
    let n = s.len();
    if n == 0 {
        return None;
    }
    let neg = s[0] == '-';
    let i0: usize = if s[0] == '-' || s[0] == '+' {
        1
    } else {
        0
    };
    if digit_run(s, i0) != n || n == i0 {
        return None;
    }
    proof {
        lemma_digit_run_end(s@, i0 as int);
    }
    match digits_value_u128(s, i0, n) {
        Some(m) => {
            if neg {
                if m <= 0x8000_0000_0000_0000u128 {
                    Some((-(m as i128)) as i64)
                } else {
                    None
                }
            } else {
                if m <= i64::MAX as u128 {
                    Some(m as i64)
                } else {
                    None
                }
            }
        },
        None => None,
    }
}

/// The value of a digit span, or `None` when it exceeds `u64::MAX` tenfold;
/// values at or under `u64::MAX * 10 + 9` are returned exactly.
fn digits_value_u128(s: &Vec<char>, i: usize, j: usize) -> (r: Option<u128>)
    requires
        0 <= i <= j <= s@.len(),
        forall|k: int| i <= k < j ==> is_digit(s@[k]),
    ensures
        match r {
            Some(v) => v == digits_int(digits_of(s@, i as int, j as int)),
            None => digits_int(digits_of(s@, i as int, j as int)) > u64::MAX,
        },
{
    let mut v: u128 = 0;
    let mut k = i;
    while k < j
        invariant
            i <= k <= j <= s@.len(),
            forall|q: int| i <= q < j ==> is_digit(s@[q]),
            v == digits_int(digits_of(s@, i as int, k as int)),
            v <= 0xffff_ffff_ffff_ffffu128,
        decreases j - k,
    {
        proof {
            lemma_digits_int_append(digits_of(s@, i as int, k as int), digit_val(s@[k as int]));
            assert(digits_of(s@, i as int, k + 1) =~= digits_of(s@, i as int, k as int).push(
                digit_val(s@[k as int]),
            ));
        }
        v = v * 10 + ((s[k] as u8) - 48) as u128;
        if v > 0xffff_ffff_ffff_ffffu128 {
            proof {
                assert(all_digits_below_ten(digits_of(s@, i as int, j as int)));
                assert(digits_of(s@, i as int, j as int).take(k + 1 - i) =~= digits_of(
                    s@,
                    i as int,
                    k + 1,
                ));
                lemma_digits_int_prefix(digits_of(s@, i as int, j as int), k + 1 - i);
            }
            return None;
        }
        k = k + 1;
    }
    proof {
        assert(digits_of(s@, i as int, j as int) =~= digits_of(s@, i as int, k as int));
    }
    Some(v)
}

} // verus!
