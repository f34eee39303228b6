//! Decimal rendering and parsing of integers, with proofs that parsing
//! inverts rendering. Used by the session codecs and the argument parser.
use vstd::prelude::*;

verus! {

/// True when `c` is an ASCII decimal digit.
pub open spec fn is_digit_char(c: char) -> bool {
    '0' <= c && c <= '9'
}

/// The digit character for a value in `0..10`.
pub open spec fn digit_char_of(d: int) -> char {
    if d == 0 {
        '0'
    } else if d == 1 {
        '1'
    } else if d == 2 {
        '2'
    } else if d == 3 {
        '3'
    } else if d == 4 {
        '4'
    } else if d == 5 {
        '5'
    } else if d == 6 {
        '6'
    } else if d == 7 {
        '7'
    } else if d == 8 {
        '8'
    } else {
        '9'
    }
}

/// Numeric value of a digit character.
pub open spec fn digit_val_of(c: char) -> int {
    c as int - '0' as int
}

/// The decimal digits of `n`, most significant first.
pub open spec fn dec_digits(n: nat) -> Seq<char>
    decreases n,
{
    if n < 10 {
        seq![digit_char_of(n as int)]
    } else {
        dec_digits(n / 10).push(digit_char_of((n % 10) as int))
    }
}

/// The rendering of a signed integer: a minus sign for negatives, then digits.
pub open spec fn dec_int(n: int) -> Seq<char> {
    if n < 0 {
        seq!['-'] + dec_digits((-n) as nat)
    } else {
        dec_digits(n as nat)
    }
}

/// The value of a sequence of digit characters, most significant first.
pub open spec fn dec_val(s: Seq<char>) -> int
    decreases s.len(),
{
    if s.len() == 0 {
        0
    } else {
        dec_val(s.drop_last()) * 10 + digit_val_of(s.last())
    }
}

pub proof fn lemma_dec_digits(n: nat)
    ensures
        dec_digits(n).len() >= 1,
        forall|j: int| 0 <= j < dec_digits(n).len() ==> is_digit_char(#[trigger] dec_digits(n)[j]),
        dec_val(dec_digits(n)) == n,
    decreases n,
{
    if n < 10 {
        assert(dec_digits(n) =~= seq![digit_char_of(n as int)]);
        assert(dec_val(dec_digits(n)) == dec_val(dec_digits(n).drop_last()) * 10 + digit_val_of(
            digit_char_of(n as int),
        ));
        assert(dec_digits(n).drop_last() =~= Seq::<char>::empty());
    } else {
        lemma_dec_digits(n / 10);
        let s = dec_digits(n);
        assert(s.drop_last() =~= dec_digits(n / 10));
        assert(s.last() == digit_char_of((n % 10) as int));
        assert(dec_val(s) == (n / 10) * 10 + (n % 10));
    }
}

/// Digits are non-negative, so a digit string's value dominates any prefix's.
pub proof fn lemma_dec_val_prefix(s: Seq<char>, k: int)
    requires
        0 <= k <= s.len(),
        forall|j: int| 0 <= j < s.len() ==> is_digit_char(#[trigger] s[j]),
    ensures
        dec_val(s) >= dec_val(s.subrange(0, k)),
        dec_val(s) >= 0,
    decreases s.len() - k,
{
    if k == s.len() {
        assert(s.subrange(0, k) =~= s);
        lemma_dec_val_nonneg(s);
    } else {
        lemma_dec_val_prefix(s, k + 1);
        let p1 = s.subrange(0, k + 1);
        let p0 = s.subrange(0, k);
        assert(p1.drop_last() =~= p0);
        lemma_dec_val_nonneg(p0);
        assert(dec_val(p1) == dec_val(p0) * 10 + digit_val_of(p1.last()));
        assert(digit_val_of(p1.last()) >= 0);
    }
}

pub proof fn lemma_dec_val_nonneg(s: Seq<char>)
    requires
        forall|j: int| 0 <= j < s.len() ==> is_digit_char(#[trigger] s[j]),
    ensures
        dec_val(s) >= 0,
    decreases s.len(),
{
    if s.len() > 0 {
        assert(forall|j: int|
            0 <= j < s.drop_last().len() ==> is_digit_char(#[trigger] s.drop_last()[j]));
        lemma_dec_val_nonneg(s.drop_last());
    }
}

pub proof fn lemma_mul10_gt(a: int, d: int, m: int)
    by (nonlinear_arith)
    requires
        a > (m - d) / 10,
        0 <= d < 10,
        0 <= a,
        0 <= m,
    ensures
        a * 10 + d > m,
{
}

pub proof fn lemma_mul10_le(a: int, d: int, m: int)
    by (nonlinear_arith)
    requires
        a <= (m - d) / 10,
        0 <= d < 10,
        0 <= a,
        0 <= m,
    ensures
        a * 10 + d <= m,
{
}

proof fn lemma_mul10_ge(a: int)
    by (nonlinear_arith)
    requires
        a > 0,
    ensures
        a * 10 >= a,
{
}

pub fn is_digit(c: char) -> (r: bool)
    ensures
        r == is_digit_char(c),
{
    '0' <= c && c <= '9'
}

fn digit_char(d: u64) -> (c: char)
    requires
        d < 10,
    ensures
        c == digit_char_of(d as int),
{
    if d == 0 {
        '0'
    } else if d == 1 {
        '1'
    } else if d == 2 {
        '2'
    } else if d == 3 {
        '3'
    } else if d == 4 {
        '4'
    } else if d == 5 {
        '5'
    } else if d == 6 {
        '6'
    } else if d == 7 {
        '7'
    } else if d == 8 {
        '8'
    } else {
        '9'
    }
}

/// Appends the decimal digits of `n` to `out`.
pub fn push_dec_u64(out: &mut Vec<char>, n: u64)
    ensures
        final(out)@ == old(out)@ + dec_digits(n as nat),
    decreases n,
{
    if n < 10 {
        out.push(digit_char(n));
        assert(final(out)@ =~= old(out)@ + dec_digits(n as nat));
    } else {
        push_dec_u64(out, n / 10);
        out.push(digit_char(n % 10));
        assert(final(out)@ =~= old(out)@ + dec_digits(n as nat));
    }
}

/// Appends the decimal rendering of a signed integer to `out`.
pub fn push_dec_i64(out: &mut Vec<char>, n: i64)
    ensures
        final(out)@ == old(out)@ + dec_int(n as int),
{
    if n < 0 {
        out.push('-');
        let m: u64 = ((-(n + 1)) as u64) + 1;
        assert(m as nat == (-(n as int)) as nat);
        push_dec_u64(out, m);
        assert(final(out)@ =~= old(out)@ + dec_int(n as int));
    } else {
        push_dec_u64(out, n as u64);
    }
}

/// First index at or after `i` holding a non-digit character, or `s.len()`.
pub open spec fn digits_end(s: Seq<char>, i: int) -> int
    decreases s.len() - i,
{
    if i < 0 || i >= s.len() {
        i
    } else if is_digit_char(s[i]) {
        digits_end(s, i + 1)
    } else {
        i
    }
}

pub proof fn lemma_digits_end(s: Seq<char>, i: int)
    requires
        0 <= i <= s.len(),
    ensures
        i <= digits_end(s, i) <= s.len(),
        forall|j: int| i <= j < digits_end(s, i) ==> is_digit_char(#[trigger] s[j]),
        digits_end(s, i) < s.len() ==> !is_digit_char(s[digits_end(s, i)]),
    decreases s.len() - i,
{
    if i < s.len() && is_digit_char(s[i]) {
        lemma_digits_end(s, i + 1);
    }
}

/// If the characters from `i` to `e` are exactly digits, with a non-digit (or
/// the end) at `e`, then the maximal digit run starting at `i` ends at `e`.
pub proof fn lemma_digits_end_match(s: Seq<char>, i: int, e: int)
    requires
        0 <= i <= e <= s.len(),
        forall|j: int| i <= j < e ==> is_digit_char(#[trigger] s[j]),
        e < s.len() ==> !is_digit_char(s[e]),
    ensures
        digits_end(s, i) == e,
    decreases e - i,
{
    if i < e {
        lemma_digits_end_match(s, i + 1, e);
    }
}

/// The parse of a signed decimal integer at index `i`: its value and the
/// index just after its digits, or nothing when no digit is there.
pub open spec fn spec_parse_int(s: Seq<char>, i: int) -> Option<(int, int)> {
    let j = if 0 <= i < s.len() && s[i] == '-' {
        i + 1
    } else {
        i
    };
    if 0 <= j < s.len() && is_digit_char(s[j]) {
        let e = digits_end(s, j);
        let v = dec_val(s.subrange(j, e));
        Some((if j != i { -v } else { v }, e))
    } else {
        None
    }
}

/// Parsing reads back exactly what rendering wrote: if the rendering of `n`
/// sits at `i` in `s` and is not followed by another digit, the parse at `i`
/// yields `n` and stops right after it.
pub proof fn lemma_parse_int_of_dec(s: Seq<char>, i: int, n: int)
    requires
        crate::strutil::match_at(s, i, dec_int(n)),
        i + dec_int(n).len() < s.len() ==> !is_digit_char(s[i + dec_int(n).len()]),
    ensures
        spec_parse_int(s, i) == Some((n, i + dec_int(n).len())),
{
    let m = if n < 0 {
        (-n) as nat
    } else {
        n as nat
    };
    lemma_dec_digits(m);
    let d = dec_digits(m);
    let j = if n < 0 {
        i + 1
    } else {
        i
    };
    let e = i + dec_int(n).len();
    assert(s.subrange(i, i + dec_int(n).len()) == dec_int(n));
    assert(forall|t: int|
        0 <= t < dec_int(n).len() ==> s[i + t] == #[trigger] dec_int(n)[t]) by {
        assert(forall|t: int|
            0 <= t < dec_int(n).len() ==> s.subrange(i, i + dec_int(n).len())[t] == #[trigger] dec_int(
                n,
            )[t]);
    }
    if n < 0 {
        assert(s[i] == dec_int(n)[0]);
        assert(dec_int(n)[0] == '-');
        assert forall|t: int| 0 <= t < d.len() implies s[j + t] == #[trigger] d[t] by {
            assert(s[i + (1 + t)] == dec_int(n)[1 + t]);
            assert(dec_int(n)[1 + t] == d[t]);
        }
    } else {
        assert(forall|t: int| 0 <= t < d.len() ==> s[j + t] == #[trigger] d[t]);
        assert(s[i] != '-') by {
            assert(s[i] == d[0]);
            assert(is_digit_char(d[0]));
        }
    }
    assert(forall|t: int| j <= t < e ==> is_digit_char(#[trigger] s[t])) by {
        assert(forall|t: int| j <= t < e ==> s[t] == d[t - j] && is_digit_char(d[t - j]));
    }
    lemma_digits_end_match(s, j, e);
    assert(s.subrange(j, e) =~= d);
    assert(is_digit_char(s[j]));
}

/// Parses a signed decimal integer at index `i` of `v`, rejecting values
/// whose magnitude exceeds `i64::MAX`.
pub fn parse_i64(v: &Vec<char>, i: usize) -> (r: Option<(i64, usize)>)
    requires
        i <= v@.len(),
    ensures
        match spec_parse_int(v@, i as int) {
            Some(ve) => if -0x7fff_ffff_ffff_ffff <= ve.0 <= 0x7fff_ffff_ffff_ffff {
                r == Some((ve.0 as i64, ve.1 as usize))
            } else {
                r is None
            },
            None => r is None,
        },
{
    let n = v.len();
    let neg = i < n && v[i] == '-';
    let j: usize = if neg {
        i + 1
    } else {
        i
    };
    if j >= n || !is_digit(v[j]) {
        return None;
    }
    proof {
        lemma_digits_end(v@, j as int);
    }
    let ghost e = digits_end(v@, j as int);
    let mut k: usize = j;
    let mut acc: u64 = 0;
    let mut overflow = false;
    while k < n && is_digit(v[k])
        invariant
            n == v@.len(),
            j <= k <= n,
            j < n,
            e == digits_end(v@, j as int),
            j <= e <= n,
            forall|t: int| j <= t < e ==> is_digit_char(#[trigger] v@[t]),
            e < n ==> !is_digit_char(v@[e as int]),
            k <= e,
            acc <= 0x7fff_ffff_ffff_ffff,
            !overflow ==> acc as int == dec_val(v@.subrange(j as int, k as int)),
            overflow ==> dec_val(v@.subrange(j as int, k as int)) > 0x7fff_ffff_ffff_ffff,
        decreases n - k,
    {
        let d: u64 = (v[k] as u32 as u64) - 48;
        proof {
            let pre = v@.subrange(j as int, k as int);
            let cur = v@.subrange(j as int, k + 1 as int);
            assert(cur.drop_last() =~= pre);
            assert(cur.last() == v@[k as int]);
            assert(is_digit_char(v@[k as int]));
            assert(digit_val_of(v@[k as int]) == d as int);
            assert(dec_val(cur) == dec_val(pre) * 10 + d as int);
            lemma_dec_val_nonneg(pre);
        }
        if overflow || acc > (0x7fff_ffff_ffff_ffffu64 - d) / 10 {
            proof {
                if !overflow {
                    lemma_mul10_gt(acc as int, d as int, 0x7fff_ffff_ffff_ffff);
                }
                if overflow {
                    let pre = v@.subrange(j as int, k as int);
                    assert(dec_val(v@.subrange(j as int, k + 1 as int)) == dec_val(pre) * 10
                        + d as int);
                    lemma_mul10_ge(dec_val(pre));
                }
            }
            overflow = true;
        } else {
            proof {
                lemma_mul10_le(acc as int, d as int, 0x7fff_ffff_ffff_ffff);
            }
            acc = acc * 10 + d;
        }
        k = k + 1;
        proof {
            if k <= e {
            } else {
                assert(k - 1 < e || k - 1 == e || k - 1 > e);
                assert(is_digit_char(v@[k - 1]));
                assert(k - 1 <= e);
            }
        }
    }
    proof {
        assert(k == e) by {
            if k < e {
                assert(is_digit_char(v@[k as int]));
            }
        }
    }
    if overflow {
        return None;
    }
    let val: i64 = if neg {
        if acc == 0 {
            0
        } else {
            -((acc - 1) as i64) - 1
        }
    } else {
        acc as i64
    };
    Some((val, k))
}

} // verus!
