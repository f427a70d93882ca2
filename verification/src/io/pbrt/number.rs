//! Numeric lexemes: the decimal integers that `i64` accepts and the
//! syntax of decimal floating-point literals.

use vstd::prelude::*;

verus! {

pub open spec fn is_digit(c: u8) -> bool {
    0x30 <= c <= 0x39
}

pub open spec fn is_sign(c: u8) -> bool {
    c == 0x2b || c == 0x2d
}

/// The value of a run of decimal digits, most significant first.
pub open spec fn digits_value(s: Seq<u8>) -> nat
    decreases s.len(),
{
    if s.len() == 0 {
        0
    } else {
        digits_value(s.drop_last()) * 10 + (s.last() - 0x30) as nat
    }
}

pub open spec fn all_digits(s: Seq<u8>) -> bool {
    forall|i: int| 0 <= i < s.len() ==> is_digit(#[trigger] s[i])
}

/// Length of an optional leading sign.
pub open spec fn sign_len(t: Seq<u8>) -> int {
    if t.len() > 0 && is_sign(t[0]) {
        1
    } else {
        0
    }
}

/// What `str::parse::<i64>` gives: an optional `+` or `-`, then one or more
/// decimal digits, and a value within the range of `i64`.
pub open spec fn spec_parse_i64(t: Seq<u8>) -> Option<i64> {
    let ds = t.subrange(sign_len(t), t.len() as int);
    if ds.len() == 0 || !all_digits(ds) {
        None
    } else {
        let v: int = if t[0] == 0x2d {
            -(digits_value(ds) as int)
        } else {
            digits_value(ds) as int
        };
        if i64::MIN <= v <= i64::MAX {
            Some(v as i64)
        } else {
            None
        }
    }
}

/// The first index at or after `i` that does not hold a digit.
pub open spec fn digit_run_end(t: Seq<u8>, i: int) -> int
    decreases t.len() - i,
{
    if 0 <= i < t.len() && is_digit(t[i]) {
        digit_run_end(t, i + 1)
    } else {
        i
    }
}

/// The syntax that `str::parse::<f64>` accepts on text made of digits,
/// signs, `.`, `e` and `E`: `Sign? (Digit+ | Digit+ '.' Digit* | Digit* '.'
/// Digit+) ([eE] Sign? Digit+)?`.
pub open spec fn is_float_literal(t: Seq<u8>) -> bool {
    let s = sign_len(t);
    let a = digit_run_end(t, s);
    let has_dot = a < t.len() && t[a] == 0x2e;
    let b = if has_dot {
        digit_run_end(t, a + 1)
    } else {
        a
    };
    let n_digits = (a - s) + (if has_dot {
        b - (a + 1)
    } else {
        0
    });
    &&& n_digits >= 1
    &&& (b == t.len() || {
        &&& (t[b] == 0x65 || t[b] == 0x45)
        &&& {
            let e0 = b + 1;
            let e1 = if e0 < t.len() && is_sign(t[e0]) {
                e0 + 1
            } else {
                e0
            };
            let e2 = digit_run_end(t, e1);
            e2 > e1 && e2 == t.len()
        }
    })
}

pub proof fn lemma_digit_run_end(t: Seq<u8>, i: int)
    requires
        0 <= i <= t.len(),
    ensures
        i <= digit_run_end(t, i) <= t.len(),
        forall|j: int| i <= j < digit_run_end(t, i) ==> is_digit(#[trigger] t[j]),
        digit_run_end(t, i) < t.len() ==> !is_digit(t[digit_run_end(t, i)]),
    decreases t.len() - i,
{
    if i < t.len() && is_digit(t[i]) {
        lemma_digit_run_end(t, i + 1);
    }
}

/// Scans the digits starting at `i`.
pub fn digit_run(t: &[u8], i: usize) -> (e: usize)
    requires
        i <= t@.len(),
    ensures
        e == digit_run_end(t@, i as int),
        i <= e <= t@.len(),
{
    proof {
        lemma_digit_run_end(t@, i as int);
    }
    let mut k = i;
    while k < t.len() && 0x30 <= t[k] && t[k] <= 0x39
        invariant
            i <= k <= t@.len(),
            digit_run_end(t@, k as int) == digit_run_end(t@, i as int),
        decreases t@.len() - k,
    {
        k = k + 1;
    }
    k
}

proof fn lemma_digits_value_step(s: Seq<u8>, a: int, k: int)
    requires
        0 <= a <= k < s.len(),
    ensures
        digits_value(s.subrange(a, k + 1)) == digits_value(s.subrange(a, k)) * 10 + (s[k]
            - 0x30) as nat,
{
    assert(s.subrange(a, k + 1).drop_last() =~= s.subrange(a, k));
}

proof fn lemma_digits_value_monotone(s: Seq<u8>, a: int, k: int, m: int)
    requires
        0 <= a <= k <= m <= s.len(),
    ensures
        digits_value(s.subrange(a, k)) <= digits_value(s.subrange(a, m)),
    decreases m - k,
{
    if k < m {
        lemma_digits_value_monotone(s, a, k, m - 1);
        lemma_digits_value_step(s, a, m - 1);
    }
}

/// Decimal integer parsing with the behaviour of `str::parse::<i64>`.
pub fn parse_i64(t: &[u8]) -> (r: Option<i64>)
    ensures
        r == spec_parse_i64(t@),
{
    let n = t.len();
    let start: usize = if n > 0 && (t[0] == 0x2b || t[0] == 0x2d) {
        1
    } else {
        0
    };
    let ghost ds = t@.subrange(start as int, n as int);
    assert(start == sign_len(t@));
    if start == n {
        return None;
    }
    let neg = t[0] == 0x2d;
    // Magnitude, kept at most 2^63 (the magnitude of `i64::MIN`).
    let mut acc: u64 = 0;
    let mut k = start;
    while k < n
        invariant
            n == t@.len(),
            start <= k <= n,
            start < n,
            start == sign_len(t@),
            neg == (t@[0] == 0x2d),
            ds == t@.subrange(start as int, n as int),
            acc <= 0x8000_0000_0000_0000,
            acc == digits_value(t@.subrange(start as int, k as int)),
            forall|j: int| start <= j < k ==> is_digit(#[trigger] t@[j]),
        decreases n - k,
    {
        let c = t[k];
        if c < 0x30 || c > 0x39 {
            proof {
                assert(ds[k - start] == c);
                assert(!is_digit(ds[k - start]));
                assert(!all_digits(ds));
            }
            return None;
        }
        proof {
            lemma_digits_value_step(t@, start as int, k as int);
            lemma_digits_value_monotone(t@, start as int, k + 1, n as int);
            assert(t@.subrange(start as int, n as int) =~= ds);
        }
        if acc > 922_337_203_685_477_580 {
            assert(digits_value(ds) >= acc * 10) by (nonlinear_arith)
                requires
                    digits_value(ds) >= digits_value(t@.subrange(start as int, k + 1)),
                    digits_value(t@.subrange(start as int, k + 1)) == acc * 10 + (c - 0x30) as nat,
            ;
            assert(spec_parse_i64(t@) is None) by {
                if all_digits(ds) {
                    assert(digits_value(ds) > 0x8000_0000_0000_0000);
                }
            }
            return None;
        }
        let next = acc * 10 + (c - 0x30) as u64;
        if next > 0x8000_0000_0000_0000 {
            assert(spec_parse_i64(t@) is None) by {
                if all_digits(ds) {
                    assert(digits_value(ds) > 0x8000_0000_0000_0000);
                }
            }
            return None;
        }
        acc = next;
        k = k + 1;
    }
    assert(t@.subrange(start as int, k as int) =~= ds);
    assert(all_digits(ds)) by {
        assert forall|j: int| 0 <= j < ds.len() implies is_digit(#[trigger] ds[j]) by {
            assert(ds[j] == t@[j + start]);
        }
    }
    if neg {
        if acc == 0x8000_0000_0000_0000 {
            Some(i64::MIN)
        } else {
            Some(-(acc as i64))
        }
    } else {
        if acc > 0x7fff_ffff_ffff_ffff {
            None
        } else {
            Some(acc as i64)
        }
    }
}

/// Whether `t` is a decimal floating-point literal that `str::parse::<f64>`
/// accepts (see [`is_float_literal`]).
pub fn check_float_literal(t: &[u8]) -> (r: bool)
    ensures
        r == is_float_literal(t@),
{
    let n = t.len();
    let s: usize = if n > 0 && (t[0] == 0x2b || t[0] == 0x2d) {
        1
    } else {
        0
    };
    let a = digit_run(t, s);
    let has_dot = a < n && t[a] == 0x2e;
    let b = if has_dot {
        digit_run(t, a + 1)
    } else {
        a
    };
    let n_digits = (a - s) + if has_dot {
        b - (a + 1)
    } else {
        0
    };
    if n_digits < 1 {
        return false;
    }
    if b == n {
        return true;
    }
    if t[b] != 0x65 && t[b] != 0x45 {
        return false;
    }
    let e0 = b + 1;
    let e1 = if e0 < n && (t[e0] == 0x2b || t[e0] == 0x2d) {
        e0 + 1
    } else {
        e0
    };
    let e2 = digit_run(t, e1);
    e2 > e1 && e2 == n
}

/// A run of decimal digits reads as its value; with a leading `-` it reads
/// as the negation of that value (down to `i64::MIN`), and a leading `+`
/// changes nothing.
pub proof fn law_signed_integers(t: Seq<u8>)
    requires
        t.len() > 0,
        all_digits(t),
    ensures
        digits_value(t) <= i64::MAX ==> spec_parse_i64(t) == Some(digits_value(t) as i64),
        digits_value(t) > i64::MAX ==> spec_parse_i64(t) is None,
        digits_value(t) <= 0x8000_0000_0000_0000 ==> spec_parse_i64(seq![0x2du8] + t) == Some(
            (-(digits_value(t) as int)) as i64,
        ),
        digits_value(t) > 0x8000_0000_0000_0000 ==> spec_parse_i64(seq![0x2du8] + t) is None,
        spec_parse_i64(seq![0x2bu8] + t) == spec_parse_i64(t),
        spec_parse_i64(t) matches Some(v) ==> spec_parse_i64(seq![0x2du8] + t) == Some(
            (-(v as int)) as i64,
        ),
{
    assert(!is_sign(t[0]));
    assert(t.subrange(0, t.len() as int) =~= t);
    let m = seq![0x2du8] + t;
    let p = seq![0x2bu8] + t;
    assert(m[0] == 0x2du8);
    assert(p[0] == 0x2bu8);
    assert(m.subrange(1, m.len() as int) =~= t);
    assert(p.subrange(1, p.len() as int) =~= t);
}

} // verus!
