//! Numeric operands of a script: unsigned integers (frame numbers) and
//! decimal literals, read exactly.
use vstd::prelude::*;
use crate::error::ScriptError;
use crate::num::Num;

verus! {

pub open spec fn is_digit(c: char) -> bool {
    '0' <= c && c <= '9'
}

pub open spec fn digit_value(c: char) -> int {
    c as int - '0' as int
}

/// The number that the digits of `s` spell, with any `.` skipped.
pub open spec fn digits_value(s: Seq<char>) -> int
    decreases s.len(),
{
    if s.len() == 0 {
        0
    } else if s.last() == '.' {
        digits_value(s.drop_last())
    } else {
        digits_value(s.drop_last()) * 10 + digit_value(s.last())
    }
}

/// The number of `.` in `s`.
pub open spec fn dots(s: Seq<char>) -> nat
    decreases s.len(),
{
    if s.len() == 0 {
        0
    } else {
        dots(s.drop_last()) + if s.last() == '.' { 1nat } else { 0nat }
    }
}

/// The number of characters after the last `.` of `s` (all of them when
/// there is none).
pub open spec fn trailing(s: Seq<char>) -> nat
    decreases s.len(),
{
    if s.len() == 0 {
        0
    } else if s.last() == '.' {
        0
    } else {
        trailing(s.drop_last()) + 1
    }
}

pub open spec fn pow10(k: nat) -> nat
    decreases k,
{
    if k == 0 {
        1
    } else {
        10 * pow10((k - 1) as nat)
    }
}

/// The value of a token of decimal digits, which must fit in a `u32`.
pub open spec fn uint_of(t: Seq<char>) -> Option<u32> {
    if t.len() > 0 && (forall|i: int| 0 <= i < t.len() ==> is_digit(#[trigger] t[i]))
        && digits_value(t) <= u32::MAX {
        Some(digits_value(t) as u32)
    } else {
        None
    }
}

/// The unsigned part of a decimal literal: digits with at most one `.`,
/// and at least one digit.
pub open spec fn decimal_body(b: Seq<char>) -> bool {
    &&& forall|i: int| 0 <= i < b.len() ==> is_digit(#[trigger] b[i]) || b[i] == '.'
    &&& dots(b) <= 1
    &&& b.len() > dots(b)
}

/// The number of fraction digits of a decimal body.
pub open spec fn fraction_digits(b: Seq<char>) -> nat {
    if dots(b) == 0 {
        0
    } else {
        trailing(b)
    }
}

/// The value of a decimal literal: an optional `-`, then digits with at
/// most one `.`. Its digits, read as one integer, must fit in an `i64`, and
/// it may have at most nine fraction digits, so that the value is held as
/// `digits / 10^fraction` exactly.
pub open spec fn num_of(t: Seq<char>) -> Option<Num> {
    let negative = t.len() > 0 && t[0] == '-';
    let b = if negative { t.drop_first() } else { t };
    if decimal_body(b) && digits_value(b) <= i64::MAX && fraction_digits(b) <= 9 {
        Some(
            Num {
                numer: (if negative { -digits_value(b) } else { digits_value(b) }) as i64,
                denom: pow10(fraction_digits(b)) as u32,
            },
        )
    } else {
        None
    }
}

proof fn lemma_digits_value_grows(s: Seq<char>, i: int, j: int)
    requires
        0 <= i <= j <= s.len(),
        forall|k: int| 0 <= k < s.len() ==> is_digit(#[trigger] s[k]) || s[k] == '.',
    ensures
        0 <= digits_value(s.subrange(0, i)) <= digits_value(s.subrange(0, j)),
    decreases j - i,
{
    if i == j {
        lemma_digits_value_nonneg(s.subrange(0, i));
    } else {
        lemma_digits_value_grows(s, i, j - 1);
        assert(s.subrange(0, j).drop_last() =~= s.subrange(0, j - 1));
        assert(s.subrange(0, j).last() == s[j - 1]);
    }
}

proof fn lemma_digits_value_nonneg(s: Seq<char>)
    requires
        forall|k: int| 0 <= k < s.len() ==> is_digit(#[trigger] s[k]) || s[k] == '.',
    ensures
        digits_value(s) >= 0,
    decreases s.len(),
{
    if s.len() > 0 {
        let p = s.drop_last();
        assert forall|k: int| 0 <= k < p.len() implies is_digit(#[trigger] p[k]) || p[k] == '.' by {
            assert(p[k] == s[k]);
        }
        lemma_digits_value_nonneg(p);
    }
}

proof fn lemma_dots_grow(s: Seq<char>, i: int, j: int)
    requires
        0 <= i <= j <= s.len(),
    ensures
        dots(s.subrange(0, i)) <= dots(s.subrange(0, j)),
        dots(s.subrange(0, i)) == dots(s.subrange(0, j)) ==> trailing(s.subrange(0, i)) + (j - i)
            == trailing(s.subrange(0, j)) || dots(s.subrange(0, i)) == 0,
    decreases j - i,
{
    if i < j {
        lemma_dots_grow(s, i, j - 1);
        assert(s.subrange(0, j).drop_last() =~= s.subrange(0, j - 1));
        assert(s.subrange(0, j).last() == s[j - 1]);
    }
}

/// Reads the digits of `t` from index `from` on as an unsigned value with at
/// most one `.`; `None` where `t[from..]` is no decimal body or its value
/// or fraction does not fit.
fn read_body(t: &str, from: usize) -> (r: Option<(u64, u32)>)
    requires
        from <= t@.len(),
    ensures
        ({
            let b = t@.subrange(from as int, t@.len() as int);
            match r {
                Some((v, k)) => decimal_body(b) && digits_value(b) <= i64::MAX && fraction_digits(b)
                    <= 9 && v == digits_value(b) && k == fraction_digits(b),
                None => !(decimal_body(b) && digits_value(b) <= i64::MAX && fraction_digits(b)
                    <= 9),
            }
        }),
{
    let n = t.unicode_len();
    let ghost b = t@.subrange(from as int, n as int);
    let mut i: usize = from;
    let mut value: u64 = 0;
    let mut seen_dot = false;
    let mut frac: u32 = 0;
    proof {
        assert(b.subrange(0, 0) =~= Seq::<char>::empty());
    }
    while i < n
        invariant
            from <= i <= n,
            n == t@.len(),
            b == t@.subrange(from as int, n as int),
            forall|k: int|
                0 <= k < i - from ==> is_digit(#[trigger] b[k]) || b[k] == '.',
            value == digits_value(b.subrange(0, i - from)),
            value <= i64::MAX,
            seen_dot == (dots(b.subrange(0, i - from)) == 1),
            dots(b.subrange(0, i - from)) <= 1,
            frac == fraction_digits(b.subrange(0, i - from)),
            frac <= 9,
        decreases n - i,
    {
        let c = t.get_char(i);
        let ghost p = b.subrange(0, i - from);
        let ghost q = b.subrange(0, i + 1 - from);
        proof {
            assert(q.drop_last() =~= p);
            assert(q.last() == c);
            assert(b[i - from] == c);
        }
        if c == '.' {
            if seen_dot {
                proof {
                    lemma_dots_grow(b, i + 1 - from, b.len() as int);
                    assert(b.subrange(0, b.len() as int) =~= b);
                }
                return None;
            }
            seen_dot = true;
        } else if '0' <= c && c <= '9' {
            let d = (c as u32 - '0' as u32) as u64;
            if value > (0x7fff_ffff_ffff_ffff - d) / 10 {
                proof {
                    assert(value * 10 + d > i64::MAX) by (nonlinear_arith)
                        requires value > (0x7fff_ffff_ffff_ffffint - d) / 10, d <= 9;
                    if decimal_body(b) {
                        lemma_digits_value_grows(b, i + 1 - from, b.len() as int);
                        assert(b.subrange(0, b.len() as int) =~= b);
                    }
                }
                return None;
            }
            proof {
                assert(value * 10 + d <= i64::MAX) by (nonlinear_arith)
                    requires value <= (0x7fff_ffff_ffff_ffffint - d) / 10, d <= 9;
            }
            value = value * 10 + d;
            if seen_dot {
                if frac == 9 {
                    proof {
                        if decimal_body(b) {
                            lemma_dots_grow(b, i + 1 - from, b.len() as int);
                            assert(b.subrange(0, b.len() as int) =~= b);
                        }
                    }
                    return None;
                }
                frac = frac + 1;
            }
        } else {
            proof {
                assert(!(is_digit(b[i - from]) || b[i - from] == '.'));
            }
            return None;
        }
        i = i + 1;
    }
    proof {
        assert(b.subrange(0, i - from) =~= b);
    }
    if i == from + (if seen_dot { 1usize } else { 0usize }) {
        return None;
    }
    Some((value, frac))
}

fn power_of_ten(k: u32) -> (r: u32)
    requires
        k <= 9,
    ensures
        r == pow10(k as nat),
{
    let mut r: u32 = 1;
    let mut i: u32 = 0;
    while i < k
        invariant
            i <= k <= 9,
            r == pow10(i as nat),
            r <= 1_000_000_000,
        decreases k - i,
    {
        proof {
            assert(pow10((i + 1) as nat) == 10 * pow10(i as nat));
            lemma_pow10_bound_nine(i as nat);
        }
        r = r * 10;
        i = i + 1;
    }
    r
}

/// Reads a decimal literal (see `num_of`); `ParseFailure` when `t` is none.
pub fn parse_num(t: &str) -> (r: Result<Num, ScriptError>)
    ensures
        match num_of(t@) {
            Some(n) => r == Ok::<Num, ScriptError>(n),
            None => r == Err::<Num, ScriptError>(ScriptError::ParseFailure),
        },
{
    let n = t.unicode_len();
    let negative = n > 0 && t.get_char(0) == '-';
    let from: usize = if negative { 1 } else { 0 };
    proof {
        if negative {
            assert(t@.subrange(1, t@.len() as int) =~= t@.drop_first());
        } else {
            assert(t@.subrange(0, t@.len() as int) =~= t@);
        }
    }
    match read_body(t, from) {
        Some((v, k)) => {
            proof {
                lemma_pow10_bound_nine(k as nat);
            }
            let numer: i64 = if negative { -(v as i64) } else { v as i64 };
            Ok(Num { numer, denom: power_of_ten(k) })
        },
        None => Err(ScriptError::ParseFailure),
    }
}

proof fn lemma_pow10_bound_nine(k: nat)
    requires
        k <= 9,
    ensures
        0 < pow10(k) <= 1_000_000_000,
        k <= 8 ==> pow10(k) <= 100_000_000,
{
    assert(pow10(0) == 1);
    assert(pow10(1) == 10);
    assert(pow10(2) == 100);
    assert(pow10(3) == 1000);
    assert(pow10(4) == 10_000);
    assert(pow10(5) == 100_000);
    assert(pow10(6) == 1_000_000);
    assert(pow10(7) == 10_000_000);
    assert(pow10(8) == 100_000_000);
    assert(pow10(9) == 1_000_000_000);
}

/// Reads a token of decimal digits as a `u32`; `ParseFailure` when it is
/// empty, holds anything but digits, or does not fit.
pub fn parse_uint(t: &str) -> (r: Result<u32, ScriptError>)
    ensures
        match uint_of(t@) {
            Some(v) => r == Ok::<u32, ScriptError>(v),
            None => r == Err::<u32, ScriptError>(ScriptError::ParseFailure),
        },
{
    let n = t.unicode_len();
    if n == 0 {
        return Err(ScriptError::ParseFailure);
    }
    let mut value: u64 = 0;
    let mut i: usize = 0;
    proof {
        assert(t@.subrange(0, 0) =~= Seq::<char>::empty());
    }
    while i < n
        invariant
            i <= n,
            n == t@.len(),
            forall|k: int| 0 <= k < i ==> is_digit(#[trigger] t@[k]),
            value == digits_value(t@.subrange(0, i as int)),
            value <= u32::MAX,
        decreases n - i,
    {
        let c = t.get_char(i);
        proof {
            assert(t@.subrange(0, i + 1).drop_last() =~= t@.subrange(0, i as int));
        }
        if !('0' <= c && c <= '9') {
            return Err(ScriptError::ParseFailure);
        }
        value = value * 10 + (c as u32 - '0' as u32) as u64;
        if value > 0xffff_ffff {
            proof {
                if forall|k: int| 0 <= k < t@.len() ==> is_digit(#[trigger] t@[k]) {
                    lemma_digits_value_grows(t@, i + 1, n as int);
                    assert(t@.subrange(0, n as int) =~= t@);
                }
            }
            return Err(ScriptError::ParseFailure);
        }
        i = i + 1;
    }
    proof {
        assert(t@.subrange(0, n as int) =~= t@);
    }
    Ok(value as u32)
}

} // verus!
