//! Decimal numbers as the meter writes them, read as whole thousandths.

use vstd::prelude::*;

use crate::text::{find_char, find_from};

verus! {

/// Bound on the magnitude of a value in thousandths.
pub const LIMIT: i64 = 1_000_000_000_000_000;

/// Most digits before the decimal point.
pub const MAX_WHOLE_DIGITS: usize = 12;

/// Most digits after the decimal point; values are kept in thousandths.
pub const FRACTION_DIGITS: usize = 3;

/// An ASCII decimal digit.
pub open spec fn is_digit(c: char) -> bool {
    '0' <= c && c <= '9'
}

/// Only decimal digits.
pub open spec fn all_digits(s: Seq<char>) -> bool {
    forall|i: int| 0 <= i < s.len() ==> is_digit(#[trigger] s[i])
}

/// The number that a string of decimal digits denotes.
pub open spec fn digits_value(s: Seq<char>) -> int
    decreases s.len(),
{
    if s.len() == 0 {
        0
    } else {
        digits_value(s.drop_last()) * 10 + (s.last() as int - '0' as int)
    }
}

/// Ten to the power `n`.
pub open spec fn pow10(n: nat) -> int
    decreases n,
{
    if n == 0 {
        1
    } else {
        10 * pow10((n - 1) as nat)
    }
}

/// `n` zero digits.
pub open spec fn zeros(n: nat) -> Seq<char> {
    Seq::new(n, |i: int| '0')
}

/// The value in thousandths of an unsigned number: at most twelve digits,
/// and optionally a point followed by at most three digits, with at least
/// one digit in all. Anything else has no value.
pub open spec fn unsigned_thousandths(body: Seq<char>) -> Option<int> {
    let d = find_char(body, '.');
    let whole = body.take(d);
    let frac = if d < body.len() {
        body.skip(d + 1)
    } else {
        Seq::<char>::empty()
    };
    if all_digits(whole) && all_digits(frac) && whole.len() + frac.len() > 0 && whole.len()
        <= MAX_WHOLE_DIGITS && frac.len() <= FRACTION_DIGITS {
        Some(digits_value(whole + frac + zeros((FRACTION_DIGITS - frac.len()) as nat)))
    } else {
        None
    }
}

/// The value of `s` in thousandths: an unsigned number, optionally preceded
/// by `-` or `+`.
pub open spec fn thousandths(s: Seq<char>) -> Option<int> {
    if s.len() > 0 && (s[0] == '-' || s[0] == '+') {
        match unsigned_thousandths(s.drop_first()) {
            Some(m) => Some(
                if s[0] == '-' {
                    -m
                } else {
                    m
                },
            ),
            None => None,
        }
    } else {
        unsigned_thousandths(s)
    }
}

proof fn lemma_digits_push(s: Seq<char>, c: char)
    ensures
        digits_value(s.push(c)) == digits_value(s) * 10 + (c as int - '0' as int),
{
    assert(s.push(c).drop_last() =~= s);
}

proof fn lemma_pow10_mono(a: nat, b: nat)
    requires
        a <= b,
    ensures
        1 <= pow10(a) <= pow10(b),
    decreases b,
{
    if b > 0 {
        if a < b {
            lemma_pow10_mono(a, (b - 1) as nat);
        } else {
            lemma_pow10_mono((b - 1) as nat, (b - 1) as nat);
        }
    }
}

/// Appends the digit `c` to `acc`, the value of `digits` so far.
fn push_digit(acc: u64, c: char, Ghost(digits): Ghost<Seq<char>>) -> (r: u64)
    requires
        is_digit(c),
        acc == digits_value(digits),
        acc < pow10(digits.len()),
        digits.len() < 15,
    ensures
        r == digits_value(digits.push(c)),
        r < pow10(digits.len() + 1),
{
    proof {
        lemma_digits_push(digits, c);
        lemma_pow10_mono((digits.len() + 1) as nat, 15);
        reveal_with_fuel(pow10, 16);
    }
    acc * 10 + (c as u64 - '0' as u64)
}

/// Appends the digits `s[lo..hi]` to `acc`, the value of `prefix`; `None`
/// if one of them is no digit.
fn push_digits(s: &[char], lo: usize, hi: usize, acc: u64, Ghost(prefix): Ghost<Seq<char>>) -> (r:
    Option<u64>)
    requires
        lo <= hi <= s.len(),
        acc == digits_value(prefix),
        acc < pow10(prefix.len()),
        prefix.len() + (hi - lo) < 16,
    ensures
        match r {
            Some(v) => all_digits(s@.subrange(lo as int, hi as int)) && v == digits_value(
                prefix + s@.subrange(lo as int, hi as int),
            ) && v < pow10((prefix.len() + (hi - lo)) as nat),
            None => !all_digits(s@.subrange(lo as int, hi as int)),
        },
{
    let mut acc = acc;
    let mut i: usize = lo;
    let ghost mut seen = prefix;
    while i < hi
        invariant
            lo <= i <= hi <= s.len(),
            prefix.len() + (hi - lo) < 16,
            seen =~= prefix + s@.subrange(lo as int, i as int),
            all_digits(s@.subrange(lo as int, i as int)),
            acc == digits_value(seen),
            acc < pow10(seen.len()),
        decreases hi - i,
    {
        if !('0' <= s[i] && s[i] <= '9') {
            assert(s@.subrange(lo as int, hi as int)[i - lo] == s@[i as int]);
            return None;
        }
        acc = push_digit(acc, s[i], Ghost(seen));
        proof {
            seen = seen.push(s@[i as int]);
            assert(s@.subrange(lo as int, i + 1) =~= s@.subrange(lo as int, i as int).push(
                s@[i as int],
            ));
        }
        i = i + 1;
    }
    Some(acc)
}

/// Reads the unsigned number `s[start..]` in thousandths.
fn parse_unsigned(s: &[char], start: usize) -> (r: Option<u64>)
    requires
        start <= s.len(),
    ensures
        match r {
            Some(v) => unsigned_thousandths(s@.subrange(start as int, s@.len() as int)) == Some(
                v as int,
            ) && v < pow10(15),
            None => unsigned_thousandths(s@.subrange(start as int, s@.len() as int)) is None,
        },
{
    let n = s.len();
    let ghost body = s@.subrange(start as int, n as int);
    let d = find_from(s, start, '.');
    let frac_start: usize = if d < n {
        d + 1
    } else {
        n
    };
    let ghost whole = body.take(d - start);
    let ghost frac = s@.subrange(frac_start as int, n as int);
    proof {
        assert(whole =~= s@.subrange(start as int, d as int));
        if d < n {
            assert(frac =~= body.skip(d - start + 1));
        } else {
            assert(frac =~= Seq::<char>::empty());
        }
    }
    if (d - start) + (n - frac_start) == 0 || d - start > MAX_WHOLE_DIGITS || n - frac_start
        > FRACTION_DIGITS {
        return None;
    }
    proof {
        reveal_with_fuel(pow10, 1);
        assert(Seq::<char>::empty() + whole =~= whole);
    }
    let acc = match push_digits(s, start, d, 0, Ghost(Seq::empty())) {
        Some(v) => v,
        None => {
            return None;
        },
    };
    let acc = match push_digits(s, frac_start, n, acc, Ghost(whole)) {
        Some(v) => v,
        None => {
            return None;
        },
    };
    let mut acc = acc;
    let ghost mut seen: Seq<char> = whole + frac;
    let mut pad: usize = n - frac_start;
    while pad < FRACTION_DIGITS
        invariant
            n - frac_start <= pad <= FRACTION_DIGITS,
            whole.len() <= MAX_WHOLE_DIGITS,
            frac.len() == n - frac_start,
            seen =~= whole + frac + zeros((pad - (n - frac_start)) as nat),
            acc == digits_value(seen),
            acc < pow10(seen.len()),
        decreases FRACTION_DIGITS - pad,
    {
        acc = push_digit(acc, '0', Ghost(seen));
        proof {
            seen = seen.push('0');
        }
        pad = pad + 1;
    }
    proof {
        lemma_pow10_mono(seen.len(), 15);
    }
    Some(acc)
}

/// Reads a decimal number in thousandths; `None` where `thousandths` gives
/// no value.
pub fn parse_thousandths(s: &[char]) -> (r: Option<i64>)
    ensures
        match r {
            Some(v) => thousandths(s@) == Some(v as int) && -LIMIT < v < LIMIT,
            None => thousandths(s@) is None,
        },
{
    let n = s.len();
    let signed = n > 0 && (s[0] == '-' || s[0] == '+');
    let start: usize = if signed {
        1
    } else {
        0
    };
    proof {
        if signed {
            assert(s@.subrange(1, n as int) =~= s@.drop_first());
        } else {
            assert(s@.subrange(0, n as int) =~= s@);
        }
        reveal_with_fuel(pow10, 16);
    }
    match parse_unsigned(s, start) {
        Some(m) => {
            if signed && s[0] == '-' {
                Some(-(m as i64))
            } else {
                Some(m as i64)
            }
        },
        None => None,
    }
}

} // verus!
