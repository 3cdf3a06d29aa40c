//! Verified decimal conversion between `i32` and strings.
//!
//! Identifier strings carry numeric ids ("n3", "e12", "42"); these helpers
//! parse and print the numeric part with exact contracts.

use vstd::prelude::*;
use crate::strutil::chars_to_string;

verus! {

/// The character standing for a single decimal digit value.
pub open spec fn digit_char(d: nat) -> char {
    if d == 0 { '0' }
    else if d == 1 { '1' }
    else if d == 2 { '2' }
    else if d == 3 { '3' }
    else if d == 4 { '4' }
    else if d == 5 { '5' }
    else if d == 6 { '6' }
    else if d == 7 { '7' }
    else if d == 8 { '8' }
    else { '9' }
}

/// Whether a character is a decimal digit.
pub open spec fn is_digit(c: char) -> bool {
    '0' <= c && c <= '9'
}

/// The numeric value of a digit character.
pub open spec fn digit_value(c: char) -> nat {
    (c as nat - '0' as nat) as nat
}

/// The decimal digit string of a nonnegative number, most significant first.
pub open spec fn spec_digits(n: nat) -> Seq<char>
    decreases n,
{
    if n < 10 {
        seq![digit_char(n)]
    } else {
        spec_digits(n / 10).push(digit_char(n % 10))
    }
}

/// The decimal string of a (possibly negative) integer.
pub open spec fn spec_int_string(n: int) -> Seq<char> {
    if n < 0 {
        seq!['-'] + spec_digits((-n) as nat)
    } else {
        spec_digits(n as nat)
    }
}

/// The value of a digit string read left to right.
pub open spec fn digits_value(s: Seq<char>) -> nat
    decreases s.len(),
{
    if s.len() == 0 {
        0
    } else {
        digits_value(s.drop_last()) * 10 + digit_value(s.last())
    }
}

/// Whether every character of a sequence is a decimal digit.
pub open spec fn all_digits(s: Seq<char>) -> bool {
    forall|i: int| 0 <= i < s.len() ==> is_digit(#[trigger] s[i])
}

/// What `str::parse::<i32>` returns on a character sequence: an optional
/// sign, then at least one digit, with the value in `i32`'s range.
pub open spec fn spec_parse_i32(s: Seq<char>) -> Option<int> {
    let has_sign = s.len() > 0 && (s[0] == '-' || s[0] == '+');
    let digits = if has_sign { s.skip(1) } else { s };
    let negative = s.len() > 0 && s[0] == '-';
    if digits.len() == 0 || !all_digits(digits) {
        None
    } else {
        let magnitude = digits_value(digits) as int;
        let value = if negative { -magnitude } else { magnitude };
        if i32::MIN <= value <= i32::MAX {
            Some(value)
        } else {
            None
        }
    }
}

/// A digit string's value only grows as more digits are read.
proof fn lemma_digits_value_prefix_grows(s: Seq<char>, i: int)
    requires
        0 <= i <= s.len(),
    ensures
        digits_value(s.take(i)) <= digits_value(s),
    decreases s.len() - i,
{
    if i < s.len() {
        lemma_digits_value_prefix_grows(s, i + 1);
        assert(s.take(i + 1).drop_last() =~= s.take(i));
        assert(digits_value(s.take(i + 1)) == digits_value(s.take(i)) * 10
            + digit_value(s.take(i + 1).last()));
    } else {
        assert(s.take(i) =~= s);
    }
}

fn digit_of(c: char) -> (d: u32)
    requires
        is_digit(c),
    ensures
        d == digit_value(c),
        d <= 9,
{
    (c as u32) - ('0' as u32)
}

/// Parses the decimal magnitude of `digits`, bounded by `limit`.
/// Returns `None` exactly when some character is not a digit, the slice is
/// empty, or the value exceeds `limit`.
fn parse_magnitude(digits: &[char], limit: u32) -> (r: Option<u32>)
    ensures
        match r {
            Some(m) => all_digits(digits@) && digits@.len() > 0
                && m == digits_value(digits@) && m <= limit,
            None => digits@.len() == 0 || !all_digits(digits@)
                || digits_value(digits@) > limit,
        },
{
    if digits.len() == 0 {
        return None;
    }
    let mut acc: u32 = 0;
    let mut i: usize = 0;
    while i < digits.len()
        invariant
            i <= digits@.len(),
            all_digits(digits@.take(i as int)),
            acc == digits_value(digits@.take(i as int)),
            acc <= limit,
        decreases digits@.len() - i,
    {
        let c = digits[i];
        if !('0' <= c && c <= '9') {
            return None;
        }
        let d = digit_of(c);
        proof {
            assert(digits@.take(i + 1).drop_last() =~= digits@.take(i as int));
            assert(digits_value(digits@.take(i + 1)) == acc * 10 + digit_value(c));
        }
        if acc > limit / 10 || (acc == limit / 10 && d > limit % 10) {
            proof {
                assert(digits_value(digits@.take(i + 1)) > limit);
                lemma_digits_value_prefix_grows(digits@, i + 1);
            }
            return None;
        }
        assert(acc * 10 + d <= limit) by {
            assert(acc <= limit / 10);
            assert(limit == (limit / 10) * 10 + limit % 10);
        };
        acc = acc * 10 + d;
        i = i + 1;
    }
    proof {
        assert(digits@.take(i as int) =~= digits@);
    }
    Some(acc)
}

/// Parses a string as `str::parse::<i32>` does: an optional `+` or `-`
/// sign followed by one or more decimal digits, rejecting overflow.
pub fn parse_i32(s: &[char]) -> (r: Option<i32>)
    ensures
        match r {
            Some(v) => spec_parse_i32(s@) == Some(v as int),
            None => spec_parse_i32(s@) is None,
        },
{
    let negative = s.len() > 0 && s[0] == '-';
    let has_sign = s.len() > 0 && (s[0] == '-' || s[0] == '+');
    let digits: &[char] = if has_sign { s.split_at(1).1 } else { s };
    proof {
        if has_sign {
            assert(digits@ =~= s@.skip(1));
        }
    }
    if negative {
        match parse_magnitude(digits, 0x8000_0000u32) {
            Some(m) => {
                if m == 0x8000_0000u32 {
                    Some(i32::MIN)
                } else {
                    Some(-(m as i32))
                }
            },
            None => None,
        }
    } else {
        match parse_magnitude(digits, 0x7fff_ffffu32) {
            Some(m) => Some(m as i32),
            None => None,
        }
    }
}

/// Appends the decimal digits of `n` to `out`, most significant first.
fn push_digits(n: u32, out: &mut Vec<char>)
    ensures
        final(out)@ == old(out)@ + spec_digits(n as nat),
    decreases n,
{
    if n >= 10 {
        push_digits(n / 10, out);
    }
    let d = n % 10;
    let c = if d == 0 { '0' }
        else if d == 1 { '1' }
        else if d == 2 { '2' }
        else if d == 3 { '3' }
        else if d == 4 { '4' }
        else if d == 5 { '5' }
        else if d == 6 { '6' }
        else if d == 7 { '7' }
        else if d == 8 { '8' }
        else { '9' };
    out.push(c);
    proof {
        if n < 10 {
            assert(old(out)@ + spec_digits(n as nat) =~= old(out)@.push(c));
        } else {
            assert(old(out)@ + spec_digits(n as nat)
                =~= (old(out)@ + spec_digits((n / 10) as nat)).push(c));
        }
    }
}

/// Prints an integer in decimal, as `i32`'s display does.
pub fn i32_to_string(n: i32) -> (s: String)
    ensures
        s@ == spec_int_string(n as int),
{
    let mut out: Vec<char> = Vec::new();
    if n < 0 {
        out.push('-');
        let magnitude: u32 = if n == i32::MIN {
            0x8000_0000u32
        } else {
            (-n) as u32
        };
        push_digits(magnitude, &mut out);
        proof {
            assert(out@ =~= seq!['-'] + spec_digits((-(n as int)) as nat));
        }
    } else {
        push_digits(n as u32, &mut out);
    }
    chars_to_string(&out)
}

} // verus!
