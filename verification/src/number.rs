//! Decimal numbers as the scanner reads them: a run of digits, no sign.
use vstd::prelude::*;
use crate::text::{is_digit, digit_value, is_decimal_digit};

verus! {

pub open spec fn all_digits(s: Seq<char>) -> bool {
    forall|i: int| 0 <= i < s.len() ==> is_digit(#[trigger] s[i])
}

/// The number that a run of decimal digits denotes, leading zeros allowed.
pub open spec fn decimal_value(s: Seq<char>) -> int
    decreases s.len(),
{
    if s.len() == 0 {
        0
    } else {
        10 * decimal_value(s.drop_last()) + digit_value(s.last())
    }
}

/// What a digit buffer reads as: a number, if the buffer is a non-empty run
/// of digits whose value fits in an `i32`.
pub open spec fn parsed_number(s: Seq<char>) -> Option<int> {
    if s.len() > 0 && all_digits(s) && decimal_value(s) <= i32::MAX {
        Some(decimal_value(s))
    } else {
        None
    }
}

/// A run of digits never denotes a negative number.
pub proof fn lemma_decimal_value_nonnegative(s: Seq<char>)
    requires
        all_digits(s),
    ensures
        decimal_value(s) >= 0,
    decreases s.len(),
{
    if s.len() > 0 {
        assert(is_digit(s[s.len() - 1]));
        assert forall|i: int| 0 <= i < s.drop_last().len() implies is_digit(
            #[trigger] s.drop_last()[i],
        ) by {
            assert(s.drop_last()[i] == s[i]);
        }
        lemma_decimal_value_nonnegative(s.drop_last());
    }
}

/// Reads a digit buffer as a number.
pub fn parse_number(digits: &Vec<char>) -> (r: Option<i32>)
    ensures
        match r {
            Some(v) => parsed_number(digits@) == Some(v as int),
            None => parsed_number(digits@) is None,
        },
{
    if digits.len() == 0 {
        return None;
    }
    let mut value: i32 = 0;
    let mut fits: bool = true;
    let mut i: usize = 0;
    while i < digits.len()
        invariant
            i <= digits.len(),
            all_digits(digits@.take(i as int)),
            fits ==> value == decimal_value(digits@.take(i as int)),
            fits ==> value >= 0,
            !fits ==> decimal_value(digits@.take(i as int)) > i32::MAX,
        decreases digits.len() - i,
    {
        let c: char = digits[i];
        if !is_decimal_digit(c) {
            proof {
                assert(!is_digit(digits@[i as int]));
            }
            return None;
        }
        let d: i32 = (c as u32 - '0' as u32) as i32;
        proof {
            let next = digits@.take(i + 1);
            assert(next.drop_last() =~= digits@.take(i as int));
            assert(next.last() == c);
            assert(d == digit_value(c));
            assert forall|k: int| 0 <= k < next.len() implies is_digit(#[trigger] next[k]) by {
                if k < i {
                    assert(digits@.take(i as int)[k] == next[k]);
                }
            }
        }
        if fits && value <= (i32::MAX - d) / 10 {
            value = value * 10 + d;
        } else {
            fits = false;
        }
        i += 1;
    }
    proof {
        assert(digits@.take(i as int) =~= digits@);
    }
    if fits {
        Some(value)
    } else {
        None
    }
}

} // verus!
