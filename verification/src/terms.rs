//! Single terms, taken as text and entered into a total: what the two
//! tokenizing parsers share.
use vstd::prelude::*;
use crate::number::{parsed_number, parse_number};
use crate::dice::{sum, fair_draws, roll_dice};
use crate::machine::{Operation, Fault, signed, apply_term};
use crate::parsing::{Error, describes, note, note_buffer};

verus! {

/// What entering terms into a total leads to.
pub enum Tally {
    /// All terms so far are in, and this is their signed sum.
    Total(int),
    /// The first fault, behind which no term was entered.
    Failed(Fault),
    /// The draws given are none that fair dice could show.
    Unfair,
}

/// `r` is what a parser hands back where the model says `tally`.
pub open spec fn tallied(r: Result<i32, Error>, tally: Tally) -> bool {
    match tally {
        Tally::Total(total) => r is Ok && r->Ok_0 == total,
        Tally::Failed(fault) => r is Err && describes(r->Err_0, fault),
        Tally::Unfair => false,
    }
}

/// A value enters the total under its sign, if an `i32` holds the result.
pub open spec fn tally_value(total: int, operation: Operation, value: int) -> Tally {
    let sum = total + signed(operation, value);
    if i32::MIN <= sum <= i32::MAX {
        Tally::Total(sum)
    } else {
        Tally::Failed(Fault::TotalOutOfRange)
    }
}

/// A scalar term, given by its digits, enters the total.
pub open spec fn tally_scalar(total: int, operation: Operation, digits: Seq<char>) -> Tally {
    match parsed_number(digits) {
        Some(value) => tally_value(total, operation, value),
        None => Tally::Failed(Fault::UnreadableNumber(digits)),
    }
}

/// The count of dice that a multiplier asks for: one where it is left out.
pub open spec fn dice_count(multiplier: Seq<char>) -> Option<int> {
    if multiplier.len() == 0 {
        Some(1)
    } else {
        parsed_number(multiplier)
    }
}

/// A die term, given by the digits before and behind its `d`, enters the
/// total with the sum of `draws`.
pub open spec fn tally_dice(
    total: int,
    operation: Operation,
    multiplier: Seq<char>,
    sides: Seq<char>,
    draws: Seq<int>,
) -> Tally {
    match dice_count(multiplier) {
        None => Tally::Failed(Fault::UnreadableMultiplier(multiplier)),
        Some(count) => match parsed_number(sides) {
            None => Tally::Failed(Fault::UnreadableSideCount(sides)),
            Some(faces) => if faces < 1 {
                Tally::Failed(Fault::SideCountTooSmall)
            } else if !fair_draws(draws, count, faces) {
                Tally::Unfair
            } else {
                tally_value(total, operation, sum(draws))
            },
        },
    }
}

/// Enters a value into the total.
pub fn add_value(total: i32, operation: Operation, value: i64) -> (r: Result<i32, Error>)
    ensures
        tallied(r, tally_value(total as int, operation, value as int)),
{
    match apply_term(total, operation, value) {
        Some(sum) => Ok(sum),
        None => Err(Error::ParseError(note("The total does not fit in 32 bits"))),
    }
}

/// Reads a scalar term and enters it into the total.
pub fn add_scalar(total: i32, operation: Operation, digits: &Vec<char>) -> (r: Result<i32, Error>)
    ensures
        tallied(r, tally_scalar(total as int, operation, digits@)),
{
    match parse_number(digits) {
        Some(value) => add_value(total, operation, value as i64),
        None => Err(Error::ParseError(note_buffer("Failed to parse number: ", digits))),
    }
}

/// Reads a die term, rolls its dice and enters their sum into the total.
pub fn add_dice(total: i32, operation: Operation, multiplier: &Vec<char>, sides: &Vec<char>) -> (r:
    Result<i32, Error>)
    ensures
        exists|draws: Seq<int>|
            tallied(
                r,
                #[trigger] tally_dice(total as int, operation, multiplier@, sides@, draws),
            ),
{
    let ghost mut draws: Seq<int> = Seq::empty();
    let count: Option<i32> = if multiplier.len() == 0 {
        Some(1)
    } else {
        parse_number(multiplier)
    };
    let r = match count {
        None => Err(Error::ParseError(note_buffer("Failed to parse multiplier: ", multiplier))),
        Some(count) => match parse_number(sides) {
            None => Err(Error::ParseError(note_buffer("Failed to parse die type: ", sides))),
            Some(faces) => {
                if faces < 1 {
                    Err(
                        Error::DieSideCountError(
                            note("Die side-count should be at least 1. Instead, it was 0"),
                        ),
                    )
                } else {
                    let value: i64 = roll_dice(count, faces);
                    proof {
                        draws = choose|d: Seq<int>|
                            fair_draws(d, count as int, faces as int) && value == sum(d);
                    }
                    add_value(total, operation, value)
                }
            },
        },
    };
    proof {
        assert(tallied(r, tally_dice(total as int, operation, multiplier@, sides@, draws)));
    }
    r
}

} // verus!
