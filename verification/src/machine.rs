//! The scanner's state machine: one character in, one transition out.
//!
//! The model of a run is [`run`]: the characters fed so far, and beside each
//! character the draws that were made when it closed a die term.
use vstd::prelude::*;
use crate::text::{is_digit, is_decimal_digit};
use crate::number::{parsed_number, parse_number, all_digits, lemma_decimal_value_nonnegative};
use crate::dice::{sum, fair_draws, roll_dice};
use crate::parsing::{Error, describes, note_char, note_buffer, note};

verus! {

/// The sign that the next completed term gets.
#[derive(Debug, Clone, Copy, PartialEq, Eq, Structural)]
pub enum Operation {
    Add,
    Subtract,
}

/// Where the scanner stands between two characters.
#[derive(Debug)]
pub enum State {
    /// At the start of a term, or at an operator: nothing is buffered.
    NewTerm,
    /// Inside a run of digits that is a scalar, or the count of a die term.
    ParsingNumber(Vec<char>),
    /// Behind the `d` of a die term: the count of dice, and the digits of
    /// the side count read so far.
    ParsingDieSideCount(i32, Vec<char>),
}

/// A [`State`] as a mathematical value.
pub enum Phase {
    NewTerm,
    Number(Seq<char>),
    Sides(int, Seq<char>),
}

impl View for State {
    type V = Phase;

    open spec fn view(&self) -> Phase {
        match self {
            State::NewTerm => Phase::NewTerm,
            State::ParsingNumber(buffer) => Phase::Number(buffer@),
            State::ParsingDieSideCount(count, buffer) => Phase::Sides(*count as int, buffer@),
        }
    }
}

/// All that a scan carries from one character to the next.
pub struct Scanner {
    pub state: State,
    pub operation: Operation,
    pub total: i32,
}

/// A [`Scanner`] as a mathematical value.
pub struct Scan {
    pub phase: Phase,
    pub pending: Operation,
    pub total: int,
}

impl View for Scanner {
    type V = Scan;

    open spec fn view(&self) -> Scan {
        Scan { phase: self.state@, pending: self.operation, total: self.total as int }
    }
}

/// Why a scan stopped short of a total.
pub enum Fault {
    /// A character that can neither start a term nor is an operator.
    UnexpectedAtTermStart(char),
    /// A character that can neither continue nor end a number.
    UnexpectedInNumber(char),
    /// A character that can neither continue nor end a side count.
    UnexpectedInSideCount(char),
    /// A count of dice that is too large to read.
    UnreadableMultiplier(Seq<char>),
    /// A scalar that is too large to read.
    UnreadableNumber(Seq<char>),
    /// A side count that is missing, or too large to read.
    UnreadableSideCount(Seq<char>),
    /// A die with no side.
    SideCountTooSmall,
    /// A total that an `i32` cannot hold.
    TotalOutOfRange,
    /// A term pattern that the pattern search does not take.
    PatternRefused,
    /// A text that holds more than terms and operators, or terms without
    /// an operator between them.
    NotAnExpression,
}

/// What feeding characters to a scanner leads to.
pub enum Progress {
    /// The scan goes on, or has ended well, in this configuration.
    Running(Scan),
    /// The scan has stopped at the first fault.
    Failed(Fault),
    /// The draws given are none that fair dice could show: no scan ends here.
    Unfair,
}

/// The configuration in which every scan starts.
pub open spec fn initial() -> Scan {
    Scan { phase: Phase::NewTerm, pending: Operation::Add, total: 0 }
}

/// The characters that end a term: the two operators, and the blank that
/// stands for the end of the input.
pub open spec fn ends_term(c: char) -> bool {
    c == '+' || c == '-' || c == ' '
}

/// The pending operation behind a character that ends a term or stands
/// between terms.
pub open spec fn next_operation(pending: Operation, c: char) -> Operation {
    if c == '+' {
        Operation::Add
    } else if c == '-' {
        Operation::Subtract
    } else {
        pending
    }
}

/// A term's value under its sign.
pub open spec fn signed(operation: Operation, value: int) -> int {
    match operation {
        Operation::Add => value,
        Operation::Subtract => -value,
    }
}

/// A completed term of value `value`, ended by `c`, enters the total.
pub open spec fn settle(pending: Operation, total: int, value: int, c: char) -> Progress {
    let sum = total + signed(pending, value);
    if i32::MIN <= sum <= i32::MAX {
        Progress::Running(
            Scan { phase: Phase::NewTerm, pending: next_operation(pending, c), total: sum },
        )
    } else {
        Progress::Failed(Fault::TotalOutOfRange)
    }
}

/// One transition: the scanner in configuration `scan` reads `c`. Where `c`
/// ends a die term, `draws` are the faces that its dice show; elsewhere
/// `draws` is not looked at.
pub open spec fn step(scan: Scan, c: char, draws: Seq<int>) -> Progress {
    match scan.phase {
        Phase::NewTerm => {
            if is_digit(c) {
                Progress::Running(Scan { phase: Phase::Number(seq![c]), ..scan })
            } else if c == 'd' {
                Progress::Running(Scan { phase: Phase::Sides(1, Seq::empty()), ..scan })
            } else if ends_term(c) {
                Progress::Running(Scan { pending: next_operation(scan.pending, c), ..scan })
            } else {
                Progress::Failed(Fault::UnexpectedAtTermStart(c))
            }
        },
        Phase::Number(buffer) => {
            if is_digit(c) {
                Progress::Running(Scan { phase: Phase::Number(buffer.push(c)), ..scan })
            } else if c == 'd' {
                match parsed_number(buffer) {
                    Some(count) => Progress::Running(
                        Scan { phase: Phase::Sides(count, Seq::empty()), ..scan },
                    ),
                    None => Progress::Failed(Fault::UnreadableMultiplier(buffer)),
                }
            } else if ends_term(c) {
                match parsed_number(buffer) {
                    Some(value) => settle(scan.pending, scan.total, value, c),
                    None => Progress::Failed(Fault::UnreadableNumber(buffer)),
                }
            } else {
                Progress::Failed(Fault::UnexpectedInNumber(c))
            }
        },
        Phase::Sides(count, buffer) => {
            if is_digit(c) {
                Progress::Running(Scan { phase: Phase::Sides(count, buffer.push(c)), ..scan })
            } else if ends_term(c) {
                match parsed_number(buffer) {
                    Some(sides) => if sides < 1 {
                        Progress::Failed(Fault::SideCountTooSmall)
                    } else if !fair_draws(draws, count, sides) {
                        Progress::Unfair
                    } else {
                        settle(scan.pending, scan.total, sum(draws), c)
                    },
                    None => Progress::Failed(Fault::UnreadableSideCount(buffer)),
                }
            } else {
                Progress::Failed(Fault::UnexpectedInSideCount(c))
            }
        },
    }
}

/// A whole run: `chars` are fed one by one to a fresh scanner, and
/// `tape[i]` are the draws made at `chars[i]`. The first fault ends the run.
pub open spec fn run(chars: Seq<char>, tape: Seq<Seq<int>>) -> Progress
    decreases chars.len(),
{
    if chars.len() == 0 {
        Progress::Running(initial())
    } else {
        match run(chars.drop_last(), tape.drop_last()) {
            Progress::Running(scan) => step(scan, chars.last(), tape.last()),
            stopped => stopped,
        }
    }
}

/// What a configuration needs to be one that a scan can reach: buffers hold
/// digits only, a number has at least one digit, and no count is negative.
pub open spec fn well_formed(scan: Scan) -> bool {
    match scan.phase {
        Phase::NewTerm => true,
        Phase::Number(buffer) => buffer.len() > 0 && all_digits(buffer),
        Phase::Sides(count, buffer) => count >= 0 && all_digits(buffer),
    }
}

/// A transition leads from a well-formed configuration to a well-formed one.
pub proof fn lemma_step_keeps_well_formed(scan: Scan, c: char, draws: Seq<int>)
    requires
        well_formed(scan),
    ensures
        step(scan, c, draws) matches Progress::Running(next) ==> well_formed(next),
{
    match scan.phase {
        Phase::NewTerm => {},
        Phase::Number(buffer) => {
            lemma_decimal_value_nonnegative(buffer);
            assert(all_digits(Seq::<char>::empty()));
        },
        Phase::Sides(count, buffer) => {},
    }
}

/// `r` is what a scanner hands back where the model says `progress`.
pub open spec fn follows(r: Result<Scanner, Error>, progress: Progress) -> bool {
    match progress {
        Progress::Running(scan) => r is Ok && r->Ok_0@ == scan,
        Progress::Failed(fault) => r is Err && describes(r->Err_0, fault),
        Progress::Unfair => false,
    }
}

/// Adds a term's value to the total, or takes it away, if the result fits.
pub fn apply_term(total: i32, operation: Operation, value: i64) -> (r: Option<i32>)
    ensures
        r == if i32::MIN <= total + signed(operation, value as int) <= i32::MAX {
            Some((total + signed(operation, value as int)) as i32)
        } else {
            None::<i32>
        },
{
    let wide: i64 = total as i64;
    let sum: Option<i64> = match operation {
        Operation::Add => wide.checked_add(value),
        Operation::Subtract => wide.checked_sub(value),
    };
    match sum {
        Some(sum) => if -0x8000_0000 <= sum && sum <= 0x7fff_ffff {
            Some(sum as i32)
        } else {
            None
        },
        None => None,
    }
}

/// The pending operation behind `c`.
pub fn operation_after(pending: Operation, c: char) -> (next: Operation)
    ensures
        next == next_operation(pending, c),
{
    if c == '+' {
        Operation::Add
    } else if c == '-' {
        Operation::Subtract
    } else {
        pending
    }
}

/// Enters a completed term into the total and turns to the next term.
pub fn settle_term(operation: Operation, total: i32, value: i64, c: char) -> (r: Result<
    Scanner,
    Error,
>)
    ensures
        follows(r, settle(operation, total as int, value as int, c)),
{
    match apply_term(total, operation, value) {
        Some(sum) => Ok(
            Scanner { state: State::NewTerm, operation: operation_after(operation, c), total: sum },
        ),
        None => Err(Error::ParseError(note("The total does not fit in 32 bits"))),
    }
}

impl Scanner {
    /// A scanner that has read nothing.
    pub fn new() -> (s: Scanner)
        ensures
            s@ == initial(),
            well_formed(s@),
    {
        Scanner { state: State::NewTerm, operation: Operation::Add, total: 0 }
    }

    /// Reads one character. Where it ends a die term, the dice are rolled
    /// here; the result is then what [`step`] gives for the faces that came.
    /// A well-formed scanner stays well formed.
    pub fn feed(self, c: char) -> (r: Result<Scanner, Error>)
        ensures
            exists|draws: Seq<int>| follows(r, #[trigger] step(self@, c, draws)),
            well_formed(self@) && r is Ok ==> well_formed(r->Ok_0@),
    {
        let ghost before = self@;
        let Scanner { state, operation, total } = self;
        let ends: bool = c == '+' || c == '-' || c == ' ';
        let ghost mut draws: Seq<int> = Seq::empty();
        let r = match state {
            State::NewTerm => {
                if is_decimal_digit(c) {
                    let mut buffer: Vec<char> = Vec::new();
                    buffer.push(c);
                    assert(buffer@ =~= seq![c]);
                    Ok(Scanner { state: State::ParsingNumber(buffer), operation, total })
                } else if c == 'd' {
                    Ok(Scanner { state: State::ParsingDieSideCount(1, Vec::new()), operation, total })
                } else if ends {
                    Ok(Scanner { state: State::NewTerm, operation: operation_after(operation, c), total })
                } else {
                    Err(
                        Error::ParseError(
                            note_char("Unexpected character when looking for a new term: ", c),
                        ),
                    )
                }
            },
            State::ParsingNumber(buffer) => {
                if is_decimal_digit(c) {
                    let mut buffer = buffer;
                    buffer.push(c);
                    Ok(Scanner { state: State::ParsingNumber(buffer), operation, total })
                } else if c == 'd' {
                    match parse_number(&buffer) {
                        Some(count) => Ok(
                            Scanner {
                                state: State::ParsingDieSideCount(count, Vec::new()),
                                operation,
                                total,
                            },
                        ),
                        None => Err(
                            Error::ParseError(note_buffer("Failed to parse multiplier: ", &buffer)),
                        ),
                    }
                } else if ends {
                    match parse_number(&buffer) {
                        Some(value) => settle_term(operation, total, value as i64, c),
                        None => Err(
                            Error::ParseError(note_buffer("Failed to parse number: ", &buffer)),
                        ),
                    }
                } else {
                    Err(Error::ParseError(note_char("Unexpected character when parsing number: ", c)))
                }
            },
            State::ParsingDieSideCount(count, buffer) => {
                if is_decimal_digit(c) {
                    let mut buffer = buffer;
                    buffer.push(c);
                    Ok(Scanner { state: State::ParsingDieSideCount(count, buffer), operation, total })
                } else if ends {
                    match parse_number(&buffer) {
                        Some(sides) => {
                            if sides < 1 {
                                Err(
                                    Error::DieSideCountError(
                                        note("Die side-count should be at least 1. Instead, it was 0"),
                                    ),
                                )
                            } else {
                                let value: i64 = roll_dice(count, sides);
                                proof {
                                    draws = choose|d: Seq<int>|
                                        fair_draws(d, count as int, sides as int) && value == sum(d);
                                }
                                settle_term(operation, total, value, c)
                            }
                        },
                        None => Err(
                            Error::ParseError(note_buffer("Failed to parse die type: ", &buffer)),
                        ),
                    }
                } else {
                    Err(
                        Error::ParseError(note_char("Unexpected character when parsing die type: ", c)),
                    )
                }
            },
        };
        proof {
            assert(follows(r, step(before, c, draws)));
            if well_formed(before) {
                lemma_step_keeps_well_formed(before, c, draws);
            }
        }
        r
    }
}

} // verus!
