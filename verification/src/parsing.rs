//! Parsing and rolling a whole expression.
use vstd::prelude::*;
use vstd::string::StringExecFns;
use crate::machine::{Fault, Progress, Scanner, run, step, follows};
use crate::text::{stripped, strip_whitespace};
use crate::terms::tallied;
use crate::pattern::Groups;
use crate::cover::{covers, covers_text};
use crate::splits::{pieces, pieces_text, tally_pieces, split_behind_operators, roll_pieces};
use crate::pattern::{
    pattern_captures, term_pattern_text, term_pattern, tally_captures, find_captures, roll_captures,
    captures_text,
};

verus! {

/// Errors that may arise during the parsing of a dice roll string.
#[derive(Debug)]
pub enum Error {
    /// The text is no dice notation, or holds a number too large to read,
    /// or its total leaves the range of an `i32`.
    ParseError(String),
    /// The text is well formed, but asks for a die without sides.
    DieSideCountError(String),
}

/// `String::push` puts one character at the end of the string, as std
/// documents it.
pub assume_specification[ String::push ](s: &mut String, ch: char)
    ensures
        final(s)@ == old(s)@.push(ch),
;

/// The description that an error carries for a fault.
pub open spec fn message(fault: Fault) -> Seq<char> {
    match fault {
        Fault::UnexpectedAtTermStart(c) => "Unexpected character when looking for a new term: "@.push(
            c,
        ),
        Fault::UnexpectedInNumber(c) => "Unexpected character when parsing number: "@.push(c),
        Fault::UnexpectedInSideCount(c) => "Unexpected character when parsing die type: "@.push(c),
        Fault::UnreadableMultiplier(buffer) => "Failed to parse multiplier: "@ + buffer,
        Fault::UnreadableNumber(buffer) => "Failed to parse number: "@ + buffer,
        Fault::UnreadableSideCount(buffer) => "Failed to parse die type: "@ + buffer,
        Fault::SideCountTooSmall => "Die side-count should be at least 1. Instead, it was 0"@,
        Fault::TotalOutOfRange => "The total does not fit in 32 bits"@,
        Fault::PatternRefused => "The term pattern was refused"@,
        Fault::NotAnExpression => "The text is no dice notation"@,
    }
}

/// `error` is the error that reports `fault`: a die without sides is a
/// `DieSideCountError`, every other fault a `ParseError`.
pub open spec fn describes(error: Error, fault: Fault) -> bool {
    match fault {
        Fault::SideCountTooSmall => error matches Error::DieSideCountError(m) && m@ == message(
            fault,
        ),
        _ => error matches Error::ParseError(m) && m@ == message(fault),
    }
}

/// A description that is a fixed text.
pub fn note(text: &str) -> (m: String)
    ensures
        m@ == text@,
{
    String::from_str(text)
}

/// A description that names a character.
pub fn note_char(prefix: &str, c: char) -> (m: String)
    ensures
        m@ == prefix@.push(c),
{
    let mut m = String::from_str(prefix);
    m.push(c);
    m
}

/// A description that quotes a buffer.
pub fn note_buffer(prefix: &str, buffer: &Vec<char>) -> (m: String)
    ensures
        m@ == prefix@ + buffer@,
{
    let mut m = String::from_str(prefix);
    let mut i: usize = 0;
    while i < buffer.len()
        invariant
            i <= buffer.len(),
            m@ == prefix@ + buffer@.take(i as int),
        decreases buffer.len() - i,
    {
        m.push(buffer[i]);
        proof {
            assert(buffer@.take(i + 1) =~= buffer@.take(i as int).push(buffer@[i as int]));
            assert((prefix@ + buffer@.take(i as int)).push(buffer@[i as int]) =~= prefix@
                + buffer@.take(i + 1));
        }
        i += 1;
    }
    proof {
        assert(buffer@.take(i as int) =~= buffer@);
    }
    m
}

/// `r` is what a parse hands back where the model of its scan says
/// `progress`: the total of a scan that ran to its end, else the error that
/// reports its fault.
pub open spec fn reports(r: Result<i32, Error>, progress: Progress) -> bool {
    match progress {
        Progress::Running(scan) => r is Ok && r->Ok_0 == scan.total,
        Progress::Failed(fault) => r is Err && describes(r->Err_0, fault),
        Progress::Unfair => false,
    }
}

/// A run that has stopped stays as it is, whatever follows.
pub proof fn lemma_first_fault_ends_run(chars: Seq<char>, tape: Seq<Seq<int>>, k: int)
    requires
        0 <= k <= chars.len(),
        tape.len() == chars.len(),
        !(run(chars.take(k), tape.take(k)) is Running),
    ensures
        run(chars, tape) == run(chars.take(k), tape.take(k)),
    decreases chars.len(),
{
    if k == chars.len() {
        assert(chars.take(k) =~= chars);
        assert(tape.take(k) =~= tape);
    } else {
        assert(chars.drop_last().take(k) =~= chars.take(k));
        assert(tape.drop_last().take(k) =~= tape.take(k));
        lemma_first_fault_ends_run(chars.drop_last(), tape.drop_last(), k);
    }
}

/// Feeds `chars` to a fresh scanner, one by one, up to the first fault.
pub fn scan(chars: &Vec<char>) -> (r: Result<Scanner, Error>)
    ensures
        exists|tape: Seq<Seq<int>>|
            tape.len() == chars@.len() && follows(r, #[trigger] run(chars@, tape)),
{
    let mut scanner = Scanner::new();
    let ghost mut tape: Seq<Seq<int>> = Seq::empty();
    let mut i: usize = 0;
    while i < chars.len()
        invariant
            i <= chars.len(),
            tape.len() == i,
            run(chars@.take(i as int), tape) == Progress::Running(scanner@),
        decreases chars.len() - i,
    {
        let c: char = chars[i];
        let ghost before = scanner@;
        let ghost so_far = tape;
        let r = scanner.feed(c);
        proof {
            let draws = choose|draws: Seq<int>| follows(r, #[trigger] step(before, c, draws));
            tape = so_far.push(draws);
            assert(tape.drop_last() =~= so_far);
            assert(chars@.take(i + 1).drop_last() =~= chars@.take(i as int));
            assert(follows(r, run(chars@.take(i + 1), tape)));
        }
        match r {
            Ok(next) => {
                scanner = next;
            },
            Err(error) => {
                proof {
                    let unused = Seq::new((chars.len() - i - 1) as nat, |j: int| Seq::<int>::empty());
                    let whole = tape + unused;
                    assert(whole.take(i + 1) =~= tape);
                    lemma_first_fault_ends_run(chars@, whole, i + 1);
                    assert(follows(Err(error), run(chars@, whole)));
                }
                return Err(error);
            },
        }
        i += 1;
    }
    proof {
        assert(chars@.take(i as int) =~= chars@);
    }
    Ok(scanner)
}

/// Parses a dice roll string in one pass over its characters, and rolls it.
///
/// Whitespace is dropped first, and a blank is put at the end, which ends
/// the last term. The result is the total of a scan of these characters
/// for some fair draws of the dice, or the error of the scan's first fault.
pub fn parse_roll_with_state_machine(input: &str) -> (r: Result<i32, Error>)
    ensures
        exists|tape: Seq<Seq<int>>|
            tape.len() == stripped(input@).len() + 1 && reports(
                r,
                #[trigger] run(stripped(input@).push(' '), tape),
            ),
{
    let mut chars = strip_whitespace(input);
    chars.push(' ');
    let scanned = scan(&chars);
    proof {
        let tape = choose|tape: Seq<Seq<int>>|
            tape.len() == chars@.len() && follows(scanned, #[trigger] run(chars@, tape));
        assert(follows(scanned, run(stripped(input@).push(' '), tape)));
    }
    match scanned {
        Ok(scanner) => Ok(scanner.total),
        Err(error) => Err(error),
    }
}

/// The characters of `chars` as a string.
pub fn to_text(chars: &Vec<char>) -> (text: String)
    ensures
        text@ == chars@,
{
    let mut text = String::new();
    let mut i: usize = 0;
    while i < chars.len()
        invariant
            i <= chars.len(),
            text@ == chars@.take(i as int),
        decreases chars.len() - i,
    {
        text.push(chars[i]);
        proof {
            assert(chars@.take(i + 1) =~= chars@.take(i as int).push(chars@[i as int]));
        }
        i += 1;
    }
    proof {
        assert(chars@.take(i as int) =~= chars@);
    }
    text
}

/// `r` is what the parse by pattern hands back where the search found
/// `captures` in `text`. Where the matches are the terms of the text, and
/// the text holds nothing else but operators, it is the tally of the
/// matched terms for some fair draws of the dice, or the error of the first
/// fault. On every other text it is a `ParseError`.
pub open spec fn tallies_captures(
    r: Result<i32, Error>,
    text: Seq<char>,
    captures: Option<Seq<Seq<Option<Seq<char>>>>>,
) -> bool {
    match captures {
        Some(found) => if covers(text, found) {
            exists|tape: Seq<Seq<int>>|
                tape.len() == found.len() && tallied(r, #[trigger] tally_captures(found, tape))
        } else {
            r is Err && describes(r->Err_0, Fault::NotAnExpression)
        },
        None => r is Err && describes(r->Err_0, Fault::PatternRefused),
    }
}

/// Rolls the terms that a search has found in `text`, if they are all that
/// the text holds besides operators, and refuses the text otherwise.
pub fn roll_matches(text: &Vec<char>, found: &Vec<Groups>) -> (r: Result<i32, Error>)
    ensures
        tallies_captures(r, text@, Some(captures_text(found@))),
{
    if covers_text(text, found) {
        let r = roll_captures(found);
        proof {
            let tape = choose|tape: Seq<Seq<int>>|
                tape.len() == found@.len() && tallied(
                    r,
                    #[trigger] tally_captures(captures_text(found@), tape),
                );
            assert(captures_text(found@).len() == tape.len());
        }
        r
    } else {
        Err(Error::ParseError(note("The text is no dice notation")))
    }
}

/// Parses a dice roll string by searching it for terms with a regular
/// expression, and rolls it.
///
/// Whitespace is dropped first. Every match of the term pattern is a term.
/// A text that holds anything but terms and operators is refused, as is
/// one with two terms and no operator between them: such a text is a
/// `ParseError` before any die is rolled, also where a term before the
/// fault asks for a die without sides.
pub fn parse_roll_with_regex(input: &str) -> (r: Result<i32, Error>)
    ensures
        tallies_captures(
            r,
            stripped(input@),
            pattern_captures(term_pattern_text(), stripped(input@)),
        ),
{
    let chars = strip_whitespace(input);
    let text = to_text(&chars);
    match find_captures(term_pattern(), text.as_str()) {
        Some(found) => roll_matches(&chars, &found),
        None => Err(Error::ParseError(note("The term pattern was refused"))),
    }
}

/// Parses a dice roll string by splitting it into its terms, and rolls it.
///
/// Whitespace is dropped first, and the rest is cut behind every operator.
/// The result is the tally of the pieces for some fair draws of the dice,
/// or the error of the first fault.
pub fn parse_roll_with_string_splits(input: &str) -> (r: Result<i32, Error>)
    ensures
        exists|tape: Seq<Seq<int>>|
            tape.len() == pieces(stripped(input@)).len() && tallied(
                r,
                #[trigger] tally_pieces(pieces(stripped(input@)), tape),
            ),
{
    let chars = strip_whitespace(input);
    let list = split_behind_operators(&chars);
    let r = roll_pieces(&list);
    proof {
        let tape = choose|tape: Seq<Seq<int>>|
            tape.len() == list@.len() && tallied(
                r,
                #[trigger] tally_pieces(pieces_text(list@), tape),
            );
        assert(pieces_text(list@).len() == tape.len());
        assert(tallied(r, tally_pieces(pieces(stripped(input@)), tape)));
    }
    r
}

} // verus!
