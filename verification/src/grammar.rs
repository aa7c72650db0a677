//! The grammar of dice notation, and the proof that the scanner reads an
//! expression of that grammar term by term.
use vstd::prelude::*;
use crate::number::all_digits;
use crate::machine::{
    Scan, Phase, Operation, Progress, initial, step, run, ends_term, next_operation,
};
use crate::terms::{Tally, tally_scalar, tally_dice};

verus! {

/// A term: a scalar, given by its digits, or dice, given by the digits
/// before the `d`, which may be none, and the digits behind it; or nothing,
/// where an operator stands alone: at the start of the text, behind
/// another operator, or at the end.
pub enum Term {
    Nothing,
    Scalar(Seq<char>),
    Dice(Seq<char>, Seq<char>),
}

/// A term with the character that ends it: an operator, or the blank at
/// the end of the text.
pub struct Item {
    pub term: Term,
    pub end: char,
}

/// An item as the grammar wants it: digits where digits belong, at least
/// one in a scalar, and an end that ends a term.
pub open spec fn proper(item: Item) -> bool {
    &&& ends_term(item.end)
    &&& match item.term {
        Term::Nothing => true,
        Term::Scalar(digits) => digits.len() > 0 && all_digits(digits),
        Term::Dice(multiplier, sides) => all_digits(multiplier) && all_digits(sides),
    }
}

pub open spec fn term_text(term: Term) -> Seq<char> {
    match term {
        Term::Nothing => Seq::empty(),
        Term::Scalar(digits) => digits,
        Term::Dice(multiplier, sides) => multiplier.push('d') + sides,
    }
}

/// The characters of an item: its term, then its end.
pub open spec fn item_text(item: Item) -> Seq<char> {
    term_text(item.term).push(item.end)
}

/// The characters of a row of items.
pub open spec fn text_of(items: Seq<Item>) -> Seq<char>
    decreases items.len(),
{
    if items.len() == 0 {
        Seq::empty()
    } else {
        text_of(items.drop_last()) + item_text(items.last())
    }
}

/// The draws of each item of a row, picked from the draws beside its
/// characters: those beside the character that ends the item.
pub open spec fn rolls_of(items: Seq<Item>, tape: Seq<Seq<int>>) -> Seq<Seq<int>>
    decreases items.len(),
{
    if items.len() == 0 {
        Seq::empty()
    } else {
        rolls_of(items.drop_last(), tape.take(text_of(items.drop_last()).len() as int)).push(
            tape[text_of(items).len() - 1],
        )
    }
}

/// The pending operation behind a row of items, `Add` at the start.
pub open spec fn pending_after(items: Seq<Item>) -> Operation
    decreases items.len(),
{
    if items.len() == 0 {
        Operation::Add
    } else {
        next_operation(pending_after(items.drop_last()), items.last().end)
    }
}

/// One term enters the total.
pub open spec fn tally_item(total: int, pending: Operation, item: Item, draws: Seq<int>) -> Tally {
    match item.term {
        Term::Nothing => Tally::Total(total),
        Term::Scalar(digits) => tally_scalar(total, pending, digits),
        Term::Dice(multiplier, sides) => tally_dice(total, pending, multiplier, sides, draws),
    }
}

/// The signed sum of a row of terms, each under the operator that ends the
/// term before it, as long as an `i32` holds it; or the first fault.
pub open spec fn tally_items(items: Seq<Item>, rolls: Seq<Seq<int>>) -> Tally
    decreases items.len(),
{
    if items.len() == 0 {
        Tally::Total(0)
    } else {
        match tally_items(items.drop_last(), rolls.drop_last()) {
            Tally::Total(total) => tally_item(
                total,
                pending_after(items.drop_last()),
                items.last(),
                rolls.last(),
            ),
            stopped => stopped,
        }
    }
}

/// Where a scanner stands behind a term that has entered the total, or
/// failed to.
pub open spec fn behind_term(tally: Tally, pending: Operation) -> Progress {
    match tally {
        Tally::Total(total) => Progress::Running(Scan { phase: Phase::NewTerm, pending, total }),
        Tally::Failed(fault) => Progress::Failed(fault),
        Tally::Unfair => Progress::Unfair,
    }
}

/// A run that starts in any configuration.
pub open spec fn run_from(start: Scan, chars: Seq<char>, tape: Seq<Seq<int>>) -> Progress
    decreases chars.len(),
{
    if chars.len() == 0 {
        Progress::Running(start)
    } else {
        match run_from(start, chars.drop_last(), tape.drop_last()) {
            Progress::Running(scan) => step(scan, chars.last(), tape.last()),
            stopped => stopped,
        }
    }
}

/// A run is a run from the initial configuration.
pub proof fn lemma_run_starts_fresh(chars: Seq<char>, tape: Seq<Seq<int>>)
    ensures
        run(chars, tape) == run_from(initial(), chars, tape),
    decreases chars.len(),
{
    if chars.len() > 0 {
        lemma_run_starts_fresh(chars.drop_last(), tape.drop_last());
    }
}

/// A run over two texts in a row is a run over the first, and from where
/// that ends a run over the second.
pub proof fn lemma_run_in_two_parts(
    start: Scan,
    a: Seq<char>,
    ta: Seq<Seq<int>>,
    b: Seq<char>,
    tb: Seq<Seq<int>>,
)
    requires
        ta.len() == a.len(),
        tb.len() == b.len(),
    ensures
        run_from(start, a + b, ta + tb) == match run_from(start, a, ta) {
            Progress::Running(mid) => run_from(mid, b, tb),
            stopped => stopped,
        },
    decreases b.len(),
{
    if b.len() == 0 {
        assert(a + b =~= a);
        assert(ta + tb =~= ta);
    } else {
        assert((a + b).drop_last() =~= a + b.drop_last());
        assert((ta + tb).drop_last() =~= ta + tb.drop_last());
        assert((a + b).last() == b.last());
        assert((ta + tb).last() == tb.last());
        lemma_run_in_two_parts(start, a, ta, b.drop_last(), tb.drop_last());
    }
}

/// The phase in which digits leave a scanner.
pub open spec fn with_digits(phase: Phase, digits: Seq<char>) -> Phase {
    match phase {
        Phase::NewTerm => if digits.len() == 0 {
            Phase::NewTerm
        } else {
            Phase::Number(digits)
        },
        Phase::Number(buffer) => Phase::Number(buffer + digits),
        Phase::Sides(count, buffer) => Phase::Sides(count, buffer + digits),
    }
}

/// Digits are buffered, and nothing else happens.
pub proof fn lemma_digits_are_buffered(start: Scan, digits: Seq<char>, tape: Seq<Seq<int>>)
    requires
        all_digits(digits),
    ensures
        run_from(start, digits, tape) == Progress::Running(
            Scan { phase: with_digits(start.phase, digits), ..start },
        ),
    decreases digits.len(),
{
    if digits.len() == 0 {
        match start.phase {
            Phase::NewTerm => {},
            Phase::Number(buffer) => {
                assert(buffer + digits =~= buffer);
            },
            Phase::Sides(count, buffer) => {
                assert(buffer + digits =~= buffer);
            },
        }
    } else {
        let front = digits.drop_last();
        let c = digits.last();
        assert(crate::text::is_digit(digits[digits.len() - 1]));
        assert forall|i: int| 0 <= i < front.len() implies crate::text::is_digit(
            #[trigger] front[i],
        ) by {
            assert(front[i] == digits[i]);
        }
        lemma_digits_are_buffered(start, front, tape.drop_last());
        match start.phase {
            Phase::NewTerm => {
                if front.len() == 0 {
                    assert(digits =~= seq![c]);
                } else {
                    assert(front.push(c) =~= digits);
                }
            },
            Phase::Number(buffer) => {
                assert((buffer + front).push(c) =~= buffer + digits);
            },
            Phase::Sides(count, buffer) => {
                assert((buffer + front).push(c) =~= buffer + digits);
            },
        }
    }
}

/// From the start of a term, the scanner reads one proper item as the
/// grammar means it, with the draws beside the item's end.
pub proof fn lemma_scanner_reads_item(start: Scan, item: Item, tape: Seq<Seq<int>>)
    requires
        start.phase == Phase::NewTerm,
        proper(item),
        tape.len() == item_text(item).len(),
    ensures
        run_from(start, item_text(item), tape) == behind_term(
            tally_item(start.total, start.pending, item, tape.last()),
            next_operation(start.pending, item.end),
        ),
{
    let text = item_text(item);
    let body = term_text(item.term);
    assert(text.drop_last() =~= body);
    assert(text.last() == item.end);
    match item.term {
        Term::Nothing => {
            assert(text.drop_last().len() == 0);
            assert(run_from(start, text.drop_last(), tape.drop_last()) == Progress::Running(start));
        },
        Term::Scalar(digits) => {
            lemma_digits_are_buffered(start, digits, tape.drop_last());
        },
        Term::Dice(multiplier, sides) => {
            let head = multiplier.push('d');
            let head_tape = tape.drop_last().take(head.len() as int);
            let sides_tape = tape.drop_last().skip(head.len() as int);
            assert(tape.drop_last() =~= head_tape + sides_tape);
            lemma_run_in_two_parts(start, head, head_tape, sides, sides_tape);
            assert(head.drop_last() =~= multiplier);
            assert(head.last() == 'd');
            lemma_digits_are_buffered(start, multiplier, head_tape.drop_last());
            match run_from(start, head, head_tape) {
                Progress::Running(mid) => {
                    lemma_digits_are_buffered(mid, sides, sides_tape);
                    assert(Seq::<char>::empty() + sides =~= sides);
                },
                _ => {},
            }
        },
    }
}

/// The scanner reads an expression of the grammar term by term: fed the
/// characters of a row of proper items, it ends at the start of a term
/// with the signed sum of the terms as its total, or at the fault of the
/// first term that has one.
pub proof fn lemma_scanner_reads_expression(items: Seq<Item>, tape: Seq<Seq<int>>)
    requires
        forall|i: int| 0 <= i < items.len() ==> proper(#[trigger] items[i]),
        tape.len() == text_of(items).len(),
    ensures
        rolls_of(items, tape).len() == items.len(),
        run(text_of(items), tape) == behind_term(
            tally_items(items, rolls_of(items, tape)),
            pending_after(items),
        ),
    decreases items.len(),
{
    lemma_run_starts_fresh(text_of(items), tape);
    if items.len() > 0 {
        let front = items.drop_last();
        let last = items.last();
        let k = text_of(front).len() as int;
        let front_tape = tape.take(k);
        let last_tape = tape.skip(k);
        assert forall|i: int| 0 <= i < front.len() implies proper(#[trigger] front[i]) by {
            assert(front[i] == items[i]);
        }
        assert(proper(items[items.len() - 1]));
        assert(tape =~= front_tape + last_tape);
        assert(last_tape.last() == tape[text_of(items).len() - 1]);
        lemma_scanner_reads_expression(front, front_tape);
        lemma_run_starts_fresh(text_of(front), front_tape);
        lemma_run_in_two_parts(initial(), text_of(front), front_tape, item_text(last), last_tape);
        let rolls = rolls_of(items, tape);
        assert(rolls.drop_last() =~= rolls_of(front, front_tape));
        match tally_items(front, rolls.drop_last()) {
            Tally::Total(total) => {
                let mid = Scan {
                    phase: Phase::NewTerm,
                    pending: pending_after(front),
                    total,
                };
                lemma_scanner_reads_item(mid, last, last_tape);
            },
            _ => {},
        }
    }
}

} // verus!
