//! What holds of every scan, proved over the model of the state machine.
use vstd::prelude::*;
use crate::text::{is_space, stripped, lemma_whitespace_is_insignificant};
use crate::number::parsed_number;
use crate::dice::{sum, fair_draws, dice_asked, lemma_sum_of_fair_draws};
use crate::machine::{
    Scan, Phase, Fault, Progress, initial, step, run, well_formed, ends_term, signed,
    lemma_step_keeps_well_formed,
};

use crate::terms::Tally;
use crate::splits::tally_pieces;
use crate::pattern::tally_captures;

verus! {

/// The model of a parse of `input`: the scan of its characters without the
/// whitespace, closed by a blank.
pub open spec fn scan_of(input: Seq<char>, tape: Seq<Seq<int>>) -> Progress {
    run(stripped(input).push(' '), tape)
}

/// Every configuration that a run reaches is well formed.
pub proof fn lemma_run_is_well_formed(chars: Seq<char>, tape: Seq<Seq<int>>)
    ensures
        run(chars, tape) matches Progress::Running(scan) ==> well_formed(scan),
    decreases chars.len(),
{
    if chars.len() > 0 {
        lemma_run_is_well_formed(chars.drop_last(), tape.drop_last());
        match run(chars.drop_last(), tape.drop_last()) {
            Progress::Running(scan) => {
                lemma_step_keeps_well_formed(scan, chars.last(), tape.last());
            },
            _ => {},
        }
    }
}

/// A total is touched only by a completed term: a transition that fails
/// leaves none behind, and one that stays inside a term keeps the total.
pub proof fn lemma_total_changes_at_term_ends_only(scan: Scan, c: char, draws: Seq<int>)
    ensures
        step(scan, c, draws) matches Progress::Running(next) ==> (next.total == scan.total
            || next.phase == Phase::NewTerm),
{
}

/// The blank at the end flushes the last term: a run that ends with a blank
/// and has not failed stands at the start of a term, with nothing buffered.
pub proof fn lemma_blank_flushes_last_term(chars: Seq<char>, tape: Seq<Seq<int>>)
    ensures
        run(chars.push(' '), tape) matches Progress::Running(scan) ==> scan.phase == Phase::NewTerm,
{
    let all = chars.push(' ');
    assert(all.last() == ' ');
}

/// The dice decide the total and nothing else. Take two runs over the same
/// characters, with draws that fair dice can show, neither of which leaves
/// the range of an `i32`: both succeed or both fail, a failure is the same
/// fault in both, and a success ends in the same state with the same
/// pending operation.
pub proof fn lemma_validity_does_not_depend_on_dice(
    chars: Seq<char>,
    first: Seq<Seq<int>>,
    second: Seq<Seq<int>>,
)
    requires
        run(chars, first) != Progress::Unfair,
        run(chars, second) != Progress::Unfair,
        run(chars, first) != Progress::Failed(Fault::TotalOutOfRange),
        run(chars, second) != Progress::Failed(Fault::TotalOutOfRange),
    ensures
        run(chars, first) is Running <==> run(chars, second) is Running,
        run(chars, first) is Failed ==> run(chars, first) == run(chars, second),
        run(chars, first) matches Progress::Running(a) ==> (run(chars, second) matches Progress::Running(
            b,
        ) && a.phase == b.phase && a.pending == b.pending),
    decreases chars.len(),
{
    if chars.len() > 0 {
        lemma_validity_does_not_depend_on_dice(
            chars.drop_last(),
            first.drop_last(),
            second.drop_last(),
        );
    }
}

/// Whitespace means nothing: a whitespace character put anywhere into a
/// text leaves the model of its parse as it was, for all draws.
pub proof fn lemma_whitespace_does_not_change_scan(
    before: Seq<char>,
    w: char,
    after: Seq<char>,
    tape: Seq<Seq<int>>,
)
    requires
        is_space(w),
    ensures
        scan_of(before.push(w) + after, tape) == scan_of(before + after, tape),
{
    lemma_whitespace_is_insignificant(before, w, after);
}

/// An empty text, or one of whitespace only, scans to the total 0.
pub proof fn lemma_nothing_scans_to_zero(input: Seq<char>, tape: Seq<Seq<int>>)
    requires
        stripped(input).len() == 0,
    ensures
        scan_of(input, tape) == Progress::Running(initial()),
{
    let chars = stripped(input).push(' ');
    assert(chars.last() == ' ');
    assert(chars.drop_last().len() == 0);
    assert(run(chars.drop_last(), tape.drop_last()) == Progress::Running(initial()));
}

/// What the term that `c` completes is worth, under its sign: the number
/// of a scalar, the sum of the draws of a die term, and 0 where `c`
/// completes no term.
pub open spec fn term_value(scan: Scan, c: char, draws: Seq<int>) -> int {
    if !ends_term(c) {
        0
    } else {
        match scan.phase {
            Phase::NewTerm => 0,
            Phase::Number(buffer) => match parsed_number(buffer) {
                Some(value) => signed(scan.pending, value),
                None => 0,
            },
            Phase::Sides(count, buffer) => signed(scan.pending, sum(draws)),
        }
    }
}

/// The signed sum of the terms that a run has completed.
pub open spec fn signed_sum_of_terms(chars: Seq<char>, tape: Seq<Seq<int>>) -> int
    decreases chars.len(),
{
    if chars.len() == 0 {
        0
    } else {
        signed_sum_of_terms(chars.drop_last(), tape.drop_last()) + match run(
            chars.drop_last(),
            tape.drop_last(),
        ) {
            Progress::Running(scan) => term_value(scan, chars.last(), tape.last()),
            _ => 0,
        }
    }
}

/// The total of a run that has not failed is the signed sum of its terms:
/// each scalar counts as its number, each die term as the sum of its draws,
/// each under the operator before it.
pub proof fn lemma_total_is_signed_sum_of_terms(chars: Seq<char>, tape: Seq<Seq<int>>)
    ensures
        run(chars, tape) matches Progress::Running(scan) ==> scan.total == signed_sum_of_terms(
            chars,
            tape,
        ),
    decreases chars.len(),
{
    if chars.len() > 0 {
        lemma_total_is_signed_sum_of_terms(chars.drop_last(), tape.drop_last());
    }
}

/// A die term moves the total by the sum of its draws: by no less than the
/// number of its dice, and by no more than that number times the number of
/// sides. No dice move it by nothing.
pub proof fn lemma_die_term_moves_total_within_bounds(scan: Scan, c: char, draws: Seq<int>)
    requires
        scan.phase is Sides,
        ends_term(c),
        step(scan, c, draws) is Running,
    ensures
        ({
            let count = scan.phase->Sides_0;
            let sides = parsed_number(scan.phase->Sides_1)->Some_0;
            let moved = signed(scan.pending, step(scan, c, draws)->Running_0.total - scan.total);
            &&& sides >= 1
            &&& fair_draws(draws, count, sides)
            &&& moved == sum(draws)
            &&& dice_asked(count) <= moved <= dice_asked(count) * sides
        }),
{
    let count = scan.phase->Sides_0;
    let sides = parsed_number(scan.phase->Sides_1)->Some_0;
    lemma_sum_of_fair_draws(draws, count, sides);
}

/// The dice decide the total and nothing else, for the parse by splitting
/// too: two tallies of the same pieces, with draws that fair dice can show
/// and totals that an `i32` holds, both succeed or both fail with the one
/// fault.
pub proof fn lemma_split_validity_does_not_depend_on_dice(
    list: Seq<Seq<char>>,
    first: Seq<Seq<int>>,
    second: Seq<Seq<int>>,
)
    requires
        tally_pieces(list, first) != Tally::Unfair,
        tally_pieces(list, second) != Tally::Unfair,
        tally_pieces(list, first) != Tally::Failed(Fault::TotalOutOfRange),
        tally_pieces(list, second) != Tally::Failed(Fault::TotalOutOfRange),
    ensures
        tally_pieces(list, first) is Total <==> tally_pieces(list, second) is Total,
        tally_pieces(list, first) is Failed ==> tally_pieces(list, first) == tally_pieces(
            list,
            second,
        ),
    decreases list.len(),
{
    if list.len() > 0 {
        lemma_split_validity_does_not_depend_on_dice(
            list.drop_last(),
            first.drop_last(),
            second.drop_last(),
        );
    }
}

/// The dice decide the total and nothing else, for the parse by pattern
/// too: two tallies of the same matches, with draws that fair dice can show
/// and totals that an `i32` holds, both succeed or both fail with the one
/// fault.
pub proof fn lemma_pattern_validity_does_not_depend_on_dice(
    found: Seq<Seq<Option<Seq<char>>>>,
    first: Seq<Seq<int>>,
    second: Seq<Seq<int>>,
)
    requires
        tally_captures(found, first) != Tally::Unfair,
        tally_captures(found, second) != Tally::Unfair,
        tally_captures(found, first) != Tally::Failed(Fault::TotalOutOfRange),
        tally_captures(found, second) != Tally::Failed(Fault::TotalOutOfRange),
    ensures
        tally_captures(found, first) is Total <==> tally_captures(found, second) is Total,
        tally_captures(found, first) is Failed ==> tally_captures(found, first) == tally_captures(
            found,
            second,
        ),
    decreases found.len(),
{
    if found.len() > 0 {
        lemma_pattern_validity_does_not_depend_on_dice(
            found.drop_last(),
            first.drop_last(),
            second.drop_last(),
        );
    }
}

} // verus!
