//! Terms found by a regular expression: the search is the `regex` crate's,
//! the reading and rolling of what it finds is done here.
use vstd::prelude::*;
use crate::machine::Operation;
use crate::terms::{Tally, tallied, tally_scalar, tally_dice, add_scalar, add_dice};
use crate::parsing::Error;

verus! {

/// One match of a pattern: the text of each of its groups, the whole match
/// first, `None` for a group that took no part.
pub type Groups = Vec<Option<Vec<char>>>;

/// All matches of `pattern` in `text` that do not overlap, from left to
/// right, as the `regex` crate finds them, each with its groups; `None`
/// where the crate refuses the pattern.
pub uninterp spec fn pattern_captures(pattern: Seq<char>, text: Seq<char>) -> Option<
    Seq<Seq<Option<Seq<char>>>>,
>;

/// One match as a mathematical value.
pub open spec fn groups_text(groups: Groups) -> Seq<Option<Seq<char>>> {
    Seq::new(
        groups@.len(),
        |j: int|
            match groups@[j] {
                Some(text) => Some(text@),
                None => None,
            },
    )
}

/// A list of matches as a mathematical value.
pub open spec fn captures_text(found: Seq<Groups>) -> Seq<Seq<Option<Seq<char>>>> {
    Seq::new(found.len(), |i: int| groups_text(found[i]))
}

/// Searches `text` for `pattern`.
///
/// Compiles the pattern with `regex::Regex::new` and walks `text` with
/// `Regex::captures_iter`; `Captures::iter` and `Match::as_str` give the
/// text of each group. Taken on trust: the calls return, and what they find
/// depends on the pattern and the text alone. What they find is not stated
/// here: it goes by the name [`pattern_captures`].
#[verifier::external_body]
pub(crate) fn find_captures(pattern: &str, text: &str) -> (found: Option<Vec<Groups>>)
    ensures
        match found {
            Some(list) => pattern_captures(pattern@, text@) == Some(captures_text(list@)),
            None => pattern_captures(pattern@, text@) is None,
        },
{
    let compiled = regex::Regex::new(pattern).ok()?;
    Some(
        compiled.captures_iter(text).map(
            |found| found.iter().map(|group| group.map(|m| m.as_str().chars().collect())).collect(),
        ).collect(),
    )
}

/// The pattern of one term: an operator or none, then a die term, with or
/// without its multiplier, or a scalar.
pub open spec fn term_pattern_text() -> Seq<char> {
    "(?<op>\\+|-){0,1}((?<multiplier>\\d*)d(?<die>\\d+)|(?<scalar>\\d+))"@
}

/// The pattern of one term. Its groups, by their numbers: 1 the operator,
/// 3 the multiplier, 4 the side count, 5 the scalar.
pub fn term_pattern() -> (pattern: &'static str)
    ensures
        pattern@ == term_pattern_text(),
{
    "(?<op>\\+|-){0,1}((?<multiplier>\\d*)d(?<die>\\d+)|(?<scalar>\\d+))"
}

/// The text of group `index` of a match, if the match has such a group and
/// it took part.
pub open spec fn group(groups: Seq<Option<Seq<char>>>, index: int) -> Option<Seq<char>> {
    if 0 <= index < groups.len() {
        groups[index]
    } else {
        None
    }
}

/// The sign of a matched term: a term is taken away if its operator group
/// is a minus sign, and added otherwise.
pub open spec fn captured_operation(groups: Seq<Option<Seq<char>>>) -> Operation {
    if group(groups, 1) == Some(seq!['-']) {
        Operation::Subtract
    } else {
        Operation::Add
    }
}

/// One matched term enters the total: its dice, if it has a side count,
/// and its scalar, if it has one, both under the term's sign.
pub open spec fn tally_capture(total: int, groups: Seq<Option<Seq<char>>>, draws: Seq<int>) -> Tally {
    let operation = captured_operation(groups);
    let multiplier = match group(groups, 3) {
        Some(text) => text,
        None => Seq::empty(),
    };
    let rolled = match group(groups, 4) {
        Some(sides) => tally_dice(total, operation, multiplier, sides, draws),
        None => Tally::Total(total),
    };
    match (rolled, group(groups, 5)) {
        (Tally::Total(with_dice), Some(digits)) => tally_scalar(with_dice, operation, digits),
        _ => rolled,
    }
}

/// The matched terms enter the total one by one, `tape[i]` being the draws
/// made for term `i`. The first fault ends it.
pub open spec fn tally_captures(found: Seq<Seq<Option<Seq<char>>>>, tape: Seq<Seq<int>>) -> Tally
    decreases found.len(),
{
    if found.len() == 0 {
        Tally::Total(0)
    } else {
        match tally_captures(found.drop_last(), tape.drop_last()) {
            Tally::Total(total) => tally_capture(total, found.last(), tape.last()),
            stopped => stopped,
        }
    }
}

/// A tally that has stopped stays as it is, whatever follows.
pub proof fn lemma_first_fault_ends_tally(
    found: Seq<Seq<Option<Seq<char>>>>,
    tape: Seq<Seq<int>>,
    k: int,
)
    requires
        0 <= k <= found.len(),
        tape.len() == found.len(),
        !(tally_captures(found.take(k), tape.take(k)) is Total),
    ensures
        tally_captures(found, tape) == tally_captures(found.take(k), tape.take(k)),
    decreases found.len(),
{
    if k == found.len() {
        assert(found.take(k) =~= found);
        assert(tape.take(k) =~= tape);
    } else {
        assert(found.drop_last().take(k) =~= found.take(k));
        assert(tape.drop_last().take(k) =~= tape.take(k));
        lemma_first_fault_ends_tally(found.drop_last(), tape.drop_last(), k);
    }
}

/// Reads one matched term, rolls its dice and enters it into the total.
pub fn roll_capture(total: i32, groups: &Groups) -> (r: Result<i32, Error>)
    ensures
        exists|draws: Seq<int>|
            tallied(r, #[trigger] tally_capture(total as int, groups_text(*groups), draws)),
{
    let ghost text = groups_text(*groups);
    let ghost mut draws: Seq<int> = Seq::empty();
    let mut operation = Operation::Add;
    if groups.len() > 1 {
        if let Some(sign) = &groups[1] {
            if sign.len() == 1 && sign[0] == '-' {
                assert(sign@ =~= seq!['-']);
                operation = Operation::Subtract;
            }
        }
    }
    assert(operation == captured_operation(text));
    let none: Vec<char> = Vec::new();
    let start = total;
    let mut total = total;
    if groups.len() > 4 {
        if let Some(sides) = &groups[4] {
            let multiplier: &Vec<char> = match &groups[3] {
                Some(digits) => digits,
                None => &none,
            };
            let before = total;
            let rolled = add_dice(before, operation, multiplier, sides);
            proof {
                draws = choose|d: Seq<int>|
                    tallied(
                        rolled,
                        #[trigger] tally_dice(before as int, operation, multiplier@, sides@, d),
                    );
            }
            match rolled {
                Ok(with_dice) => {
                    total = with_dice;
                },
                Err(error) => {
                    proof {
                        assert(tallied(Err(error), tally_capture(before as int, text, draws)));
                    }
                    return Err(error);
                },
            }
        }
    }
    let mut r = Ok(total);
    if groups.len() > 5 {
        if let Some(digits) = &groups[5] {
            r = add_scalar(total, operation, digits);
        }
    }
    proof {
        assert(tallied(r, tally_capture(start as int, text, draws)));
    }
    r
}

/// Reads the matched terms one by one, rolls their dice and adds them up.
pub fn roll_captures(found: &Vec<Groups>) -> (r: Result<i32, Error>)
    ensures
        exists|tape: Seq<Seq<int>>|
            tape.len() == found@.len() && tallied(
                r,
                #[trigger] tally_captures(captures_text(found@), tape),
            ),
{
    let ghost all = captures_text(found@);
    let ghost mut tape: Seq<Seq<int>> = Seq::empty();
    let mut total: i32 = 0;
    let mut i: usize = 0;
    while i < found.len()
        invariant
            i <= found.len(),
            all == captures_text(found@),
            tape.len() == i,
            tally_captures(all.take(i as int), tape) == Tally::Total(total as int),
        decreases found.len() - i,
    {
        let ghost so_far = tape;
        let r = roll_capture(total, &found[i]);
        proof {
            let draws = choose|draws: Seq<int>|
                tallied(
                    r,
                    #[trigger] tally_capture(total as int, groups_text(found@[i as int]), draws),
                );
            tape = so_far.push(draws);
            assert(tape.drop_last() =~= so_far);
            assert(all.take(i + 1).drop_last() =~= all.take(i as int));
            assert(all.take(i + 1).last() == groups_text(found@[i as int]));
            assert(tallied(r, tally_captures(all.take(i + 1), tape)));
        }
        match r {
            Ok(next) => {
                total = next;
            },
            Err(error) => {
                proof {
                    let unused = Seq::new((found.len() - i - 1) as nat, |j: int| Seq::<int>::empty());
                    let whole = tape + unused;
                    assert(whole.take(i + 1) =~= tape);
                    lemma_first_fault_ends_tally(all, whole, i + 1);
                    assert(tallied(Err(error), tally_captures(all, whole)));
                }
                return Err(error);
            },
        }
        i += 1;
    }
    proof {
        assert(all.take(i as int) =~= all);
    }
    Ok(total)
}

} // verus!
