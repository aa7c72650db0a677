//! Whether the matches of the term pattern cover a text as the terms of an
//! expression do: nothing but operators between them, each term whole, and
//! an operator of its own before every term but one at the very start.
use vstd::prelude::*;
use crate::text::{is_digit, is_decimal_digit};
use crate::number::all_digits;
use crate::splits::{is_operator, copy_range};
use crate::pattern::{Groups, group, groups_text, captures_text};

verus! {

/// The end of the run of operators that starts at `from`.
pub open spec fn operator_run_end(text: Seq<char>, from: int) -> int
    decreases text.len() - from,
{
    if 0 <= from < text.len() && is_operator(text[from]) {
        operator_run_end(text, from + 1)
    } else {
        from
    }
}

/// `word` stands in `text` at `at`.
pub open spec fn starts_at(text: Seq<char>, at: int, word: Seq<char>) -> bool {
    0 <= at && at + word.len() <= text.len() && text.subrange(at, at + word.len()) == word
}

/// The term that the groups of a match spell: digits, `d`, digits for a
/// die term, or the digits of a scalar; `None` where the groups hold
/// anything else.
pub open spec fn match_term(groups: Seq<Option<Seq<char>>>) -> Option<Seq<char>> {
    let multiplier = match group(groups, 3) {
        Some(text) => text,
        None => Seq::empty(),
    };
    match (group(groups, 4), group(groups, 5)) {
        (Some(sides), None) => if all_digits(multiplier) && all_digits(sides) {
            Some(multiplier + seq!['d'] + sides)
        } else {
            None
        },
        (None, Some(digits)) => if digits.len() > 0 && all_digits(digits) {
            Some(digits)
        } else {
            None
        },
        _ => None,
    }
}

/// The text that the groups of a match spell: the operator, if the match
/// has one, and the term.
pub open spec fn match_text(groups: Seq<Option<Seq<char>>>) -> Option<Seq<char>> {
    match match_term(groups) {
        None => None,
        Some(term) => match group(groups, 1) {
            None => Some(term),
            Some(sign) => if sign.len() == 1 && is_operator(sign[0]) {
                Some(sign + term)
            } else {
                None
            },
        },
    }
}

/// Where a match ends, if it is the next term behind `pos`. A match with
/// an operator stands at the last operator of the run that starts at
/// `pos`; one without can only be the first, at the start of the text.
pub open spec fn place(text: Seq<char>, pos: int, groups: Seq<Option<Seq<char>>>, first: bool) -> Option<
    int,
> {
    let run_end = operator_run_end(text, pos);
    match match_text(groups) {
        None => None,
        Some(word) => {
            let own = group(groups, 1) is Some;
            let at = if own {
                run_end - 1
            } else {
                run_end
            };
            let in_place = if own {
                run_end > pos
            } else {
                first && run_end == pos
            };
            if in_place && starts_at(text, at, word) {
                Some(at + word.len())
            } else {
                None
            }
        },
    }
}

/// Where the last of the matches ends, if they are the first terms of the
/// text, one behind the other.
pub open spec fn reach(text: Seq<char>, found: Seq<Seq<Option<Seq<char>>>>) -> Option<int>
    decreases found.len(),
{
    if found.len() == 0 {
        Some(0)
    } else {
        match reach(text, found.drop_last()) {
            None => None,
            Some(pos) => place(text, pos, found.last(), found.len() == 1),
        }
    }
}

/// The matches are the terms of the text, and the text holds nothing else
/// but operators.
pub open spec fn covers(text: Seq<char>, found: Seq<Seq<Option<Seq<char>>>>) -> bool {
    reach(text, found) matches Some(pos) && operator_run_end(text, pos) == text.len()
}

/// Matches that are out of place stay so, whatever follows.
pub proof fn lemma_out_of_place_stays(text: Seq<char>, found: Seq<Seq<Option<Seq<char>>>>, k: int)
    requires
        0 <= k <= found.len(),
        reach(text, found.take(k)) is None,
    ensures
        reach(text, found) is None,
    decreases found.len(),
{
    if k == found.len() {
        assert(found.take(k) =~= found);
    } else {
        assert(found.drop_last().take(k) =~= found.take(k));
        lemma_out_of_place_stays(text, found.drop_last(), k);
    }
}

/// The end of the run of operators that starts at `from`.
pub fn skip_operators(text: &Vec<char>, from: usize) -> (end: usize)
    ensures
        end == operator_run_end(text@, from as int),
        from <= end,
        from <= text@.len() ==> end <= text@.len(),
{
    let mut q: usize = from;
    while q < text.len() && (text[q] == '+' || text[q] == '-')
        invariant
            from <= q,
            from <= text@.len() ==> q <= text@.len(),
            operator_run_end(text@, from as int) == operator_run_end(text@, q as int),
        decreases text.len() - q,
    {
        q += 1;
    }
    q
}

/// Whether a text is digits and nothing else.
pub fn only_digits(text: &Vec<char>) -> (r: bool)
    ensures
        r == all_digits(text@),
{
    let mut i: usize = 0;
    while i < text.len()
        invariant
            i <= text.len(),
            forall|k: int| 0 <= k < i ==> is_digit(#[trigger] text@[k]),
        decreases text.len() - i,
    {
        if !is_decimal_digit(text[i]) {
            return false;
        }
        i += 1;
    }
    true
}

/// Whether two texts are the same.
pub fn same_text(a: &Vec<char>, b: &Vec<char>) -> (r: bool)
    ensures
        r == (a@ == b@),
{
    if a.len() != b.len() {
        return false;
    }
    let mut i: usize = 0;
    while i < a.len()
        invariant
            i <= a.len(),
            a.len() == b.len(),
            forall|k: int| 0 <= k < i ==> a@[k] == b@[k],
        decreases a.len() - i,
    {
        if a[i] != b[i] {
            return false;
        }
        i += 1;
    }
    proof {
        assert(a@ =~= b@);
    }
    true
}

/// Two texts in a row.
pub fn joined(a: &Vec<char>, b: &Vec<char>) -> (r: Vec<char>)
    ensures
        r@ == a@ + b@,
{
    let mut r: Vec<char> = Vec::new();
    let mut i: usize = 0;
    while i < a.len()
        invariant
            i <= a.len(),
            r@ == a@.take(i as int),
        decreases a.len() - i,
    {
        r.push(a[i]);
        proof {
            assert(a@.take(i + 1) =~= a@.take(i as int).push(a@[i as int]));
        }
        i += 1;
    }
    let mut j: usize = 0;
    proof {
        assert(a@.take(i as int) =~= a@);
        assert(r@ =~= a@ + b@.take(0));
    }
    while j < b.len()
        invariant
            j <= b.len(),
            r@ == a@ + b@.take(j as int),
        decreases b.len() - j,
    {
        r.push(b[j]);
        proof {
            assert(a@ + b@.take(j + 1) =~= (a@ + b@.take(j as int)).push(b@[j as int]));
        }
        j += 1;
    }
    proof {
        assert(b@.take(j as int) =~= b@);
    }
    r
}

/// Whether `word` stands in `text` at `at`.
pub fn found_at(text: &Vec<char>, at: usize, word: &Vec<char>) -> (r: bool)
    ensures
        r == starts_at(text@, at as int, word@),
{
    if at > text.len() || word.len() > text.len() - at {
        false
    } else {
        let part = copy_range(text, at, at + word.len());
        same_text(&part, word)
    }
}

/// The text of a group of a match, if the match has the group and it took
/// part.
pub fn group_at(groups: &Groups, index: usize) -> (r: Option<&Vec<char>>)
    ensures
        match r {
            Some(text) => group(groups_text(*groups), index as int) == Some(text@),
            None => group(groups_text(*groups), index as int) is None,
        },
{
    if index < groups.len() {
        match &groups[index] {
            Some(text) => Some(text),
            None => None,
        }
    } else {
        None
    }
}

/// The term that the groups of a match spell.
pub fn term_of_match(groups: &Groups) -> (r: Option<Vec<char>>)
    ensures
        match r {
            Some(term) => match_term(groups_text(*groups)) == Some(term@),
            None => match_term(groups_text(*groups)) is None,
        },
{
    let none: Vec<char> = Vec::new();
    let multiplier: &Vec<char> = match group_at(groups, 3) {
        Some(text) => text,
        None => &none,
    };
    match (group_at(groups, 4), group_at(groups, 5)) {
        (Some(sides), None) => {
            if only_digits(multiplier) && only_digits(sides) {
                let mut d: Vec<char> = Vec::new();
                d.push('d');
                proof {
                    assert(d@ =~= seq!['d']);
                }
                Some(joined(&joined(multiplier, &d), sides))
            } else {
                None
            }
        },
        (None, Some(digits)) => {
            if digits.len() > 0 && only_digits(digits) {
                Some(joined(digits, &none))
            } else {
                None
            }
        },
        _ => None,
    }
}

/// The text that the groups of a match spell.
pub fn text_of_match(groups: &Groups) -> (r: Option<Vec<char>>)
    ensures
        match r {
            Some(word) => match_text(groups_text(*groups)) == Some(word@),
            None => match_text(groups_text(*groups)) is None,
        },
{
    match term_of_match(groups) {
        None => None,
        Some(term) => match group_at(groups, 1) {
            None => Some(term),
            Some(sign) => {
                if sign.len() == 1 && (sign[0] == '+' || sign[0] == '-') {
                    Some(joined(sign, &term))
                } else {
                    None
                }
            },
        },
    }
}

/// Whether the matches are the terms of the text, and the text holds
/// nothing else but operators.
pub fn covers_text(text: &Vec<char>, found: &Vec<Groups>) -> (r: bool)
    ensures
        r == covers(text@, captures_text(found@)),
{
    let ghost all = captures_text(found@);
    let mut pos: usize = 0;
    let mut i: usize = 0;
    proof {
        assert(all.take(0) =~= Seq::empty());
    }
    while i < found.len()
        invariant
            i <= found.len(),
            all == captures_text(found@),
            pos <= text@.len(),
            reach(text@, all.take(i as int)) == Some(pos as int),
        decreases found.len() - i,
    {
        proof {
            assert(all.take(i + 1).drop_last() =~= all.take(i as int));
            assert(all.take(i + 1).last() == groups_text(found@[i as int]));
        }
        let run_end = skip_operators(text, pos);
        let placed: Option<usize> = match text_of_match(&found[i]) {
            None => None,
            Some(word) => {
                let own: bool = match group_at(&found[i], 1) {
                    Some(_) => true,
                    None => false,
                };
                let in_place: bool = if own {
                    run_end > pos
                } else {
                    i == 0 && run_end == pos
                };
                if in_place {
                    let at: usize = if own {
                        run_end - 1
                    } else {
                        run_end
                    };
                    let stands: bool = found_at(text, at, &word);
                    let limit: usize = text.len();
                    if stands && at <= limit && word.len() <= limit - at {
                        Some(at + word.len())
                    } else {
                        None
                    }
                } else {
                    None
                }
            },
        };
        match placed {
            None => {
                proof {
                    assert(reach(text@, all.take(i + 1)) is None);
                    lemma_out_of_place_stays(text@, all, i + 1);
                }
                return false;
            },
            Some(next) => {
                pos = next;
            },
        }
        i += 1;
    }
    proof {
        assert(all.take(i as int) =~= all);
    }
    skip_operators(text, pos) == text.len()
}

/// The characters that dice notation is written with, whitespace aside.
pub open spec fn is_notation(c: char) -> bool {
    is_digit(c) || c == 'd' || is_operator(c)
}

/// A run of operators holds operators only, and ends in the text.
pub proof fn lemma_operator_run(text: Seq<char>, from: int)
    requires
        0 <= from <= text.len(),
    ensures
        from <= operator_run_end(text, from) <= text.len(),
        forall|k: int| from <= k < operator_run_end(text, from) ==> is_operator(#[trigger] text[k]),
    decreases text.len() - from,
{
    if from < text.len() && is_operator(text[from]) {
        lemma_operator_run(text, from + 1);
    }
}

/// The text that a match spells is written with the characters of dice
/// notation.
pub proof fn lemma_match_text_is_notation(groups: Seq<Option<Seq<char>>>)
    requires
        match_text(groups) is Some,
    ensures
        forall|k: int|
            0 <= k < match_text(groups)->Some_0.len() ==> is_notation(
                #[trigger] match_text(groups)->Some_0[k],
            ),
{
    let word = match_text(groups)->Some_0;
    let term = match_term(groups)->Some_0;
    assert forall|k: int| 0 <= k < term.len() implies is_notation(#[trigger] term[k]) by {
        let multiplier = match group(groups, 3) {
            Some(text) => text,
            None => Seq::empty(),
        };
        match (group(groups, 4), group(groups, 5)) {
            (Some(sides), None) => {
                if k < multiplier.len() {
                    assert(is_digit(multiplier[k]));
                } else if k > multiplier.len() {
                    assert(is_digit(sides[k - multiplier.len() - 1]));
                }
            },
            (None, Some(digits)) => {
                assert(is_digit(digits[k]));
            },
            _ => {},
        }
    }
    assert forall|k: int| 0 <= k < word.len() implies is_notation(#[trigger] word[k]) by {
        match group(groups, 1) {
            None => {},
            Some(sign) => {
                if k >= 1 {
                    assert(word[k] == term[k - 1]);
                }
            },
        }
    }
}

/// Up to where the matches reach, the text is written with the characters
/// of dice notation.
pub proof fn lemma_reached_text_is_notation(text: Seq<char>, found: Seq<Seq<Option<Seq<char>>>>)
    requires
        reach(text, found) is Some,
    ensures
        0 <= reach(text, found)->Some_0 <= text.len(),
        forall|k: int| 0 <= k < reach(text, found)->Some_0 ==> is_notation(#[trigger] text[k]),
    decreases found.len(),
{
    if found.len() > 0 {
        lemma_reached_text_is_notation(text, found.drop_last());
        let pos = reach(text, found.drop_last())->Some_0;
        lemma_operator_run(text, pos);
        lemma_match_text_is_notation(found.last());
        let word = match_text(found.last())->Some_0;
        let run_end = operator_run_end(text, pos);
        let at = if group(found.last(), 1) is Some {
            run_end - 1
        } else {
            run_end
        };
        let end = at + word.len();
        assert forall|k: int| 0 <= k < end implies is_notation(#[trigger] text[k]) by {
            if k >= at {
                assert(text.subrange(at, end)[k - at] == text[k]);
                assert(is_notation(word[k - at]));
            }
        }
    }
}

/// A text that holds a character that dice notation has no use for is
/// covered by no matches: the parse by pattern refuses it.
pub proof fn lemma_covered_text_is_notation(text: Seq<char>, found: Seq<Seq<Option<Seq<char>>>>)
    requires
        covers(text, found),
    ensures
        forall|k: int| 0 <= k < text.len() ==> is_notation(#[trigger] text[k]),
{
    lemma_reached_text_is_notation(text, found);
    lemma_operator_run(text, reach(text, found)->Some_0);
}

} // verus!
