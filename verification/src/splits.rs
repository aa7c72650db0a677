//! Terms found by splitting the text behind every operator.
use vstd::prelude::*;
use crate::machine::{Operation, next_operation, operation_after};
use crate::terms::{Tally, tallied, tally_scalar, tally_dice, add_scalar, add_dice};
use crate::parsing::Error;

verus! {

pub open spec fn is_operator(c: char) -> bool {
    c == '+' || c == '-'
}

/// A piece is closed if it ends with an operator.
pub open spec fn is_closed(piece: Seq<char>) -> bool {
    piece.len() > 0 && is_operator(piece.last())
}

/// The text cut behind every operator: each piece but the last ends with
/// an operator, no piece is empty, and the pieces in a row are the text.
pub open spec fn pieces(chars: Seq<char>) -> Seq<Seq<char>>
    decreases chars.len(),
{
    if chars.len() == 0 {
        Seq::empty()
    } else {
        let before = pieces(chars.drop_last());
        if before.len() > 0 && !is_closed(before.last()) {
            before.drop_last().push(before.last().push(chars.last()))
        } else {
            before.push(seq![chars.last()])
        }
    }
}

/// A list of pieces as a mathematical value.
pub open spec fn pieces_text(list: Seq<Vec<char>>) -> Seq<Seq<char>> {
    Seq::new(list.len(), |i: int| list[i]@)
}

/// The term of a piece: the piece without the operator that closes it.
pub open spec fn piece_body(piece: Seq<char>) -> Seq<char> {
    if is_closed(piece) {
        piece.drop_last()
    } else {
        piece
    }
}

/// The place of the first `d` in a text, or the text's length if it has
/// none.
pub open spec fn first_d(text: Seq<char>) -> int
    decreases text.len(),
{
    if text.len() == 0 {
        0
    } else if text[0] == 'd' {
        0
    } else {
        1 + first_d(text.drop_first())
    }
}

/// The pending operation behind a piece.
pub open spec fn operation_behind(pending: Operation, piece: Seq<char>) -> Operation {
    if is_closed(piece) {
        next_operation(pending, piece.last())
    } else {
        pending
    }
}

/// The pending operation behind a row of pieces, `Add` at the start.
pub open spec fn pending_behind(list: Seq<Seq<char>>) -> Operation
    decreases list.len(),
{
    if list.len() == 0 {
        Operation::Add
    } else {
        operation_behind(pending_behind(list.drop_last()), list.last())
    }
}

/// The term of one piece enters the total: a die term if it has a `d`,
/// with what stands before the first `d` as its multiplier, else a
/// scalar; a piece that is an operator alone has no term.
pub open spec fn tally_piece(total: int, pending: Operation, piece: Seq<char>, draws: Seq<int>) -> Tally {
    let body = piece_body(piece);
    let at = first_d(body);
    if body.len() == 0 {
        Tally::Total(total)
    } else if at < body.len() {
        tally_dice(total, pending, body.take(at), body.skip(at + 1), draws)
    } else {
        tally_scalar(total, pending, body)
    }
}

/// The terms of the pieces enter the total one by one, each under the
/// operator that closes the piece before it, `tape[i]` being the draws made
/// for piece `i`. The first fault ends it.
pub open spec fn tally_pieces(list: Seq<Seq<char>>, tape: Seq<Seq<int>>) -> Tally
    decreases list.len(),
{
    if list.len() == 0 {
        Tally::Total(0)
    } else {
        match tally_pieces(list.drop_last(), tape.drop_last()) {
            Tally::Total(total) => tally_piece(
                total,
                pending_behind(list.drop_last()),
                list.last(),
                tape.last(),
            ),
            stopped => stopped,
        }
    }
}

/// A tally that has stopped stays as it is, whatever follows.
pub proof fn lemma_first_fault_ends_pieces(list: Seq<Seq<char>>, tape: Seq<Seq<int>>, k: int)
    requires
        0 <= k <= list.len(),
        tape.len() == list.len(),
        !(tally_pieces(list.take(k), tape.take(k)) is Total),
    ensures
        tally_pieces(list, tape) == tally_pieces(list.take(k), tape.take(k)),
    decreases list.len(),
{
    if k == list.len() {
        assert(list.take(k) =~= list);
        assert(tape.take(k) =~= tape);
    } else {
        assert(list.drop_last().take(k) =~= list.take(k));
        assert(tape.drop_last().take(k) =~= tape.take(k));
        lemma_first_fault_ends_pieces(list.drop_last(), tape.drop_last(), k);
    }
}

/// Cuts the text behind every operator.
pub fn split_behind_operators(chars: &Vec<char>) -> (out: Vec<Vec<char>>)
    ensures
        pieces_text(out@) == pieces(chars@),
{
    let mut out: Vec<Vec<char>> = Vec::new();
    let mut current: Vec<char> = Vec::new();
    let mut i: usize = 0;
    proof {
        assert(pieces_text(out@) =~= pieces(chars@.take(0)));
    }
    while i < chars.len()
        invariant
            i <= chars.len(),
            !is_closed(current@),
            forall|k: int| 0 <= k < out@.len() ==> is_closed(#[trigger] out@[k]@),
            pieces(chars@.take(i as int)) == if current@.len() > 0 {
                pieces_text(out@).push(current@)
            } else {
                pieces_text(out@)
            },
        decreases chars.len() - i,
    {
        let c: char = chars[i];
        let ghost before = pieces(chars@.take(i as int));
        let ghost done = pieces_text(out@);
        let ghost open = current@;
        proof {
            assert(chars@.take(i + 1).drop_last() =~= chars@.take(i as int));
            assert(chars@.take(i + 1).last() == c);
            if open.len() > 0 {
                assert(before.last() == open);
                assert(before.drop_last() =~= done);
            } else if done.len() > 0 {
                assert(done.last() == out@[out@.len() - 1]@);
            }
            assert(open.len() == 0 ==> open.push(c) =~= seq![c]);
            assert(pieces(chars@.take(i + 1)) == done.push(open.push(c)));
        }
        current.push(c);
        if c == '+' || c == '-' {
            out.push(current);
            current = Vec::new();
            proof {
                assert(pieces_text(out@) =~= done.push(open.push(c)));
            }
        }
        i += 1;
    }
    proof {
        assert(chars@.take(i as int) =~= chars@);
    }
    if current.len() > 0 {
        let ghost done = pieces_text(out@);
        let ghost open = current@;
        out.push(current);
        proof {
            assert(pieces_text(out@) =~= done.push(open));
        }
    }
    out
}

/// The characters of `text` from `from` up to `to`.
pub fn copy_range(text: &Vec<char>, from: usize, to: usize) -> (part: Vec<char>)
    requires
        from <= to <= text@.len(),
    ensures
        part@ == text@.subrange(from as int, to as int),
{
    let mut part: Vec<char> = Vec::new();
    let mut i: usize = from;
    while i < to
        invariant
            from <= i <= to,
            to <= text@.len(),
            part@ == text@.subrange(from as int, i as int),
        decreases to - i,
    {
        part.push(text[i]);
        proof {
            assert(text@.subrange(from as int, i + 1) =~= text@.subrange(from as int, i as int).push(
                text@[i as int],
            ));
        }
        i += 1;
    }
    part
}

/// Reads the term of one piece, rolls its dice and enters it into the
/// total.
pub fn roll_piece(total: i32, pending: Operation, piece: &Vec<char>) -> (r: Result<i32, Error>)
    ensures
        exists|draws: Seq<int>|
            tallied(r, #[trigger] tally_piece(total as int, pending, piece@, draws)),
{
    let n: usize = piece.len();
    let end: usize = if n > 0 && (piece[n - 1] == '+' || piece[n - 1] == '-') {
        n - 1
    } else {
        n
    };
    let ghost body = piece_body(piece@);
    proof {
        assert(body =~= piece@.subrange(0, end as int));
    }
    if end == 0 {
        proof {
            assert(tallied(Ok(total), tally_piece(total as int, pending, piece@, Seq::empty())));
        }
        return Ok(total);
    }
    let mut at: usize = 0;
    proof {
        assert(body.skip(0) =~= body);
    }
    while at < end && piece[at] != 'd'
        invariant
            at <= end,
            end == body.len(),
            end <= piece@.len(),
            body == piece@.subrange(0, end as int),
            first_d(body) == at + first_d(body.skip(at as int)),
        decreases end - at,
    {
        proof {
            assert(body.skip(at as int)[0] == piece@[at as int]);
            assert(body.skip(at as int).drop_first() =~= body.skip(at + 1));
        }
        at += 1;
    }
    proof {
        if at < end {
            assert(body.skip(at as int)[0] == 'd');
        }
        assert(first_d(body) == at);
    }
    if at < end {
        let multiplier = copy_range(piece, 0, at);
        let sides = copy_range(piece, at + 1, end);
        proof {
            assert(multiplier@ =~= body.take(at as int));
            assert(sides@ =~= body.skip(at + 1));
        }
        let r = add_dice(total, pending, &multiplier, &sides);
        proof {
            let draws = choose|draws: Seq<int>|
                tallied(
                    r,
                    #[trigger] tally_dice(total as int, pending, multiplier@, sides@, draws),
                );
            assert(tallied(r, tally_piece(total as int, pending, piece@, draws)));
        }
        r
    } else {
        let digits = copy_range(piece, 0, end);
        let r = add_scalar(total, pending, &digits);
        proof {
            assert(tallied(r, tally_piece(total as int, pending, piece@, Seq::empty())));
        }
        r
    }
}

/// The pending operation behind a piece.
pub fn operation_behind_piece(pending: Operation, piece: &Vec<char>) -> (next: Operation)
    ensures
        next == operation_behind(pending, piece@),
{
    let n: usize = piece.len();
    if n > 0 {
        operation_after(pending, piece[n - 1])
    } else {
        pending
    }
}

/// Reads the terms of the pieces one by one, rolls their dice and adds
/// them up.
pub fn roll_pieces(list: &Vec<Vec<char>>) -> (r: Result<i32, Error>)
    ensures
        exists|tape: Seq<Seq<int>>|
            tape.len() == list@.len() && tallied(
                r,
                #[trigger] tally_pieces(pieces_text(list@), tape),
            ),
{
    let ghost all = pieces_text(list@);
    let ghost mut tape: Seq<Seq<int>> = Seq::empty();
    let mut total: i32 = 0;
    let mut pending = Operation::Add;
    let mut i: usize = 0;
    while i < list.len()
        invariant
            i <= list.len(),
            all == pieces_text(list@),
            tape.len() == i,
            tally_pieces(all.take(i as int), tape) == Tally::Total(total as int),
            pending == pending_behind(all.take(i as int)),
        decreases list.len() - i,
    {
        let ghost so_far = tape;
        let r = roll_piece(total, pending, &list[i]);
        proof {
            let draws = choose|draws: Seq<int>|
                tallied(r, #[trigger] tally_piece(total as int, pending, list@[i as int]@, draws));
            tape = so_far.push(draws);
            assert(tape.drop_last() =~= so_far);
            assert(all.take(i + 1).drop_last() =~= all.take(i as int));
            assert(all.take(i + 1).last() == list@[i as int]@);
            assert(tallied(r, tally_pieces(all.take(i + 1), tape)));
        }
        match r {
            Ok(next) => {
                total = next;
            },
            Err(error) => {
                proof {
                    let unused = Seq::new((list.len() - i - 1) as nat, |j: int| Seq::<int>::empty());
                    let whole = tape + unused;
                    assert(whole.take(i + 1) =~= tape);
                    lemma_first_fault_ends_pieces(all, whole, i + 1);
                    assert(tallied(Err(error), tally_pieces(all, whole)));
                }
                return Err(error);
            },
        }
        pending = operation_behind_piece(pending, &list[i]);
        i += 1;
    }
    proof {
        assert(all.take(i as int) =~= all);
    }
    Ok(total)
}

} // verus!
