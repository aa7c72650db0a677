//! The parse by splitting and the scanner agree on every expression of the
//! grammar: with the same draws they come to the same total, or to the
//! same fault.
use vstd::prelude::*;
use crate::text::is_digit;
use crate::number::all_digits;
use crate::machine::{Operation, run};
use crate::terms::Tally;
use crate::splits::{
    is_operator, is_closed, pieces, piece_body, first_d, operation_behind, pending_behind,
    tally_piece, tally_pieces,
};
use crate::grammar::{
    Term, Item, proper, term_text, item_text, text_of, rolls_of, pending_after, tally_item,
    tally_items, behind_term, lemma_scanner_reads_expression,
};

verus! {

/// The piece that an item is cut into: the item, without a blank at its
/// end.
pub open spec fn piece_of(item: Item) -> Seq<char> {
    if is_operator(item.end) {
        item_text(item)
    } else {
        term_text(item.term)
    }
}

pub open spec fn pieces_of(items: Seq<Item>) -> Seq<Seq<char>> {
    Seq::new(items.len(), |i: int| piece_of(items[i]))
}

/// The characters of a row of items, without the blanks at their ends.
pub open spec fn split_text_of(items: Seq<Item>) -> Seq<char>
    decreases items.len(),
{
    if items.len() == 0 {
        Seq::empty()
    } else {
        split_text_of(items.drop_last()) + piece_of(items.last())
    }
}

/// An expression: proper items, an operator behind each but the last, and
/// a blank behind the last.
pub open spec fn expression(items: Seq<Item>) -> bool {
    &&& items.len() > 0
    &&& forall|i: int| 0 <= i < items.len() ==> proper(#[trigger] items[i])
    &&& forall|i: int| 0 <= i < items.len() - 1 ==> is_operator((#[trigger] items[i]).end)
    &&& items.last().end == ' '
}

/// Digits hold no `d`: the first `d` of `digits`, `d`, `rest` is the one in
/// the middle.
pub proof fn lemma_first_d_behind_digits(digits: Seq<char>, rest: Seq<char>)
    requires
        all_digits(digits),
    ensures
        first_d(digits.push('d') + rest) == digits.len(),
        first_d(digits) == digits.len(),
    decreases digits.len(),
{
    let text = digits.push('d') + rest;
    if digits.len() == 0 {
        assert(text[0] == 'd');
    } else {
        let tail = digits.drop_first();
        assert(is_digit(digits[0]));
        assert forall|i: int| 0 <= i < tail.len() implies is_digit(#[trigger] tail[i]) by {
            assert(tail[i] == digits[i + 1]);
        }
        lemma_first_d_behind_digits(tail, rest);
        assert(text[0] == digits[0]);
        assert(text.drop_first() =~= tail.push('d') + rest);
    }
}

/// The term of a proper item holds no operator, and is not empty.
pub proof fn lemma_term_holds_no_operator(item: Item)
    requires
        proper(item),
    ensures
        !(item.term is Nothing) ==> term_text(item.term).len() > 0,
        forall|i: int|
            0 <= i < term_text(item.term).len() ==> !is_operator(#[trigger] term_text(item.term)[i]),
{
    let text = term_text(item.term);
    assert forall|i: int| 0 <= i < text.len() implies !is_operator(#[trigger] text[i]) by {
        match item.term {
            Term::Nothing => {},
            Term::Scalar(digits) => {
                assert(is_digit(digits[i]));
            },
            Term::Dice(multiplier, sides) => {
                if i < multiplier.len() {
                    assert(is_digit(multiplier[i]));
                } else if i > multiplier.len() {
                    assert(is_digit(sides[i - multiplier.len() - 1]));
                }
            },
        }
    }
}

/// A piece of a proper item is tallied as the item is.
pub proof fn lemma_piece_is_tallied_as_item(
    total: int,
    pending: Operation,
    item: Item,
    draws: Seq<int>,
)
    requires
        proper(item),
    ensures
        tally_piece(total, pending, piece_of(item), draws) == tally_item(
            total,
            pending,
            item,
            draws,
        ),
        operation_behind(pending, piece_of(item)) == crate::machine::next_operation(
            pending,
            item.end,
        ),
{
    lemma_term_holds_no_operator(item);
    let text = term_text(item.term);
    let piece = piece_of(item);
    if text.len() > 0 {
        assert(!is_operator(text[text.len() - 1]));
    }
    if is_operator(item.end) {
        assert(piece.drop_last() =~= text);
    }
    assert(piece_body(piece) == text);
    match item.term {
        Term::Nothing => {},
        Term::Scalar(digits) => {
            lemma_first_d_behind_digits(digits, Seq::empty());
        },
        Term::Dice(multiplier, sides) => {
            lemma_first_d_behind_digits(multiplier, sides);
            assert(text.take(multiplier.len() as int) =~= multiplier);
            assert(text.skip(multiplier.len() as int + 1) =~= sides);
        },
    }
}

/// Behind a text that splits into closed pieces, a text with no operator
/// but at its end is one more piece.
pub proof fn lemma_one_more_piece(before: Seq<char>, piece: Seq<char>)
    requires
        pieces(before).len() > 0 ==> is_closed(pieces(before).last()),
        piece.len() > 0,
        forall|i: int| 0 <= i < piece.len() - 1 ==> !is_operator(#[trigger] piece[i]),
    ensures
        pieces(before + piece) == pieces(before).push(piece),
    decreases piece.len(),
{
    let front = piece.drop_last();
    assert((before + piece).drop_last() =~= before + front);
    assert((before + piece).last() == piece.last());
    if front.len() == 0 {
        assert(before + front =~= before);
        assert(piece =~= seq![piece.last()]);
    } else {
        assert forall|i: int| 0 <= i < front.len() - 1 implies !is_operator(#[trigger] front[i]) by {
            assert(front[i] == piece[i]);
        }
        lemma_one_more_piece(before, front);
        assert(front.last() == piece[front.len() - 1]);
        assert(!is_closed(front));
        assert(pieces(before).push(front).drop_last() =~= pieces(before));
        assert(front.push(piece.last()) =~= piece);
    }
}

/// The characters of a row of proper items, an operator behind each but
/// the last, split into the pieces of the items.
pub proof fn lemma_items_split_into_their_pieces(items: Seq<Item>)
    requires
        forall|i: int| 0 <= i < items.len() ==> proper(#[trigger] items[i]),
        forall|i: int| 0 <= i < items.len() - 1 ==> is_operator((#[trigger] items[i]).end),
        items.len() > 0 ==> piece_of(items.last()).len() > 0,
    ensures
        pieces(split_text_of(items)) == pieces_of(items),
    decreases items.len(),
{
    if items.len() == 0 {
        assert(pieces_of(items) =~= Seq::<Seq<char>>::empty());
    } else {
        let front = items.drop_last();
        let last = items.last();
        assert forall|i: int| 0 <= i < front.len() implies proper(#[trigger] front[i])
            && is_operator(front[i].end) by {
            assert(front[i] == items[i]);
        }
        if front.len() > 0 {
            assert(is_operator(front[front.len() - 1].end));
            assert(piece_of(front.last()).len() > 0);
        }
        lemma_items_split_into_their_pieces(front);
        assert(proper(items[items.len() - 1]));
        lemma_term_holds_no_operator(last);
        let piece = piece_of(last);
        let text = term_text(last.term);
        assert forall|i: int| 0 <= i < piece.len() - 1 implies !is_operator(#[trigger] piece[i]) by {
            assert(piece[i] == text[i]);
        }
        if front.len() > 0 {
            let closing = front[front.len() - 1];
            assert(pieces_of(front).last() == piece_of(closing));
            assert(is_operator(closing.end));
            assert(is_closed(piece_of(closing)));
        }
        lemma_one_more_piece(split_text_of(front), piece);
        assert(pieces_of(front).push(piece) =~= pieces_of(items));
    }
}

/// The pieces of proper items are tallied as the items are.
pub proof fn lemma_pieces_are_tallied_as_items(items: Seq<Item>, rolls: Seq<Seq<int>>)
    requires
        forall|i: int| 0 <= i < items.len() ==> proper(#[trigger] items[i]),
    ensures
        tally_pieces(pieces_of(items), rolls) == tally_items(items, rolls),
        pending_behind(pieces_of(items)) == pending_after(items),
    decreases items.len(),
{
    if items.len() > 0 {
        let front = items.drop_last();
        assert forall|i: int| 0 <= i < front.len() implies proper(#[trigger] front[i]) by {
            assert(front[i] == items[i]);
        }
        assert(proper(items[items.len() - 1]));
        lemma_pieces_are_tallied_as_items(front, rolls.drop_last());
        assert(pieces_of(items).drop_last() =~= pieces_of(front));
        assert(pieces_of(items).last() == piece_of(items.last()));
        match tally_items(front, rolls.drop_last()) {
            Tally::Total(total) => {
                lemma_piece_is_tallied_as_item(
                    total,
                    pending_after(front),
                    items.last(),
                    rolls.last(),
                );
            },
            _ => {},
        }
        lemma_piece_is_tallied_as_item(0, pending_after(front), items.last(), rolls.last());
    }
}

/// The characters of an expression are those of its pieces, and the blank.
pub proof fn lemma_expression_text(items: Seq<Item>)
    requires
        forall|i: int| 0 <= i < items.len() - 1 ==> is_operator((#[trigger] items[i]).end),
        items.len() > 0 ==> !is_operator(items.last().end),
    ensures
        items.len() > 0 ==> text_of(items) == split_text_of(items).push(items.last().end),
        items.len() == 0 ==> text_of(items) == split_text_of(items),
    decreases items.len(),
{
    if items.len() > 0 {
        let front = items.drop_last();
        lemma_all_closed_text(front);
        assert(text_of(items) =~= split_text_of(items).push(items.last().end));
    }
}

/// Where an operator stands behind every item, the characters of the items
/// are those of their pieces.
pub proof fn lemma_all_closed_text(items: Seq<Item>)
    requires
        forall|i: int| 0 <= i < items.len() ==> is_operator((#[trigger] items[i]).end),
    ensures
        text_of(items) == split_text_of(items),
    decreases items.len(),
{
    if items.len() > 0 {
        let front = items.drop_last();
        assert forall|i: int| 0 <= i < front.len() implies is_operator((#[trigger] front[i]).end) by {
            assert(front[i] == items[i]);
        }
        lemma_all_closed_text(front);
        assert(is_operator(items[items.len() - 1].end));
    }
}

/// The draws of the pieces of an expression: those of its items, but for
/// a last item that is nothing, which is no piece.
pub open spec fn piece_rolls(items: Seq<Item>, tape: Seq<Seq<int>>) -> Seq<Seq<int>> {
    if piece_of(items.last()).len() == 0 {
        rolls_of(items, tape).drop_last()
    } else {
        rolls_of(items, tape)
    }
}

/// The two parsers agree on every expression of the grammar, operators at
/// its start, in a row or at its end included. Let `chars` be the
/// characters of an expression. Whatever the dice show, the scanner, fed
/// `chars` and the closing blank, ends where the tally of the pieces of
/// `chars` ends for the same draws: at the same total, or at the same
/// fault.
pub proof fn lemma_splits_agree_with_scanner(items: Seq<Item>, tape: Seq<Seq<int>>)
    requires
        expression(items),
        tape.len() == split_text_of(items).len() + 1,
    ensures
        pieces(split_text_of(items)).len() == piece_rolls(items, tape).len(),
        rolls_of(items, tape).len() == items.len(),
        run(split_text_of(items).push(' '), tape) == behind_term(
            tally_pieces(pieces(split_text_of(items)), piece_rolls(items, tape)),
            pending_after(items),
        ),
{
    lemma_expression_text(items);
    lemma_scanner_reads_expression(items, tape);
    let rolls = rolls_of(items, tape);
    if piece_of(items.last()).len() == 0 {
        let front = items.drop_last();
        assert forall|i: int| 0 <= i < front.len() implies proper(#[trigger] front[i])
            && is_operator(front[i].end) by {
            assert(front[i] == items[i]);
        }
        assert(split_text_of(items) =~= split_text_of(front));
        if front.len() > 0 {
            assert(is_operator(front[front.len() - 1].end));
            assert(piece_of(front.last()).len() > 0);
        }
        lemma_items_split_into_their_pieces(front);
        lemma_pieces_are_tallied_as_items(front, rolls.drop_last());
        assert(proper(items[items.len() - 1]));
        lemma_term_holds_no_operator(items.last());
        assert(items.last().term is Nothing);
    } else {
        lemma_items_split_into_their_pieces(items);
        lemma_pieces_are_tallied_as_items(items, rolls);
    }
}

} // verus!
