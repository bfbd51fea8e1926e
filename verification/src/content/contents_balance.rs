//! The table of contents as the pieces it is written from, and the balance
//! of what these pieces open and close.

use crate::content::id_from_name;
use crate::content::preliminary_analysis::{closings, descends_by_steps, element, elements,
    lemma_lists_balance, lists_left_open, next_level, Heading};
use vstd::prelude::*;
use vstd::string::StringSliceAdditionalSpecFns;

verus! {

/// A piece of a table of contents.
pub enum Piece {
    /// `<li>`, which opens an item.
    Item,
    /// `<details open><summary>`, which opens the head of a nested list.
    OpenList,
    /// `</summary><ul>`, which closes the head of a nested list and opens
    /// the list.
    ListBody,
    /// `</li></ul></details>`, which closes the last item of a nested list
    /// and the list.
    CloseList,
    /// `</li>`, which closes an item.
    EndItem,
    /// The link to a heading.
    Link(Seq<u8>),
}

/// What a piece is written as.
pub open spec fn piece_text(piece: Piece) -> Seq<u8> {
    match piece {
        Piece::Item => "<li>".spec_bytes(),
        Piece::OpenList => "<details open><summary>".spec_bytes(),
        Piece::ListBody => "</summary><ul>".spec_bytes(),
        Piece::CloseList => "</li></ul></details>".spec_bytes(),
        Piece::EndItem => "</li>".spec_bytes(),
        Piece::Link(text) => text,
    }
}

/// What a sequence of pieces is written as.
pub open spec fn text_of(pieces: Seq<Piece>) -> Seq<u8>
    decreases pieces.len(),
{
    if pieces.len() == 0 {
        Seq::empty()
    } else {
        text_of(pieces.drop_last()) + piece_text(pieces.last())
    }
}

/// How often `piece` stands among `pieces`.
pub open spec fn count(pieces: Seq<Piece>, piece: Piece) -> int
    decreases pieces.len(),
{
    if pieces.len() == 0 {
        0
    } else if pieces.last() == piece {
        count(pieces.drop_last(), piece) + 1
    } else {
        count(pieces.drop_last(), piece)
    }
}

/// The link to the heading with the text `header`.
pub open spec fn link(header: Seq<u8>) -> Seq<u8> {
    "<a href=\"#".spec_bytes() + id_from_name(header) + "\">".spec_bytes() + header
        + "</a>".spec_bytes()
}

/// `n` times the piece that closes a nested list.
pub open spec fn closing_pieces(n: int) -> Seq<Piece>
    decreases n,
{
    if n <= 0 {
        Seq::empty()
    } else {
        closing_pieces(n - 1).push(Piece::CloseList)
    }
}

/// The pieces of the item of a heading.
pub open spec fn element_pieces(header: Seq<u8>, level: int, last_level: int) -> Seq<Piece> {
    if last_level < level {
        seq![Piece::Item, Piece::OpenList, Piece::Link(link(header)), Piece::ListBody]
    } else {
        seq![Piece::Item, Piece::Link(link(header))] + closing_pieces(last_level - level) + seq![
            Piece::EndItem,
        ]
    }
}

/// The pieces of the items of a sequence of headings.
pub open spec fn elements_pieces(headings: Seq<Heading>) -> Seq<Piece>
    decreases headings.len(),
{
    if headings.len() == 0 {
        Seq::empty()
    } else {
        element_pieces(headings[0].text, next_level(headings), headings[0].level)
            + elements_pieces(headings.skip(1))
    }
}

/// Pieces in a row are written as their texts in a row, and hold each piece
/// as often as both parts together.
pub proof fn lemma_pieces_add(a: Seq<Piece>, b: Seq<Piece>, piece: Piece)
    ensures
        text_of(a + b) == text_of(a) + text_of(b),
        count(a + b, piece) == count(a, piece) + count(b, piece),
    decreases b.len(),
{
    if b.len() == 0 {
        assert(a + b =~= a);
        assert(text_of(a) + text_of(b) =~= text_of(a));
    } else {
        assert((a + b).drop_last() =~= a + b.drop_last());
        assert((a + b).last() == b.last());
        lemma_pieces_add(a, b.drop_last(), piece);
        assert(text_of(a + b) =~= text_of(a) + text_of(b));
    }
}

/// One piece is written as its text and counts once for itself.
pub proof fn lemma_one_piece(one: Piece, piece: Piece)
    ensures
        text_of(seq![one]) == piece_text(one),
        count(seq![one], piece) == if one == piece {
            1int
        } else {
            0int
        },
{
    let s = seq![one];
    assert(s.drop_last() =~= Seq::<Piece>::empty());
    assert(s.last() == one);
    assert(text_of(s.drop_last()) =~= Seq::<u8>::empty());
    assert(count(s.drop_last(), piece) == 0);
    assert(text_of(s) =~= piece_text(one));
}

/// The pieces that close lists are written as the markup that closes them,
/// and hold no other piece.
pub proof fn lemma_closing_pieces(n: int, piece: Piece)
    ensures
        text_of(closing_pieces(n)) == closings(n),
        count(closing_pieces(n), piece) == if piece == Piece::CloseList && n > 0 {
            n
        } else {
            0
        },
    decreases n,
{
    if n > 0 {
        lemma_closing_pieces(n - 1, piece);
        let all = closing_pieces(n);
        assert(all.drop_last() =~= closing_pieces(n - 1));
        assert(all.last() == Piece::CloseList);
    }
}

/// The item of a heading is what its pieces are written as. It opens one
/// item; where the next heading lies deeper it opens one list and closes
/// nothing, else it closes its item and a list for each level it rises.
pub proof fn lemma_element_pieces(header: Seq<u8>, level: int, last_level: int)
    ensures
        text_of(element_pieces(header, level, last_level)) == element(header, level, last_level),
        count(element_pieces(header, level, last_level), Piece::Item) == 1,
        count(element_pieces(header, level, last_level), Piece::OpenList) == count(
            element_pieces(header, level, last_level),
            Piece::ListBody,
        ),
        count(element_pieces(header, level, last_level), Piece::ListBody) == if last_level
            < level {
            1int
        } else {
            0int
        },
        count(element_pieces(header, level, last_level), Piece::CloseList) == if last_level
            < level {
            0
        } else {
            last_level - level
        },
        count(element_pieces(header, level, last_level), Piece::EndItem) == if last_level < level {
            0int
        } else {
            1int
        },
{
    let text = Piece::Link(link(header));
    if last_level < level {
        let a = seq![Piece::Item];
        let b = seq![Piece::OpenList];
        let c = seq![text];
        let d = seq![Piece::ListBody];
        assert(element_pieces(header, level, last_level) =~= a + b + c + d);
        assert forall|piece: Piece|
            text_of(a + b + c + d) == text_of(a) + text_of(b) + text_of(c) + text_of(d) && count(
                a + b + c + d,
                piece,
            ) == count(a, piece) + count(b, piece) + count(c, piece) + count(d, piece) by {
            lemma_pieces_add(a, b, piece);
            lemma_pieces_add(a + b, c, piece);
            lemma_pieces_add(a + b + c, d, piece);
        }
        lemma_pieces_of_element(text);
        lemma_pieces_add(a, b, Piece::Item);
        lemma_pieces_add(a + b, c, Piece::Item);
        lemma_pieces_add(a + b + c, d, Piece::Item);
        assert(text_of(a + b + c + d) == text_of(a) + text_of(b) + text_of(c) + text_of(d));
        assert(text_of(a + b + c + d) =~= element(header, level, last_level));
    } else {
        let a = seq![Piece::Item];
        let c = seq![text];
        let k = closing_pieces(last_level - level);
        let e = seq![Piece::EndItem];
        assert(seq![Piece::Item, text] =~= a + c);
        assert(element_pieces(header, level, last_level) =~= a + c + k + e);
        assert forall|piece: Piece|
            text_of(a + c + k + e) == text_of(a) + text_of(c) + text_of(k) + text_of(e) && count(
                a + c + k + e,
                piece,
            ) == count(a, piece) + count(c, piece) + count(k, piece) + count(e, piece) by {
            lemma_pieces_add(a, c, piece);
            lemma_pieces_add(a + c, k, piece);
            lemma_pieces_add(a + c + k, e, piece);
        }
        lemma_pieces_of_element(text);
        lemma_closing_pieces(last_level - level, Piece::Item);
        lemma_closing_pieces(last_level - level, Piece::OpenList);
        lemma_closing_pieces(last_level - level, Piece::ListBody);
        lemma_closing_pieces(last_level - level, Piece::CloseList);
        lemma_closing_pieces(last_level - level, Piece::EndItem);
        lemma_pieces_add(a, c, Piece::Item);
        lemma_pieces_add(a + c, k, Piece::Item);
        lemma_pieces_add(a + c + k, e, Piece::Item);
        assert(text_of(a + c + k + e) == text_of(a) + text_of(c) + text_of(k) + text_of(e));
        assert(text_of(a + c + k + e) =~= element(header, level, last_level));
    }
}

/// What the single pieces of an item are written as, and what they count.
proof fn lemma_pieces_of_element(text: Piece)
    requires
        text is Link,
    ensures
        forall|piece: Piece|
            #![trigger count(seq![Piece::Item], piece)]
            !(piece is Link) ==> count(seq![Piece::Item], piece) == (if piece == Piece::Item {
                1int
            } else {
                0int
            }) && count(seq![Piece::OpenList], piece) == (if piece == Piece::OpenList {
                1int
            } else {
                0int
            }) && count(seq![Piece::ListBody], piece) == (if piece == Piece::ListBody {
                1int
            } else {
                0int
            }) && count(seq![Piece::EndItem], piece) == (if piece == Piece::EndItem {
                1int
            } else {
                0int
            }) && count(seq![text], piece) == 0,
        text_of(seq![Piece::Item]) == piece_text(Piece::Item),
        text_of(seq![Piece::OpenList]) == piece_text(Piece::OpenList),
        text_of(seq![Piece::ListBody]) == piece_text(Piece::ListBody),
        text_of(seq![Piece::EndItem]) == piece_text(Piece::EndItem),
        text_of(seq![text]) == piece_text(text),
{
    assert forall|piece: Piece|
        #![trigger count(seq![Piece::Item], piece)]
        !(piece is Link) implies count(seq![Piece::Item], piece) == (if piece == Piece::Item {
            1int
        } else {
            0int
        }) && count(seq![Piece::OpenList], piece) == (if piece == Piece::OpenList {
            1int
        } else {
            0int
        }) && count(seq![Piece::ListBody], piece) == (if piece == Piece::ListBody {
            1int
        } else {
            0int
        }) && count(seq![Piece::EndItem], piece) == (if piece == Piece::EndItem {
            1int
        } else {
            0int
        }) && count(seq![text], piece) == 0 by {
        lemma_one_piece(Piece::Item, piece);
        lemma_one_piece(Piece::OpenList, piece);
        lemma_one_piece(Piece::ListBody, piece);
        lemma_one_piece(Piece::EndItem, piece);
        lemma_one_piece(text, piece);
    }
    lemma_one_piece(Piece::Item, Piece::Item);
    lemma_one_piece(Piece::OpenList, Piece::Item);
    lemma_one_piece(Piece::ListBody, Piece::Item);
    lemma_one_piece(Piece::EndItem, Piece::Item);
    lemma_one_piece(text, Piece::Item);
}

/// The items of a table are what their pieces are written as; the pieces
/// open a list with every head of a list, and what they leave open, of lists
/// and of items, is what the levels of the headings leave open.
pub proof fn lemma_elements_pieces(headings: Seq<Heading>)
    ensures
        text_of(elements_pieces(headings)) == elements(headings),
        count(elements_pieces(headings), Piece::Item) == headings.len(),
        count(elements_pieces(headings), Piece::OpenList) == count(
            elements_pieces(headings),
            Piece::ListBody,
        ),
        count(elements_pieces(headings), Piece::ListBody) - count(
            elements_pieces(headings),
            Piece::CloseList,
        ) == lists_left_open(headings),
        count(elements_pieces(headings), Piece::Item) - count(
            elements_pieces(headings),
            Piece::EndItem,
        ) - count(elements_pieces(headings), Piece::CloseList) == lists_left_open(headings),
    decreases headings.len(),
{
    if headings.len() > 0 {
        let first = element_pieces(headings[0].text, next_level(headings), headings[0].level);
        let rest = elements_pieces(headings.skip(1));
        lemma_elements_pieces(headings.skip(1));
        lemma_element_pieces(headings[0].text, next_level(headings), headings[0].level);
        lemma_pieces_add(first, rest, Piece::Item);
        lemma_pieces_add(first, rest, Piece::OpenList);
        lemma_pieces_add(first, rest, Piece::ListBody);
        lemma_pieces_add(first, rest, Piece::CloseList);
        lemma_pieces_add(first, rest, Piece::EndItem);
    }
}

/// A table of contents is balanced: where the headings start at level 2 and
/// descend level by level, the items of the table are written from pieces
/// that open as many lists as they close, and as many items.
pub proof fn lemma_table_is_balanced(headings: Seq<Heading>)
    requires
        headings.len() > 0,
        headings[0].level == 2,
        descends_by_steps(headings),
        forall|i: int| 0 <= i < headings.len() ==> (#[trigger] headings[i]).level >= 2,
    ensures
        text_of(elements_pieces(headings)) == elements(headings),
        count(elements_pieces(headings), Piece::OpenList) == count(
            elements_pieces(headings),
            Piece::CloseList,
        ),
        count(elements_pieces(headings), Piece::ListBody) == count(
            elements_pieces(headings),
            Piece::CloseList,
        ),
        count(elements_pieces(headings), Piece::Item) == count(
            elements_pieces(headings),
            Piece::EndItem,
        ) + count(elements_pieces(headings), Piece::CloseList),
{
    lemma_elements_pieces(headings);
    lemma_lists_balance(headings);
}

} // verus!
