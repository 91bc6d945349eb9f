//! The card model: suits, faces, ranks, the full 52-card deck and display
//! names.
//!
//! A card's rank is derived once from its face through a fixed bijection
//! (2..10 keep their value, Jack is 11, Queen 12, King 13 and Ace 14) and is
//! never recomputed afterwards.

use vstd::prelude::*;
use vstd::string::StringExecFns;

verus! {

/// The four suits of a standard deck.
#[derive(Clone, Copy, Debug, PartialEq, Eq, Structural)]
pub enum Suit {
    Clubs,
    Diamonds,
    Hearts,
    Spades,
}

/// The thirteen faces of a standard deck.
#[derive(Clone, Copy, Debug, PartialEq, Eq, Structural)]
pub enum Face {
    Two,
    Three,
    Four,
    Five,
    Six,
    Seven,
    Eight,
    Nine,
    Ten,
    Jack,
    Queen,
    King,
    Ace,
}

/// A playing card: a suit, a face and the rank derived from the face.
#[derive(Clone, Copy, Debug, PartialEq, Eq, Structural)]
pub struct Card {
    pub suit: Suit,
    pub face: Face,
    pub rank: u8,
}

/// The fixed face-to-rank bijection: 2..10 keep their value, Jack is 11,
/// Queen 12, King 13 and Ace 14 (Ace is high).
pub open spec fn spec_face_rank(f: Face) -> u8 {
    match f {
        Face::Two => 2,
        Face::Three => 3,
        Face::Four => 4,
        Face::Five => 5,
        Face::Six => 6,
        Face::Seven => 7,
        Face::Eight => 8,
        Face::Nine => 9,
        Face::Ten => 10,
        Face::Jack => 11,
        Face::Queen => 12,
        Face::King => 13,
        Face::Ace => 14,
    }
}

/// Computes the rank of a face.
#[verifier::when_used_as_spec(spec_face_rank)]
pub fn face_rank(f: Face) -> (r: u8)
    ensures
        r == spec_face_rank(f),
{
    match f {
        Face::Two => 2,
        Face::Three => 3,
        Face::Four => 4,
        Face::Five => 5,
        Face::Six => 6,
        Face::Seven => 7,
        Face::Eight => 8,
        Face::Nine => 9,
        Face::Ten => 10,
        Face::Jack => 11,
        Face::Queen => 12,
        Face::King => 13,
        Face::Ace => 14,
    }
}

/// The face whose rank is `r`, if `r` lies in 2..14.
pub open spec fn spec_face_of_rank(r: u8) -> Option<Face> {
    if r == 2 {
        Some(Face::Two)
    } else if r == 3 {
        Some(Face::Three)
    } else if r == 4 {
        Some(Face::Four)
    } else if r == 5 {
        Some(Face::Five)
    } else if r == 6 {
        Some(Face::Six)
    } else if r == 7 {
        Some(Face::Seven)
    } else if r == 8 {
        Some(Face::Eight)
    } else if r == 9 {
        Some(Face::Nine)
    } else if r == 10 {
        Some(Face::Ten)
    } else if r == 11 {
        Some(Face::Jack)
    } else if r == 12 {
        Some(Face::Queen)
    } else if r == 13 {
        Some(Face::King)
    } else if r == 14 {
        Some(Face::Ace)
    } else {
        None
    }
}

/// Computes the face of a rank, the inverse of `face_rank`.
pub fn face_of_rank(r: u8) -> (f: Option<Face>)
    ensures
        f == spec_face_of_rank(r),
{
    if r == 2 {
        Some(Face::Two)
    } else if r == 3 {
        Some(Face::Three)
    } else if r == 4 {
        Some(Face::Four)
    } else if r == 5 {
        Some(Face::Five)
    } else if r == 6 {
        Some(Face::Six)
    } else if r == 7 {
        Some(Face::Seven)
    } else if r == 8 {
        Some(Face::Eight)
    } else if r == 9 {
        Some(Face::Nine)
    } else if r == 10 {
        Some(Face::Ten)
    } else if r == 11 {
        Some(Face::Jack)
    } else if r == 12 {
        Some(Face::Queen)
    } else if r == 13 {
        Some(Face::King)
    } else if r == 14 {
        Some(Face::Ace)
    } else {
        None
    }
}

/// The face-to-rank mapping is a bijection between the faces and 2..14:
/// `face_of_rank` inverts `face_rank`, and every rank in 2..14 is taken.
pub proof fn lemma_face_rank_bijective()
    ensures
        forall|f: Face| #[trigger] spec_face_of_rank(spec_face_rank(f)) == Some(f),
        forall|r: u8|
            2 <= r <= 14 ==> (#[trigger] spec_face_of_rank(r)) is Some
                && spec_face_rank(spec_face_of_rank(r).unwrap()) == r,
{
}

impl Card {
    /// A card is well formed when its rank is the one derived from its face.
    pub open spec fn wf(self) -> bool {
        self.rank == spec_face_rank(self.face)
    }
}

/// Every card of the sequence carries the rank derived from its face.
pub open spec fn cards_wf(cards: Seq<Card>) -> bool {
    forall|i: int| 0 <= i < cards.len() ==> (#[trigger] cards[i]).wf()
}

/// Well-formedness survives any rearrangement: a sequence whose cards all
/// come from a well-formed one is well formed.
pub proof fn lemma_cards_wf_from(from: Seq<Card>, to: Seq<Card>)
    requires
        cards_wf(from),
        forall|i: int| 0 <= i < to.len() ==> from.contains(#[trigger] to[i]),
    ensures
        cards_wf(to),
{
    assert forall|i: int| 0 <= i < to.len() implies (#[trigger] to[i]).wf() by {
        let j = choose|j: int| 0 <= j < from.len() && from[j] == to[i];
        assert(from[j].wf());
    }
}

/// Well-formedness of a concatenation follows from both halves.
pub proof fn lemma_cards_wf_concat(a: Seq<Card>, b: Seq<Card>)
    requires
        cards_wf(a),
        cards_wf(b),
    ensures
        cards_wf(a + b),
{
    assert forall|i: int| 0 <= i < (a + b).len() implies (#[trigger] (a + b)[i]).wf() by {
        if i < a.len() {
            assert((a + b)[i] == a[i]);
        } else {
            assert((a + b)[i] == b[i - a.len()]);
        }
    }
}

/// Builds a card from a suit and a face, deriving the rank.
pub fn card_new(suit: Suit, face: Face) -> (c: Card)
    ensures
        c == (Card { suit, face, rank: spec_face_rank(face) }),
        c.wf(),
{
    Card { suit, face, rank: face_rank(face) }
}

/// The suit at position `i` of the fixed suit order.
pub open spec fn suit_at(i: int) -> Suit {
    if i == 0 {
        Suit::Clubs
    } else if i == 1 {
        Suit::Diamonds
    } else if i == 2 {
        Suit::Hearts
    } else {
        Suit::Spades
    }
}

/// The face at position `i` of the fixed face order.
pub open spec fn face_at(i: int) -> Face {
    if i == 0 {
        Face::Two
    } else if i == 1 {
        Face::Three
    } else if i == 2 {
        Face::Four
    } else if i == 3 {
        Face::Five
    } else if i == 4 {
        Face::Six
    } else if i == 5 {
        Face::Seven
    } else if i == 6 {
        Face::Eight
    } else if i == 7 {
        Face::Nine
    } else if i == 8 {
        Face::Ten
    } else if i == 9 {
        Face::Jack
    } else if i == 10 {
        Face::Queen
    } else if i == 11 {
        Face::King
    } else {
        Face::Ace
    }
}

/// Card number `i` of the unshuffled deck: suits in blocks of thirteen faces.
pub open spec fn deck_card(i: int) -> Card {
    Card {
        suit: suit_at(i / 13),
        face: face_at(i % 13),
        rank: spec_face_rank(face_at(i % 13)),
    }
}

/// The unshuffled 52-card deck: the cartesian product of the four suits and
/// the thirteen faces, suits outermost.
pub open spec fn full_deck() -> Seq<Card> {
    Seq::new(52, |i: int| deck_card(i))
}

/// The full deck has exactly 52 cards, one per suit-and-face pair: all pairs
/// are distinct and every rank is the one derived from the face.
pub proof fn lemma_deck_properties()
    ensures
        full_deck().len() == 52,
        forall|i: int| 0 <= i < 52 ==> (#[trigger] full_deck()[i]).wf(),
        forall|i: int, j: int|
            0 <= i < 52 && 0 <= j < 52 && i != j ==> (full_deck()[i].suit != full_deck()[j].suit
                || full_deck()[i].face != full_deck()[j].face),
{
    assert forall|i: int, j: int|
        0 <= i < 52 && 0 <= j < 52 && i != j implies (full_deck()[i].suit
        != full_deck()[j].suit || full_deck()[i].face != full_deck()[j].face) by {
        vstd::arithmetic::div_mod::lemma_fundamental_div_mod(i, 13);
        vstd::arithmetic::div_mod::lemma_fundamental_div_mod(j, 13);
        assert(0 <= i / 13 < 4 && 0 <= i % 13 < 13);
        assert(0 <= j / 13 < 4 && 0 <= j % 13 < 13);
    }
}

/// The suit at position `i`.
fn suit_index(i: usize) -> (s: Suit)
    requires
        i < 4,
    ensures
        s == suit_at(i as int),
{
    if i == 0 {
        Suit::Clubs
    } else if i == 1 {
        Suit::Diamonds
    } else if i == 2 {
        Suit::Hearts
    } else {
        Suit::Spades
    }
}

/// The face at position `i`.
fn face_index(i: usize) -> (f: Face)
    requires
        i < 13,
    ensures
        f == face_at(i as int),
{
    if i == 0 {
        Face::Two
    } else if i == 1 {
        Face::Three
    } else if i == 2 {
        Face::Four
    } else if i == 3 {
        Face::Five
    } else if i == 4 {
        Face::Six
    } else if i == 5 {
        Face::Seven
    } else if i == 6 {
        Face::Eight
    } else if i == 7 {
        Face::Nine
    } else if i == 8 {
        Face::Ten
    } else if i == 9 {
        Face::Jack
    } else if i == 10 {
        Face::Queen
    } else if i == 11 {
        Face::King
    } else {
        Face::Ace
    }
}

/// Builds the unshuffled deck: exactly 52 cards, one per suit-and-face pair,
/// each with its derived rank.
pub fn build_deck() -> (deck: Vec<Card>)
    ensures
        deck@ == full_deck(),
        deck@.len() == 52,
{
    let mut deck: Vec<Card> = Vec::new();
    for i in 0..52usize
        invariant
            deck@ =~= full_deck().take(i as int),
    {
        let card = card_new(suit_index(i / 13), face_index(i % 13));
        deck.push(card);
        assert(full_deck().take(i + 1) =~= full_deck().take(i as int).push(deck_card(i as int)));
    }
    assert(deck@ =~= full_deck());
    deck
}

/// The display name of a suit.
pub open spec fn spec_suit_name(s: Suit) -> Seq<char> {
    match s {
        Suit::Clubs => "Clubs"@,
        Suit::Diamonds => "Diamonds"@,
        Suit::Hearts => "Hearts"@,
        Suit::Spades => "Spades"@,
    }
}

/// The display name of a face: court cards are spelt out, numeric faces use
/// the literal numeral.
pub open spec fn spec_face_name(f: Face) -> Seq<char> {
    match f {
        Face::Two => "2"@,
        Face::Three => "3"@,
        Face::Four => "4"@,
        Face::Five => "5"@,
        Face::Six => "6"@,
        Face::Seven => "7"@,
        Face::Eight => "8"@,
        Face::Nine => "9"@,
        Face::Ten => "10"@,
        Face::Jack => "Jack"@,
        Face::Queen => "Queen"@,
        Face::King => "King"@,
        Face::Ace => "Ace"@,
    }
}

/// The full display name of a card, such as "Jack of Hearts" or "10 of Clubs".
pub open spec fn spec_card_name(c: Card) -> Seq<char> {
    spec_face_name(c.face) + " of "@ + spec_suit_name(c.suit)
}

/// The display name of a suit.
pub fn suit_name(s: Suit) -> (r: &'static str)
    ensures
        r@ == spec_suit_name(s),
{
    match s {
        Suit::Clubs => "Clubs",
        Suit::Diamonds => "Diamonds",
        Suit::Hearts => "Hearts",
        Suit::Spades => "Spades",
    }
}

/// The display name of a face.
pub fn face_name(f: Face) -> (r: &'static str)
    ensures
        r@ == spec_face_name(f),
{
    match f {
        Face::Two => "2",
        Face::Three => "3",
        Face::Four => "4",
        Face::Five => "5",
        Face::Six => "6",
        Face::Seven => "7",
        Face::Eight => "8",
        Face::Nine => "9",
        Face::Ten => "10",
        Face::Jack => "Jack",
        Face::Queen => "Queen",
        Face::King => "King",
        Face::Ace => "Ace",
    }
}

/// The full display name of a card, total over all well-formed cards.
pub fn display_card(card: &Card) -> (r: String)
    ensures
        r@ == spec_card_name(*card),
{
    let mut name = String::from_str(face_name(card.face));
    name.append(" of ");
    name.append(suit_name(card.suit));
    name
}

} // verus!
