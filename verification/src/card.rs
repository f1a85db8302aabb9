//! Cards: suits, ranks, the rule that decides which card may follow which,
//! and the standard deck of fifty-two.

use vstd::multiset::Multiset;
use vstd::prelude::*;
use vstd::string::StringExecFns;

verus! {

/// The four suits, in the order in which the standard deck lists them.
#[derive(Clone, Copy, Debug, PartialEq, Eq, PartialOrd, Structural)]
pub enum Suit {
    Hearts,
    Spades,
    Clubs,
    Diamonds,
}

/// The thirteen ranks, ace low.
#[derive(Clone, Copy, Debug, PartialEq, Eq, PartialOrd, Structural)]
pub enum Rank {
    Ace,
    Two,
    Three,
    Four,
    Five,
    Six,
    Seven,
    Eight,
    Nine,
    Ten,
    Jack,
    Queen,
    King,
}

/// A playing card. Two cards are equal when suit and rank are.
#[derive(Clone, Copy, Debug, PartialEq, Eq, PartialOrd, Structural)]
pub struct Card {
    pub suit: Suit,
    pub rank: Rank,
}

/// Whether `a` may be played on `b`: they share a suit or a rank.
pub open spec fn stackable(a: Card, b: Card) -> bool {
    a.suit == b.suit || a.rank == b.rank
}

/// The printed name of a suit.
pub open spec fn suit_name(suit: Suit) -> Seq<char> {
    match suit {
        Suit::Hearts => "Hearts"@,
        Suit::Spades => "Spades"@,
        Suit::Clubs => "Clubs"@,
        Suit::Diamonds => "Diamonds"@,
    }
}

/// The printed name of a rank.
pub open spec fn rank_name(rank: Rank) -> Seq<char> {
    match rank {
        Rank::Ace => "Ace"@,
        Rank::Two => "Two"@,
        Rank::Three => "Three"@,
        Rank::Four => "Four"@,
        Rank::Five => "Five"@,
        Rank::Six => "Six"@,
        Rank::Seven => "Seven"@,
        Rank::Eight => "Eight"@,
        Rank::Nine => "Nine"@,
        Rank::Ten => "Ten"@,
        Rank::Jack => "Jack"@,
        Rank::Queen => "Queen"@,
        Rank::King => "King"@,
    }
}

/// The printed name of a card: rank, then suit.
pub open spec fn card_name(card: Card) -> Seq<char> {
    rank_name(card.rank) + " of "@ + suit_name(card.suit)
}

/// The suit that stands at place `i` of the four, counted from zero.
pub open spec fn suit_at(i: int) -> Suit {
    if i == 0 {
        Suit::Hearts
    } else if i == 1 {
        Suit::Spades
    } else if i == 2 {
        Suit::Clubs
    } else {
        Suit::Diamonds
    }
}

/// The rank that stands at place `i` of the thirteen, counted from zero.
pub open spec fn rank_at(i: int) -> Rank {
    if i == 0 {
        Rank::Ace
    } else if i == 1 {
        Rank::Two
    } else if i == 2 {
        Rank::Three
    } else if i == 3 {
        Rank::Four
    } else if i == 4 {
        Rank::Five
    } else if i == 5 {
        Rank::Six
    } else if i == 6 {
        Rank::Seven
    } else if i == 7 {
        Rank::Eight
    } else if i == 8 {
        Rank::Nine
    } else if i == 9 {
        Rank::Ten
    } else if i == 10 {
        Rank::Jack
    } else if i == 11 {
        Rank::Queen
    } else {
        Rank::King
    }
}

/// The place of a suit among the four: the inverse of `suit_at`.
pub open spec fn suit_index(suit: Suit) -> int {
    match suit {
        Suit::Hearts => 0,
        Suit::Spades => 1,
        Suit::Clubs => 2,
        Suit::Diamonds => 3,
    }
}

/// The place of a rank among the thirteen: the inverse of `rank_at`.
pub open spec fn rank_index(rank: Rank) -> int {
    match rank {
        Rank::Ace => 0,
        Rank::Two => 1,
        Rank::Three => 2,
        Rank::Four => 3,
        Rank::Five => 4,
        Rank::Six => 5,
        Rank::Seven => 6,
        Rank::Eight => 7,
        Rank::Nine => 8,
        Rank::Ten => 9,
        Rank::Jack => 10,
        Rank::Queen => 11,
        Rank::King => 12,
    }
}

/// The place of a card in the standard deck.
pub open spec fn card_index(card: Card) -> int {
    13 * suit_index(card.suit) + rank_index(card.rank)
}

/// The card at place `i` of the standard deck: suits follow one another,
/// and within a suit the ranks run from ace to king.
pub open spec fn standard_card(i: int) -> Card {
    Card { suit: suit_at(i / 13), rank: rank_at(i % 13) }
}

/// The standard deck in its canonical order.
pub open spec fn standard_deck() -> Seq<Card> {
    Seq::new(52, |i: int| standard_card(i))
}

/// The cards of the standard deck, without their order.
pub open spec fn full_deck() -> Multiset<Card> {
    standard_deck().to_multiset()
}

impl Suit {
    /// The printed name of the suit.
    pub fn name(&self) -> (text: String)
        ensures
            text@ == suit_name(*self),
    {
        match self {
            Suit::Hearts => String::from_str("Hearts"),
            Suit::Spades => String::from_str("Spades"),
            Suit::Clubs => String::from_str("Clubs"),
            Suit::Diamonds => String::from_str("Diamonds"),
        }
    }

    fn from_index(i: usize) -> (suit: Suit)
        requires
            i < 4,
        ensures
            suit == suit_at(i as int),
    {
        if i == 0 {
            Suit::Hearts
        } else if i == 1 {
            Suit::Spades
        } else if i == 2 {
            Suit::Clubs
        } else {
            Suit::Diamonds
        }
    }
}

impl Rank {
    /// The printed name of the rank.
    pub fn name(&self) -> (text: String)
        ensures
            text@ == rank_name(*self),
    {
        match self {
            Rank::Ace => String::from_str("Ace"),
            Rank::Two => String::from_str("Two"),
            Rank::Three => String::from_str("Three"),
            Rank::Four => String::from_str("Four"),
            Rank::Five => String::from_str("Five"),
            Rank::Six => String::from_str("Six"),
            Rank::Seven => String::from_str("Seven"),
            Rank::Eight => String::from_str("Eight"),
            Rank::Nine => String::from_str("Nine"),
            Rank::Ten => String::from_str("Ten"),
            Rank::Jack => String::from_str("Jack"),
            Rank::Queen => String::from_str("Queen"),
            Rank::King => String::from_str("King"),
        }
    }

    fn from_index(i: usize) -> (rank: Rank)
        requires
            i < 13,
        ensures
            rank == rank_at(i as int),
    {
        if i == 0 {
            Rank::Ace
        } else if i == 1 {
            Rank::Two
        } else if i == 2 {
            Rank::Three
        } else if i == 3 {
            Rank::Four
        } else if i == 4 {
            Rank::Five
        } else if i == 5 {
            Rank::Six
        } else if i == 6 {
            Rank::Seven
        } else if i == 7 {
            Rank::Eight
        } else if i == 8 {
            Rank::Nine
        } else if i == 9 {
            Rank::Ten
        } else if i == 10 {
            Rank::Jack
        } else if i == 11 {
            Rank::Queen
        } else {
            Rank::King
        }
    }
}

impl Card {
    pub fn new(suit: Suit, rank: Rank) -> (card: Card)
        ensures
            card == (Card { suit, rank }),
    {
        Card { suit, rank }
    }

    /// The printed name of the card, such as "Ace of Hearts".
    pub fn name(&self) -> (text: String)
        ensures
            text@ == card_name(*self),
    {
        let mut text = self.rank.name();
        text.append(" of ");
        let suit = self.suit.name();
        text.append(suit.as_str());
        text
    }

    /// Whether this card may be played on `b`.
    pub fn stackable(&self, b: &Card) -> (ok: bool)
        ensures
            ok == stackable(*self, *b),
    {
        self.suit == b.suit || self.rank == b.rank
    }
}

/// A fresh standard deck in canonical order.
pub fn std_deck() -> (deck: Vec<Card>)
    ensures
        deck@ == standard_deck(),
{
    let mut deck: Vec<Card> = Vec::new();
    let mut s: usize = 0;
    while s < 4
        invariant
            s <= 4,
            deck@.len() == 13 * s,
            forall|i: int| 0 <= i < deck@.len() ==> deck@[i] == standard_card(i),
        decreases 4 - s,
    {
        let suit = Suit::from_index(s);
        let mut r: usize = 0;
        while r < 13
            invariant
                s < 4,
                r <= 13,
                suit == suit_at(s as int),
                deck@.len() == 13 * s + r,
                forall|i: int| 0 <= i < deck@.len() ==> deck@[i] == standard_card(i),
            decreases 13 - r,
        {
            deck.push(Card::new(suit, Rank::from_index(r)));
            r += 1;
        }
        s += 1;
    }
    deck
}

/// A card may follow another exactly when the other may follow it.
pub proof fn lemma_stackable_symmetric(a: Card, b: Card)
    ensures
        stackable(a, b) == stackable(b, a),
{
}

/// Every card may follow itself.
pub proof fn lemma_stackable_reflexive(a: Card)
    ensures
        stackable(a, a),
{
}

/// Every card has a place in the standard deck, and stands there.
pub proof fn lemma_standard_deck_complete(card: Card)
    ensures
        0 <= card_index(card) < 52,
        standard_deck()[card_index(card)] == card,
        standard_deck().contains(card),
{
}

/// The standard deck holds fifty-two cards and none of them twice.
pub proof fn lemma_standard_deck_distinct()
    ensures
        standard_deck().len() == 52,
        standard_deck().no_duplicates(),
{
    assert forall|i: int, j: int|
        0 <= i < 52 && 0 <= j < 52 && i != j implies standard_deck()[i] != standard_deck()[j] by {
        assert(card_index(standard_card(i)) != card_index(standard_card(j)));
    }
}

/// The full deck holds every card exactly once.
pub proof fn lemma_full_deck_counts(card: Card)
    ensures
        full_deck().count(card) == 1,
        full_deck().len() == 52,
{
    broadcast use vstd::seq_lib::group_to_multiset_ensures;

    lemma_standard_deck_complete(card);
    lemma_standard_deck_distinct();
    standard_deck().lemma_multiset_has_no_duplicates();
}

} // verus!
