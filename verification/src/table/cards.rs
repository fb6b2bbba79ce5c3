//! Card identity: suit, rank, point value and the fixed order of the deck.

use vstd::prelude::*;

verus! {

/// The four suits, listed from the lowest to the highest.
#[derive(Debug, Copy, Clone, PartialEq, Eq, Hash, Structural)]
pub enum Colors {
    Schelln,
    Herz,
    Gras,
    Eichel,
}

/// The eight ranks, listed from the lowest to the highest.
#[derive(Debug, Copy, Clone, PartialEq, Eq, Hash, Structural)]
pub enum Symbols {
    Sieben,
    Acht,
    Neun,
    Koenig,
    Zehn,
    Ass,
    Unter,
    Ober,
}

/// One of the 32 cards: a rank in a suit.
#[derive(Debug, Copy, Clone, PartialEq, Eq, Hash, Structural)]
pub struct Card {
    pub symbol: Symbols,
    pub color: Colors,
}

impl Colors {
    /// Position of the suit in the suit order, 0 for the lowest.
    pub open spec fn height(self) -> int {
        match self {
            Colors::Schelln => 0,
            Colors::Herz => 1,
            Colors::Gras => 2,
            Colors::Eichel => 3,
        }
    }

    /// The suit at position `i` of the suit order.
    pub open spec fn at(i: int) -> Colors {
        if i == 0 {
            Colors::Schelln
        } else if i == 1 {
            Colors::Herz
        } else if i == 2 {
            Colors::Gras
        } else {
            Colors::Eichel
        }
    }

    /// Position of the suit in the suit order.
    pub fn ordinal(self) -> (n: u8)
        ensures
            n == self.height(),
            n < 4,
    {
        match self {
            Colors::Schelln => 0,
            Colors::Herz => 1,
            Colors::Gras => 2,
            Colors::Eichel => 3,
        }
    }

    /// The suit at position `n` of the suit order.
    pub(crate) fn from_ordinal(n: u8) -> (color: Colors)
        requires
            n < 4,
        ensures
            color == Colors::at(n as int),
            color.height() == n,
    {
        if n == 0 {
            Colors::Schelln
        } else if n == 1 {
            Colors::Herz
        } else if n == 2 {
            Colors::Gras
        } else {
            Colors::Eichel
        }
    }
}

impl Symbols {
    /// Position of the rank in the rank order, 0 for the lowest.
    pub open spec fn height(self) -> int {
        match self {
            Symbols::Sieben => 0,
            Symbols::Acht => 1,
            Symbols::Neun => 2,
            Symbols::Koenig => 3,
            Symbols::Zehn => 4,
            Symbols::Ass => 5,
            Symbols::Unter => 6,
            Symbols::Ober => 7,
        }
    }

    /// The rank at position `i` of the rank order.
    pub open spec fn at(i: int) -> Symbols {
        if i == 0 {
            Symbols::Sieben
        } else if i == 1 {
            Symbols::Acht
        } else if i == 2 {
            Symbols::Neun
        } else if i == 3 {
            Symbols::Koenig
        } else if i == 4 {
            Symbols::Zehn
        } else if i == 5 {
            Symbols::Ass
        } else if i == 6 {
            Symbols::Unter
        } else {
            Symbols::Ober
        }
    }

    /// Position of the rank in the rank order.
    pub fn ordinal(self) -> (n: u8)
        ensures
            n == self.height(),
            n < 8,
    {
        match self {
            Symbols::Sieben => 0,
            Symbols::Acht => 1,
            Symbols::Neun => 2,
            Symbols::Koenig => 3,
            Symbols::Zehn => 4,
            Symbols::Ass => 5,
            Symbols::Unter => 6,
            Symbols::Ober => 7,
        }
    }

    /// The rank at position `n` of the rank order.
    pub(crate) fn from_ordinal(n: u8) -> (symbol: Symbols)
        requires
            n < 8,
        ensures
            symbol == Symbols::at(n as int),
            symbol.height() == n,
    {
        if n == 0 {
            Symbols::Sieben
        } else if n == 1 {
            Symbols::Acht
        } else if n == 2 {
            Symbols::Neun
        } else if n == 3 {
            Symbols::Koenig
        } else if n == 4 {
            Symbols::Zehn
        } else if n == 5 {
            Symbols::Ass
        } else if n == 6 {
            Symbols::Unter
        } else {
            Symbols::Ober
        }
    }
}

impl Card {
    /// Points the card counts for at the end of a hand.
    pub open spec fn points(self) -> int {
        match self.symbol {
            Symbols::Ass => 11,
            Symbols::Zehn => 10,
            Symbols::Koenig => 4,
            Symbols::Ober => 3,
            Symbols::Unter => 2,
            _ => 0,
        }
    }

    /// Position of the card in the deck order: suit by suit, rank by rank.
    pub open spec fn slot(self) -> int {
        self.color.height() * 8 + self.symbol.height()
    }

    /// The card at position `i` of the deck order.
    pub open spec fn at(i: int) -> Card {
        Card { symbol: Symbols::at(i % 8), color: Colors::at(i / 8) }
    }

    /// Points the card counts for: 11 for an Ass, 10 for a Zehn, 4 for a
    /// Koenig, 3 for an Ober, 2 for an Unter and 0 for the rest. Never fails.
    pub fn get_value(self) -> (value: Result<i16, &'static str>)
        ensures
            value == Ok::<i16, &'static str>(self.points() as i16),
    {
        match self.symbol {
            Symbols::Ass => Ok(11),
            Symbols::Zehn => Ok(10),
            Symbols::Koenig => Ok(4),
            Symbols::Ober => Ok(3),
            Symbols::Unter => Ok(2),
            _ => Ok(0),
        }
    }

    /// Position of the card in the deck order.
    pub fn index(&self) -> (i: usize)
        ensures
            i == self.slot(),
            i < 32,
    {
        let color: u8 = self.color.ordinal();
        let symbol: u8 = self.symbol.ordinal();
        (color * 8 + symbol) as usize
    }

    /// The card at position `i` of the deck order.
    pub(crate) fn from_index(i: usize) -> (card: Card)
        requires
            i < 32,
        ensures
            card == Card::at(i as int),
            card.slot() == i,
    {
        Card { symbol: Symbols::from_ordinal((i % 8) as u8), color: Colors::from_ordinal((i / 8) as u8) }
    }
}

/// The whole deck in deck order.
pub open spec fn full_deck() -> Seq<Card> {
    Seq::new(32, |i: int| Card::at(i))
}

/// Sum of the points of the first `n` cards of the deck order.
pub open spec fn points_below(n: nat) -> int
    decreases n,
{
    if n == 0 {
        0
    } else {
        points_below((n - 1) as nat) + Card::at(n - 1).points()
    }
}

/// Every card sits at its own position of the deck order, and every
/// position below 32 holds the card that names it.
pub proof fn lemma_slot_round_trip(card: Card, i: int)
    ensures
        0 <= card.slot() < 32,
        Card::at(card.slot()) == card,
        0 <= i < 32 ==> Card::at(i).slot() == i,
{
}

/// The deck holds 32 cards, no card twice, and every card there is.
pub proof fn lemma_full_deck_is_complete()
    ensures
        full_deck().len() == 32,
        full_deck().no_duplicates(),
        forall|card: Card| #[trigger] full_deck().contains(card),
{
    assert forall|i: int, j: int| 0 <= i < 32 && 0 <= j < 32 && i != j implies full_deck()[i] != full_deck()[j] by {
        lemma_slot_round_trip(full_deck()[i], i);
        lemma_slot_round_trip(full_deck()[j], j);
    }
    assert forall|card: Card| #[trigger] full_deck().contains(card) by {
        lemma_slot_round_trip(card, 0);
        assert(full_deck()[card.slot()] == card);
    }
}

/// The points of all 32 cards add up to 120.
pub proof fn lemma_deck_is_worth_120()
    ensures
        points_below(32) == 120,
{
    reveal_with_fuel(points_below, 33);
}

/// Builds the deck in deck order.
pub fn new_deck() -> (deck: Vec<Card>)
    ensures
        deck@ == full_deck(),
{
    let mut deck: Vec<Card> = Vec::new();
    let mut i: usize = 0;
    while i < 32
        invariant
            i <= 32,
            deck@.len() == i,
            forall|k: int| 0 <= k < i ==> deck@[k] == Card::at(k),
        decreases 32 - i,
    {
        deck.push(Card::from_index(i));
        i = i + 1;
    }
    assert(deck@ =~= full_deck());
    deck
}

} // verus!
