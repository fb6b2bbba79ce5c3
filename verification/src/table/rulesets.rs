//! Named variants of the game, and the two predicates that define one:
//! which cards are trump, and which of two cards beats the other in a trick.

use vstd::prelude::*;
use crate::table::cards::{Card, Colors, Symbols};

verus! {

/// A variant of the game.
#[derive(Debug, Copy, Clone, PartialEq, Eq)]
pub struct Ruleset {
    /// The suit whose cards are all trump, if the variant has one.
    pub trump_color: Option<Colors>,
    /// Up to two ranks whose cards are trump in every suit.
    pub trump_symbols: [Option<Symbols>; 2],
    /// The card that is called for: its holder plays with the bidder.
    pub sow: Option<Card>,
    /// Rank of the variant among bids: a higher one outbids a lower one.
    pub value: u8,
}

impl Ruleset {
    /// A card is trump when it is of the trump suit or of a trump rank.
    pub open spec fn trumps(self, card: Card) -> bool {
        ||| self.trump_color == Some(card.color)
        ||| self.trump_symbols[0] == Some(card.symbol)
        ||| self.trump_symbols[1] == Some(card.symbol)
    }

    /// What a card is worth in a trick that `led` opened, as one number.
    /// Trump lies above every plain card, and a plain card of the suit led
    /// above every other plain card. Within such a class the higher rank
    /// counts, and between equal ranks the higher suit.
    pub open spec fn strength(self, card: Card, led: Card) -> int {
        let class: int = if self.trumps(card) {
            2
        } else if card.color == led.color {
            1
        } else {
            0
        };
        class * 32 + card.symbol.height() * 4 + card.color.height()
    }

    /// `a` beats `b` in a trick that `led` opened.
    pub open spec fn beats(self, a: Card, b: Card, led: Card) -> bool {
        self.strength(a, led) > self.strength(b, led)
    }

    /// Whether `card` is trump: of the trump suit, or of one of the trump
    /// ranks.
    pub fn card_is_trump(&self, card: &Card) -> (trump: bool)
        ensures
            trump == self.trumps(*card),
    {
        let by_color = match self.trump_color {
            Some(color) => color == card.color,
            None => false,
        };
        let by_first = match self.trump_symbols[0] {
            Some(symbol) => symbol == card.symbol,
            None => false,
        };
        let by_second = match self.trump_symbols[1] {
            Some(symbol) => symbol == card.symbol,
            None => false,
        };
        by_color || by_first || by_second
    }

    /// Whether `card1` beats `card2` in a trick that `first_card` opened.
    /// Trump beats a plain card; of two plain cards, the one of the suit led
    /// beats the one that is not; otherwise the higher rank wins, and
    /// between equal ranks the higher suit.
    pub fn compare_cards(&self, card1: &Card, card2: &Card, first_card: &Card) -> (wins: bool)
        ensures
            wins == self.beats(*card1, *card2, *first_card),
    {
        let trump1 = self.card_is_trump(card1);
        let trump2 = self.card_is_trump(card2);
        if trump1 != trump2 {
            return trump1;
        }
        if !trump1 {
            let follows1 = card1.color == first_card.color;
            let follows2 = card2.color == first_card.color;
            if follows1 != follows2 {
                return follows1;
            }
        }
        if card1.symbol != card2.symbol {
            return card1.symbol.ordinal() > card2.symbol.ordinal();
        }
        card1.color.ordinal() > card2.color.ordinal()
    }

    /// The strongest card of a list in a trick that `first_card` opened;
    /// an empty list has none.
    pub fn strongest_of(&self, cards: &Vec<Card>, first_card: &Card) -> (best: Option<Card>)
        ensures
            best.is_none() <==> cards@.len() == 0,
            best matches Some(card) ==> card == strongest(*self, cards@, *first_card),
    {
        if cards.len() == 0 {
            return None;
        }
        let mut best = cards[0];
        let mut i: usize = 1;
        while i < cards.len()
            invariant
                1 <= i <= cards@.len(),
                best == strongest(*self, cards@.take(i as int), *first_card),
            decreases cards@.len() - i,
        {
            assert(cards@.take(i + 1).drop_last() == cards@.take(i as int));
            if self.compare_cards(&cards[i], &best, first_card) {
                best = cards[i];
            }
            i = i + 1;
        }
        assert(cards@.take(i as int) == cards@);
        Some(best)
    }
}

/// The strongest card of a list in a trick that `led` opened: the list is
/// gone through from the front, and a card takes the lead when it beats the
/// card that leads so far.
pub open spec fn strongest(rules: Ruleset, cards: Seq<Card>, led: Card) -> Card
    recommends
        cards.len() > 0,
    decreases cards.len(),
{
    if cards.len() <= 1 {
        cards[0]
    } else {
        let best = strongest(rules, cards.drop_last(), led);
        if rules.beats(cards.last(), best, led) {
            cards.last()
        } else {
            best
        }
    }
}

/// The suit call: Herz, Unter and Ober are trump, and the Ass of `called`
/// is called for. It has the lowest bid rank.
pub open spec fn sauspiel(called: Colors, rules: Ruleset) -> bool {
    &&& rules.trump_color == Some(Colors::Herz)
    &&& rules.trump_symbols[0] == Some(Symbols::Unter)
    &&& rules.trump_symbols[1] == Some(Symbols::Ober)
    &&& rules.sow == Some(Card { symbol: Symbols::Ass, color: called })
    &&& rules.value == 1
}

/// Herz, Unter and Ober are trump; the Eichel Ass is called for.
pub fn eichel_sauspiel() -> (rules: Ruleset)
    ensures
        sauspiel(Colors::Eichel, rules),
{
    Ruleset {
        trump_color: Some(Colors::Herz),
        trump_symbols: [Some(Symbols::Unter), Some(Symbols::Ober)],
        sow: Some(Card { color: Colors::Eichel, symbol: Symbols::Ass }),
        value: 1,
    }
}

/// Herz, Unter and Ober are trump; the Gras Ass is called for.
pub fn gras_sauspiel() -> (rules: Ruleset)
    ensures
        sauspiel(Colors::Gras, rules),
{
    Ruleset {
        trump_color: Some(Colors::Herz),
        trump_symbols: [Some(Symbols::Unter), Some(Symbols::Ober)],
        sow: Some(Card { color: Colors::Gras, symbol: Symbols::Ass }),
        value: 1,
    }
}

/// Herz, Unter and Ober are trump; the Schelln Ass is called for.
pub fn schellen_sauspiel() -> (rules: Ruleset)
    ensures
        sauspiel(Colors::Schelln, rules),
{
    Ruleset {
        trump_color: Some(Colors::Herz),
        trump_symbols: [Some(Symbols::Unter), Some(Symbols::Ober)],
        sow: Some(Card { color: Colors::Schelln, symbol: Symbols::Ass }),
        value: 1,
    }
}

/// Only the four Unter are trump; no card is called for. It outbids every
/// suit call.
pub fn wenz() -> (rules: Ruleset)
    ensures
        rules.trump_color == None::<Colors>,
        rules.trump_symbols[0] == Some(Symbols::Unter),
        rules.trump_symbols[1] == None::<Symbols>,
        rules.sow == None::<Card>,
        rules.value == 2,
{
    Ruleset {
        trump_color: None,
        trump_symbols: [Some(Symbols::Unter), None],
        sow: None,
        value: 2,
    }
}

/// How a trick is decided, rule by rule: trump beats plain; of two plain
/// cards the one of the suit led beats the other; within one class the
/// higher rank wins, and between equal ranks the higher suit.
pub proof fn lemma_beats_by_rule(rules: Ruleset, a: Card, b: Card, led: Card)
    ensures
        rules.trumps(a) && !rules.trumps(b) ==> rules.beats(a, b, led),
        !rules.trumps(a) && rules.trumps(b) ==> !rules.beats(a, b, led),
        !rules.trumps(a) && !rules.trumps(b) && a.color == led.color && b.color != led.color
            ==> rules.beats(a, b, led),
        !rules.trumps(a) && !rules.trumps(b) && a.color != led.color && b.color == led.color
            ==> !rules.beats(a, b, led),
        rules.trumps(a) == rules.trumps(b) && (rules.trumps(a) || (a.color == led.color) == (b.color
            == led.color)) ==> (rules.beats(a, b, led) <==> (a.symbol.height() > b.symbol.height()
            || (a.symbol == b.symbol && a.color.height() > b.color.height()))),
{
}

/// Within one trick, beating is a strict total order of the cards: no card
/// beats itself, of two different cards exactly one beats the other, and
/// a card that beats a second one also beats whatever the second one beats.
pub proof fn lemma_beats_is_strict_total_order(rules: Ruleset, a: Card, b: Card, c: Card, led: Card)
    ensures
        !rules.beats(a, a, led),
        a != b ==> (rules.beats(a, b, led) <==> !rules.beats(b, a, led)),
        rules.beats(a, b, led) && rules.beats(b, c, led) ==> rules.beats(a, c, led),
{
}

} // verus!

verus! {

/// The strongest card of a list is one of its cards, and it beats every
/// other card of the list.
pub proof fn lemma_strongest_is_maximum(rules: Ruleset, cards: Seq<Card>, led: Card)
    requires
        cards.len() > 0,
    ensures
        cards.contains(strongest(rules, cards, led)),
        forall|card: Card|
            #![trigger cards.contains(card)]
            cards.contains(card) && card != strongest(rules, cards, led) ==> rules.beats(
                strongest(rules, cards, led),
                card,
                led,
            ),
    decreases cards.len(),
{
    let best = strongest(rules, cards, led);
    if cards.len() <= 1 {
        assert(cards[0] == best);
        assert forall|card: Card| #![trigger cards.contains(card)] cards.contains(card) && card
            != best implies rules.beats(best, card, led) by {
            let i = choose|i: int| 0 <= i < cards.len() && cards[i] == card;
        }
    } else {
        let front = cards.drop_last();
        let before = strongest(rules, front, led);
        lemma_strongest_is_maximum(rules, front, led);
        let i = choose|i: int| 0 <= i < front.len() && front[i] == before;
        assert(cards[i] == before);
        assert(cards[cards.len() - 1] == cards.last());
        assert forall|card: Card| #![trigger cards.contains(card)] cards.contains(card) && card
            != best implies rules.beats(best, card, led) by {
            let k = choose|k: int| 0 <= k < cards.len() && cards[k] == card;
            lemma_beats_is_strict_total_order(rules, cards.last(), before, card, led);
            lemma_beats_is_strict_total_order(rules, before, cards.last(), card, led);
            if k < front.len() {
                assert(front[k] == card);
                assert(front.contains(card));
            }
        }
    }
}

/// A trick has exactly one strongest card: whoever beats all the others
/// is the card that `strongest` finds.
pub proof fn lemma_maximum_is_strongest(rules: Ruleset, cards: Seq<Card>, led: Card, top: Card)
    requires
        cards.contains(top),
        forall|card: Card|
            #![trigger cards.contains(card)]
            cards.contains(card) && card != top ==> rules.beats(top, card, led),
    ensures
        strongest(rules, cards, led) == top,
{
    lemma_strongest_is_maximum(rules, cards, led);
    let best = strongest(rules, cards, led);
    lemma_beats_is_strict_total_order(rules, best, top, top, led);
}

/// The strongest card of a trick does not depend on the order in which the
/// cards are listed.
pub proof fn lemma_strongest_ignores_order(rules: Ruleset, cards: Seq<Card>, shuffled: Seq<Card>, led: Card)
    requires
        cards.len() > 0,
        cards.to_multiset() == shuffled.to_multiset(),
    ensures
        strongest(rules, cards, led) == strongest(rules, shuffled, led),
{
    broadcast use vstd::seq_lib::group_to_multiset_ensures;

    assert(shuffled.len() == shuffled.to_multiset().len());
    assert(cards.len() == cards.to_multiset().len());
    lemma_strongest_is_maximum(rules, cards, led);
    let top = strongest(rules, cards, led);
    assert(shuffled.to_multiset().count(top) > 0);
    assert(shuffled.contains(top));
    assert forall|card: Card| #![trigger shuffled.contains(card)] shuffled.contains(card) && card
        != top implies rules.beats(top, card, led) by {
        assert(cards.to_multiset().count(card) > 0);
        assert(cards.contains(card));
    }
    lemma_maximum_is_strongest(rules, shuffled, led, top);
}

} // verus!
