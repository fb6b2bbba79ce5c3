//! The card ledger: for every card of the deck the place where it is.

use vstd::prelude::*;
use vstd::seq_lib::seq_to_set_is_finite;
use vstd::set_lib::lemma_subset_equality;
use crate::table::cards::{Card, Symbols, full_deck, lemma_full_deck_is_complete, lemma_slot_round_trip};

verus! {

/// Place of a card that lies in the trick that is being played.
pub const IN_TRICK: u8 = 0;

/// Place of a card in the hand of `seat` (a seat is 0, 1, 2 or 3).
pub open spec fn hand_of(seat: u8) -> u8 {
    (seat + 1) as u8
}

/// Place of a card in the tricks that `seat` has won.
pub open spec fn won_by(seat: u8) -> u8 {
    (seat + 5) as u8
}

/// The cards that are at `location`.
pub open spec fn zone(places: Map<Card, u8>, location: u8) -> Set<Card> {
    Set::new(|card: Card| places[card] == location)
}

/// Of the first `n` cards of the deck order, those at `location`, in deck
/// order.
pub open spec fn cards_below(places: Map<Card, u8>, location: u8, n: nat) -> Seq<Card>
    decreases n,
{
    if n == 0 {
        Seq::empty()
    } else {
        let rest = cards_below(places, location, (n - 1) as nat);
        if places[Card::at(n - 1)] == location {
            rest.push(Card::at(n - 1))
        } else {
            rest
        }
    }
}

/// The cards at `location`, in deck order.
pub open spec fn cards_at(places: Map<Card, u8>, location: u8) -> Seq<Card> {
    cards_below(places, location, 32)
}

/// Points of those of the first `n` cards of the deck order that are at
/// `location`.
pub open spec fn zone_points_below(places: Map<Card, u8>, location: u8, n: nat) -> int
    decreases n,
{
    if n == 0 {
        0
    } else {
        zone_points_below(places, location, (n - 1) as nat) + if places[Card::at(n - 1)]
            == location {
            Card::at(n - 1).points()
        } else {
            0
        }
    }
}

/// Points of the cards at `location`, added up.
pub open spec fn zone_points(places: Map<Card, u8>, location: u8) -> int {
    zone_points_below(places, location, 32)
}

/// The places after every card at `from` has gone to `to`.
pub open spec fn swept(places: Map<Card, u8>, from: u8, to: u8) -> Map<Card, u8> {
    Map::new(
        |card: Card| true,
        |card: Card|
            if places[card] == from {
                to
            } else {
                places[card]
            },
    )
}

/// An order of play for a deal: all 32 cards, none twice.
pub open spec fn is_shuffled_deck(order: Seq<Card>) -> bool {
    order.len() == 32 && order.no_duplicates()
}

/// The hands after `order` was dealt out card by card, the first card to
/// seat 0, the next to seat 1, and so on round the table.
pub open spec fn dealt(order: Seq<Card>) -> Map<Card, u8> {
    Map::new(|card: Card| true, |card: Card| (order.index_of(card) % 4 + 1) as u8)
}

/// Every card is in one of the four hands, and each hand holds 8 cards.
pub open spec fn is_full_deal(places: Map<Card, u8>) -> bool {
    &&& forall|card: Card| #[trigger] places.dom().contains(card)
    &&& forall|card: Card| 1 <= #[trigger] places[card] <= 4
    &&& forall|seat: u8|
        seat < 4 ==> (#[trigger] zone(places, hand_of(seat))).finite() && zone(
            places,
            hand_of(seat),
        ).len() == 8
}

/// What `cards_below` lists: each card below position `n` that is at
/// `location`, once, and in deck order.
pub proof fn lemma_cards_below(places: Map<Card, u8>, location: u8, n: nat)
    requires
        n <= 32,
    ensures
        forall|card: Card|
            #![trigger cards_below(places, location, n).contains(card)]
            cards_below(places, location, n).contains(card) <==> (card.slot() < n && places[card]
                == location),
        forall|i: int, j: int|
            #![trigger cards_below(places, location, n)[i], cards_below(places, location, n)[j]]
            0 <= i < j < cards_below(places, location, n).len() ==> cards_below(
                places,
                location,
                n,
            )[i].slot() < cards_below(places, location, n)[j].slot(),
        cards_below(places, location, n).no_duplicates(),
        cards_below(places, location, n).len() <= n,
    decreases n,
{
    let list = cards_below(places, location, n);
    if n > 0 {
        let rest = cards_below(places, location, (n - 1) as nat);
        let top = Card::at(n - 1);
        lemma_cards_below(places, location, (n - 1) as nat);
        lemma_slot_round_trip(top, n - 1);
        if places[top] == location {
            assert(list == rest.push(top));
            assert forall|card: Card| list.contains(card) <==> (card.slot() < n && places[card]
                == location) by {
                lemma_slot_round_trip(card, 0);
                if list.contains(card) {
                    let i = choose|i: int| 0 <= i < list.len() && list[i] == card;
                    if i < rest.len() {
                        assert(rest[i] == card);
                        assert(rest.contains(card));
                    } else {
                        assert(card == top);
                    }
                }
                if card.slot() < n && places[card] == location {
                    if card.slot() == n - 1 {
                        assert(card == top);
                        assert(list[rest.len() as int] == card);
                    } else {
                        assert(rest.contains(card));
                        let i = choose|i: int| 0 <= i < rest.len() && rest[i] == card;
                        assert(list[i] == card);
                    }
                }
            }
            assert forall|i: int, j: int| 0 <= i < j < list.len() implies list[i].slot()
                < list[j].slot() by {
                if j == rest.len() {
                    assert(rest[i] == list[i]);
                    assert(rest.contains(rest[i]));
                } else {
                    assert(rest[i] == list[i] && rest[j] == list[j]);
                }
            }
            assert forall|i: int, j: int|
                0 <= i < list.len() && 0 <= j < list.len() && i != j implies list[i]
                != list[j] by {
                if i < j {
                    assert(list[i].slot() < list[j].slot());
                } else {
                    assert(list[j].slot() < list[i].slot());
                }
            }
        } else {
            assert(list == rest);
            assert forall|card: Card| list.contains(card) <==> (card.slot() < n && places[card]
                == location) by {
                lemma_slot_round_trip(card, 0);
            }
        }
    } else {
        assert(list.len() == 0);
    }
}

/// The cards at a place, as a list: `cards_at` holds each card at
/// `location` once, in deck order, and no other card.
pub proof fn lemma_cards_at(places: Map<Card, u8>, location: u8)
    ensures
        cards_at(places, location).to_set() == zone(places, location),
        cards_at(places, location).no_duplicates(),
        cards_at(places, location).len() == zone(places, location).len(),
        zone(places, location).finite(),
        forall|i: int, j: int|
            0 <= i < j < cards_at(places, location).len() ==> cards_at(places, location)[i].slot()
                < cards_at(places, location)[j].slot(),
{
    lemma_cards_below(places, location, 32);
    let list = cards_at(places, location);
    assert forall|card: Card| list.to_set().contains(card) <==> zone(places, location).contains(
        card,
    ) by {
        lemma_slot_round_trip(card, 0);
    }
    assert(list.to_set() =~= zone(places, location));
    list.unique_seq_to_set();
    seq_to_set_is_finite(list);
}

/// Number of cards at `location`.
pub open spec fn zone_size(places: Map<Card, u8>, location: u8) -> nat {
    cards_at(places, location).len()
}

/// When one card moves, the place it leaves has one card fewer, the place
/// it comes to one more, and every other place as many as before.
pub proof fn lemma_move_one(places: Map<Card, u8>, card: Card, to: u8, location: u8, n: nat)
    requires
        places[card] != to,
        n <= 32,
    ensures
        cards_below(places.insert(card, to), location, n).len() == cards_below(
            places,
            location,
            n,
        ).len() + if card.slot() < n && location == to {
            1int
        } else if card.slot() < n && location == places[card] {
            -1int
        } else {
            0int
        },
    decreases n,
{
    if n > 0 {
        lemma_move_one(places, card, to, location, (n - 1) as nat);
        lemma_slot_round_trip(card, n - 1);
        let top = Card::at(n - 1);
        if top != card {
            assert(places.insert(card, to)[top] == places[top]);
        }
    }
}

/// After a sweep the place that was swept is empty, and a place that the
/// sweep did not touch holds what it held.
pub proof fn lemma_sweep(places: Map<Card, u8>, from: u8, to: u8, location: u8, n: nat)
    requires
        from != to,
    ensures
        cards_below(swept(places, from, to), from, n).len() == 0,
        location != from && location != to ==> cards_below(swept(places, from, to), location, n)
            == cards_below(places, location, n),
    decreases n,
{
    if n > 0 {
        lemma_sweep(places, from, to, location, (n - 1) as nat);
    }
}

/// An order of play holds every card.
pub proof fn lemma_shuffled_deck_is_complete(order: Seq<Card>)
    requires
        is_shuffled_deck(order),
    ensures
        forall|card: Card| #[trigger] order.contains(card),
{
    lemma_full_deck_is_complete();
    order.unique_seq_to_set();
    full_deck().unique_seq_to_set();
    seq_to_set_is_finite(order);
    seq_to_set_is_finite(full_deck());
    assert(order.to_set().subset_of(full_deck().to_set()));
    lemma_subset_equality(order.to_set(), full_deck().to_set());
    assert forall|card: Card| #[trigger] order.contains(card) by {
        assert(full_deck().to_set().contains(card));
        assert(order.to_set().contains(card));
    }
}

/// The seat that a card goes to: the card at position `i` of the order of
/// play goes to the hand of seat `i % 4`.
pub proof fn lemma_dealt_by_position(order: Seq<Card>, i: int)
    requires
        is_shuffled_deck(order),
        0 <= i < 32,
    ensures
        dealt(order)[order[i]] == i % 4 + 1,
{
    let j = order.index_of(order[i]);
    assert(0 <= j < order.len() && order[j] == order[i]);
}

/// Whatever the order of play, a deal puts each of the 32 cards into one of
/// the four hands, 8 cards into each hand, and no card anywhere else.
pub proof fn lemma_deal_is_full(order: Seq<Card>)
    requires
        is_shuffled_deck(order),
    ensures
        is_full_deal(dealt(order)),
        dealt(order).dom() == full_deck().to_set(),
        full_deck().to_set().len() == 32,
{
    let places = dealt(order);
    lemma_shuffled_deck_is_complete(order);
    lemma_full_deck_is_complete();
    full_deck().unique_seq_to_set();
    assert(places.dom() =~= full_deck().to_set());
    assert forall|card: Card| 1 <= #[trigger] places[card] <= 4 by {
        assert(order.contains(card));
    }
    assert forall|seat: u8| seat < 4 implies (#[trigger] zone(places, hand_of(seat))).finite()
        && zone(places, hand_of(seat)).len() == 8 by {
        let picks = Seq::new(8, |k: int| order[4 * k + seat]);
        assert(picks.no_duplicates());
        assert forall|card: Card| picks.to_set().contains(card) <==> zone(
            places,
            hand_of(seat),
        ).contains(card) by {
            if picks.contains(card) {
                let k = choose|k: int| 0 <= k < picks.len() && picks[k] == card;
                lemma_dealt_by_position(order, 4 * k + seat);
            }
            if places[card] == hand_of(seat) {
                assert(order.contains(card));
                let i = order.index_of(card);
                assert(picks[i / 4] == card);
            }
        }
        assert(picks.to_set() =~= zone(places, hand_of(seat)));
        picks.unique_seq_to_set();
        seq_to_set_is_finite(picks);
    }
}

/// A deck that was shuffled is an order of play.
pub proof fn lemma_permuted_deck_is_shuffled(order: Seq<Card>)
    requires
        order.to_multiset() == full_deck().to_multiset(),
    ensures
        is_shuffled_deck(order),
{
    broadcast use vstd::seq_lib::group_to_multiset_ensures;

    lemma_full_deck_is_complete();
    full_deck().lemma_multiset_has_no_duplicates();
    order.lemma_multiset_has_no_duplicates_conv();
    assert(order.len() == order.to_multiset().len());
    assert(full_deck().len() == full_deck().to_multiset().len());
}

/// The place of every card of the deck.
pub struct Ledger {
    slots: Vec<u8>,
}

impl View for Ledger {
    type V = Map<Card, u8>;

    /// The place of each card.
    closed spec fn view(&self) -> Map<Card, u8> {
        Map::new(|card: Card| true, |card: Card| self.slots@[card.slot()])
    }
}

impl Ledger {
    /// The ledger has an entry for each of the 32 cards.
    pub closed spec fn wf(&self) -> bool {
        self.slots@.len() == 32
    }

    /// No card is missing from a ledger.
    pub proof fn lemma_covers_deck(&self)
        ensures
            forall|card: Card| #[trigger] self@.dom().contains(card),
    {
    }

    /// Number of cards in the ledger: always 32.
    pub fn len(&self) -> (n: usize)
        requires
            self.wf(),
        ensures
            n == 32,
    {
        self.slots.len()
    }

    /// The place of `card`.
    pub fn get(&self, card: &Card) -> (location: u8)
        requires
            self.wf(),
        ensures
            location == self@[*card],
    {
        self.slots[card.index()]
    }

    /// Moves `card` to `location`; every other card stays where it is.
    pub fn set(&mut self, card: &Card, location: u8)
        requires
            old(self).wf(),
        ensures
            final(self).wf(),
            final(self)@ == old(self)@.insert(*card, location),
    {
        let i = card.index();
        self.slots.set(i, location);
        proof {
            assert forall|other: Card| self@[other] == old(self)@.insert(*card, location)[other] by {
                lemma_slot_round_trip(other, 0);
                lemma_slot_round_trip(*card, 0);
            }
            assert(self@ =~= old(self)@.insert(*card, location));
        }
    }

    /// The cards at `location`, in deck order.
    pub fn cards_in(&self, location: u8) -> (cards: Vec<Card>)
        requires
            self.wf(),
        ensures
            cards@ == cards_at(self@, location),
    {
        let mut cards: Vec<Card> = Vec::new();
        let mut i: usize = 0;
        while i < 32
            invariant
                i <= 32,
                self.wf(),
                cards@ == cards_below(self@, location, i as nat),
            decreases 32 - i,
        {
            let card = Card::from_index(i);
            if self.slots[i] == location {
                cards.push(card);
            }
            i = i + 1;
        }
        cards
    }

    /// Points of the cards at `location`, added up.
    pub fn points_in(&self, location: u8) -> (points: u16)
        requires
            self.wf(),
        ensures
            points == zone_points(self@, location),
    {
        let mut points: u16 = 0;
        let mut i: usize = 0;
        while i < 32
            invariant
                i <= 32,
                self.wf(),
                points == zone_points_below(self@, location, i as nat),
                points <= 11 * i,
            decreases 32 - i,
        {
            let card = Card::from_index(i);
            if self.slots[i] == location {
                let worth: u16 = match card.symbol {
                    Symbols::Ass => 11,
                    Symbols::Zehn => 10,
                    Symbols::Koenig => 4,
                    Symbols::Ober => 3,
                    Symbols::Unter => 2,
                    _ => 0,
                };
                points = points + worth;
            }
            i = i + 1;
        }
        points
    }

    /// Moves every card at `from` to `to`; the other cards stay.
    pub fn move_all(&mut self, from: u8, to: u8)
        requires
            old(self).wf(),
        ensures
            final(self).wf(),
            final(self)@ == swept(old(self)@, from, to),
    {
        let mut i: usize = 0;
        while i < 32
            invariant
                i <= 32,
                self.slots@.len() == 32,
                forall|k: int|
                    0 <= k < i ==> self.slots@[k] == if old(self).slots@[k] == from {
                        to
                    } else {
                        old(self).slots@[k]
                    },
                forall|k: int| i <= k < 32 ==> self.slots@[k] == old(self).slots@[k],
            decreases 32 - i,
        {
            if self.slots[i] == from {
                self.slots.set(i, to);
            }
            i = i + 1;
        }
        proof {
            assert forall|card: Card| self@[card] == swept(old(self)@, from, to)[card] by {
                lemma_slot_round_trip(card, 0);
            }
            assert(self@ =~= swept(old(self)@, from, to));
        }
    }

    /// A second ledger with the same entries.
    pub fn copy(&self) -> (twin: Ledger)
        requires
            self.wf(),
        ensures
            twin.wf(),
            twin@ == self@,
    {
        let mut slots: Vec<u8> = Vec::new();
        let mut i: usize = 0;
        while i < 32
            invariant
                i <= 32,
                self.wf(),
                slots@.len() == i,
                forall|k: int| 0 <= k < i ==> slots@[k] == self.slots@[k],
            decreases 32 - i,
        {
            slots.push(self.slots[i]);
            i = i + 1;
        }
        let twin = Ledger { slots };
        proof {
            assert forall|card: Card| twin@[card] == self@[card] by {
                lemma_slot_round_trip(card, 0);
            }
            assert(twin@ =~= self@);
        }
        twin
    }

    /// Deals `order` out card by card round the table, starting with seat
    /// 0. There is no deal unless `order` holds each of the 32 cards once.
    pub fn deal(order: &Vec<Card>) -> (hands: Option<Ledger>)
        ensures
            hands.is_some() == is_shuffled_deck(order@),
            hands matches Some(ledger) ==> ledger.wf() && ledger@ == dealt(order@),
    {
        if order.len() != 32 {
            return None;
        }
        let mut slots: Vec<u8> = Vec::new();
        let mut i: usize = 0;
        while i < 32
            invariant
                i <= 32,
                slots@.len() == i,
                forall|k: int| 0 <= k < i ==> slots@[k] == 0,
            decreases 32 - i,
        {
            slots.push(0);
            i = i + 1;
        }
        let mut n: usize = 0;
        while n < 32
            invariant
                n <= 32,
                order@.len() == 32,
                slots@.len() == 32,
                forall|k: int| 0 <= k < n ==> slots@[order@[k].slot()] == k % 4 + 1,
                forall|s: int|
                    0 <= s < 32 && slots@[s] != 0 ==> exists|k: int|
                        0 <= k < n && #[trigger] order@[k].slot() == s,
                forall|j: int, k: int| 0 <= j < k < n ==> order@[j] != order@[k],
            decreases 32 - n,
        {
            let card = order[n];
            let s = card.index();
            if slots[s] != 0 {
                proof {
                    let k = choose|k: int| 0 <= k < n && #[trigger] order@[k].slot() == s as int;
                    lemma_slot_round_trip(order@[k], 0);
                    lemma_slot_round_trip(card, 0);
                    assert(order@[k] == order@[n as int]);
                }
                return None;
            }
            proof {
                assert forall|k: int| 0 <= k < n implies order@[k].slot() != s by {
                    assert(slots@[order@[k].slot()] != 0);
                }
                assert forall|k: int| 0 <= k < n implies order@[k] != order@[n as int] by {
                    assert(order@[k].slot() != s);
                }
            }
            let ghost before = slots@;
            slots.set(s, (n % 4 + 1) as u8);
            proof {
                assert forall|t: int| 0 <= t < 32 && slots@[t] != 0 implies exists|k: int|
                    0 <= k < n + 1 && #[trigger] order@[k].slot() == t by {
                    if t == s {
                        assert(order@[n as int].slot() == t);
                    } else {
                        assert(before[t] != 0);
                        let k = choose|k: int| 0 <= k < n && #[trigger] order@[k].slot() == t;
                        assert(0 <= k < n + 1 && order@[k].slot() == t);
                    }
                }
            }
            n = n + 1;
        }
        let ledger = Ledger { slots };
        proof {
            assert(is_shuffled_deck(order@));
            lemma_shuffled_deck_is_complete(order@);
            assert forall|card: Card| ledger@[card] == dealt(order@)[card] by {
                assert(order@.contains(card));
                let k = order@.index_of(card);
                assert(0 <= k < 32 && order@[k] == card);
            }
            assert(ledger@ =~= dealt(order@));
        }
        Some(ledger)
    }
}

} // verus!
