//! The rules of a hand as mathematics: what a table looks like, which bids
//! and which cards are allowed, and what a table looks like after them.

use vstd::prelude::*;
use crate::table::cards::{
    Card, Colors, Symbols, lemma_deck_is_worth_120, lemma_slot_round_trip, points_below,
};
use crate::table::gamestate::GameState as Phase;
use crate::table::ledger::{
    IN_TRICK, cards_at, dealt, hand_of, is_full_deal, is_shuffled_deck, lemma_cards_at,
    lemma_cards_below, lemma_deal_is_full, lemma_move_one, lemma_sweep, swept, won_by, zone,
    zone_points, zone_points_below, zone_size,
};
use crate::table::rulesets::{Ruleset, strongest};
use crate::table::state::GameState as Progress;

verus! {

/// Why the table turned a request down.
#[derive(Debug, Copy, Clone, PartialEq, Eq, Structural)]
pub enum GameError {
    /// The hand is in another phase than the request is for.
    InvalidPhase,
    /// The bid or the card is against the rules.
    IllegalMove,
    /// The cards handed in for a deal are not the 32 cards of the deck.
    IntegrityViolation,
    /// Nobody has bid, and a hand without a bid cannot be played.
    UnimplementedRule,
}

/// How far the bidding has come.
#[derive(Debug, Copy, Clone, PartialEq, Eq)]
pub enum Bidding {
    /// Bids are still taken.
    Open,
    /// The bidding is over and the hand is played by these rules.
    Resolved(Ruleset),
    /// The bidding is over and nobody has bid.
    Exhausted,
}

/// The seat to the left of `seat`, whose turn comes next.
pub open spec fn next_seat(seat: u8) -> u8 {
    ((seat + 1) % 4) as u8
}

/// The bit that stands for `seat` in a set of seats.
pub open spec fn seat_bit(seat: u8) -> u8 {
    if seat == 0 {
        1
    } else if seat == 1 {
        2
    } else if seat == 2 {
        4
    } else {
        8
    }
}

/// The points of the cards in the tricks that `seat` has won.
pub open spec fn seat_points(places: Map<Card, u8>, seat: u8) -> int {
    zone_points(places, won_by(seat))
}

/// `seat` has the most points; of seats with equally many it is the lowest.
pub open spec fn leads_score(places: Map<Card, u8>, seat: u8) -> bool {
    &&& seat < 4
    &&& forall|other: u8| other < 4 ==> #[trigger] seat_points(places, other) <= seat_points(places, seat)
    &&& forall|other: u8| other < seat ==> #[trigger] seat_points(places, other) < seat_points(places, seat)
}

/// The seat that has the most points, the lowest of them if several have.
pub open spec fn score_leader(places: Map<Card, u8>) -> u8 {
    choose|seat: u8| leads_score(places, seat)
}

/// Only one seat leads the score.
pub proof fn lemma_one_leader(places: Map<Card, u8>, seat: u8)
    requires
        leads_score(places, seat),
    ensures
        score_leader(places) == seat,
{
    let other = score_leader(places);
    assert(leads_score(places, other));
    if other < seat {
        assert(seat_points(places, other) < seat_points(places, seat));
        assert(seat_points(places, seat) <= seat_points(places, other));
    } else if seat < other {
        assert(seat_points(places, seat) < seat_points(places, other));
        assert(seat_points(places, other) <= seat_points(places, seat));
    }
}

/// The bidder's side as a set of seats: the bidder and, if a card is called
/// for, the seat that it was dealt to.
pub open spec fn bidders_side(hands: Map<Card, u8>, rules: Ruleset, bidder: u8) -> u8 {
    match rules.sow {
        Some(sow) => if hands[sow] - 1 == bidder {
            seat_bit(bidder)
        } else {
            (seat_bit(bidder) + seat_bit((hands[sow] - 1) as u8)) as u8
        },
        None => seat_bit(bidder),
    }
}

/// A hand at one moment.
pub struct Table {
    /// Where each card is now.
    pub places: Map<Card, u8>,
    /// Where each card was after the deal: the hand it was dealt to.
    pub hands: Map<Card, u8>,
    /// The highest bid so far, and once the bidding is over the rules of
    /// the hand.
    pub ruleset: Option<Ruleset>,
    /// The seats that play with the bidder, the bidder among them, as bits.
    pub teams: Option<u8>,
    /// The seat that has won the hand.
    pub winner: Option<u8>,
    /// The turn counter.
    pub progress: u8,
    /// The number of tricks that are over.
    pub round: u8,
    /// The seat that bids next.
    pub announce_turn: u8,
    /// The seat that plays the next card.
    pub play_turn: u8,
    /// During the bidding the seat that raised last, and during play the
    /// seat that leads the trick.
    pub vorhand: u8,
    /// The card that opened the trick.
    pub first_card: Option<Card>,
}

impl Table {
    /// The table after the deal: the seat to the left of the dealer bids
    /// first.
    pub open spec fn fresh(dealer: u8, hands: Map<Card, u8>) -> Table {
        Table {
            places: hands,
            hands,
            ruleset: None,
            teams: None,
            winner: None,
            progress: 0,
            round: 0,
            announce_turn: next_seat(dealer),
            play_turn: next_seat(dealer),
            vorhand: next_seat(dealer),
            first_card: None,
        }
    }

    /// The seat that `card` was dealt to.
    pub open spec fn owner(self, card: Card) -> u8 {
        (self.hands[card] - 1) as u8
    }

    /// How far the bidding has come.
    pub open spec fn bidding(self) -> Bidding {
        if self.progress < 4 {
            Bidding::Open
        } else {
            match self.ruleset {
                Some(rules) => Bidding::Resolved(rules),
                None => Bidding::Exhausted,
            }
        }
    }

    /// Tricks are being played.
    pub open spec fn in_play(self) -> bool {
        4 <= self.progress <= 7 && self.ruleset.is_some()
    }

    /// The phase of the hand. A hand in which nobody has bid stays in the
    /// bidding for good.
    pub open spec fn phase(self) -> Phase {
        if self.progress == 8 && self.winner.is_some() {
            Phase::Done { winner: self.winner.unwrap() }
        } else if self.in_play() {
            Phase::PlayPhase
        } else {
            Phase::AnnouncementPhase
        }
    }

    /// `seat` holds a card of `color`.
    pub open spec fn holds_color(self, color: Colors, seat: u8) -> bool {
        seat < 4 && exists|card: Card| #[trigger]
            self.places[card] == hand_of(seat) && card.color == color
    }

    /// `seat` holds a card of `color` that is neither Ober nor Unter nor
    /// Ass.
    pub open spec fn holds_plain(self, color: Colors, seat: u8) -> bool {
        seat < 4 && exists|card: Card| #[trigger]
            self.places[card] == hand_of(seat) && card.color == color && card.symbol
                != Symbols::Ober && card.symbol != Symbols::Unter && card.symbol != Symbols::Ass
    }

    /// `seat` holds a card that is trump by `rules`.
    pub open spec fn holds_trump(self, rules: Ruleset, seat: u8) -> bool {
        seat < 4 && exists|card: Card| #[trigger]
            self.places[card] == hand_of(seat) && rules.trumps(card)
    }

    /// The bid rank to beat: that of the highest bid so far, or 0.
    pub open spec fn standing_value(self) -> u8 {
        match self.ruleset {
            Some(rules) => rules.value,
            None => 0,
        }
    }

    /// The seat whose turn it is may bid `rules`: the bid outranks the
    /// highest so far, and if it calls for a card, the bidder was not dealt
    /// that card and holds a plain card of its suit.
    pub open spec fn may_announce(self, rules: Ruleset) -> bool {
        &&& rules.value > self.standing_value()
        &&& rules.sow matches Some(sow) ==> self.owner(sow) != self.announce_turn
            && self.holds_plain(sow.color, self.announce_turn)
    }

    /// The bidder's side: the bidder and, if a card is called for, the seat
    /// that it was dealt to.
    pub open spec fn team_of(self, rules: Ruleset, bidder: u8) -> u8 {
        bidders_side(self.hands, rules, bidder)
    }

    /// The table at the end of the bidding. With a bid the bidder's side is
    /// fixed and the bidder leads the first trick. Without one nothing
    /// follows.
    pub open spec fn settled(self) -> Table {
        match self.ruleset {
            Some(rules) => Table {
                teams: Some(self.team_of(rules, self.vorhand)),
                play_turn: self.vorhand,
                first_card: None,
                ..self
            },
            None => self,
        }
    }

    /// The table after the seat whose turn it is has passed. The fourth
    /// turn in a row without a raise ends the bidding.
    pub open spec fn after_pass(self) -> Table {
        let moved = Table {
            progress: Progress::after_pass(self.progress),
            announce_turn: next_seat(self.announce_turn),
            ..self
        };
        if moved.progress == 4 {
            moved.settled()
        } else {
            moved
        }
    }

    /// The table after the seat whose turn it is has bid `rules`: the bid
    /// stands, and the turns without a raise are counted anew, the
    /// bidder's own being the first.
    pub open spec fn after_raise(self, rules: Ruleset) -> Table {
        Table {
            ruleset: Some(rules),
            vorhand: self.announce_turn,
            progress: Progress::after_raise(self.progress),
            announce_turn: next_seat(self.announce_turn),
            ..self
        }
    }

    /// The table after a pass (`None`) or a bid.
    pub open spec fn after_bid(self, bid: Option<Ruleset>) -> Table {
        match bid {
            Some(rules) => self.after_raise(rules),
            None => self.after_pass(),
        }
    }

    /// `card` may follow `led` from the hand of `seat`. After trump,
    /// trump must be played by whoever holds any; after a plain card, its
    /// suit must be played by whoever holds any.
    pub open spec fn follows_lead(self, rules: Ruleset, led: Card, card: Card, seat: u8) -> bool {
        if rules.trumps(led) {
            rules.trumps(card) || !self.holds_trump(rules, seat)
        } else {
            card.color == led.color || !self.holds_color(led.color, seat)
        }
    }

    /// `seat` may play `card` now: it is the seat's turn, the card is in
    /// its hand, and it follows the card that opened the trick, if there
    /// is one.
    pub open spec fn may_play(self, seat: u8, card: Card) -> bool {
        &&& self.in_play()
        &&& seat == self.play_turn
        &&& seat < 4
        &&& self.places[card] == hand_of(seat)
        &&& self.first_card matches Some(led) ==> self.follows_lead(
            self.ruleset.unwrap(),
            led,
            card,
            seat,
        )
    }

    /// What stands in the way of a card, whatever the card: a hand without
    /// a bid cannot be played, and outside the play no card is taken.
    pub open spec fn play_barred(self) -> Option<GameError> {
        if self.bidding() == Bidding::Exhausted {
            Some(GameError::UnimplementedRule)
        } else if !self.in_play() {
            Some(GameError::InvalidPhase)
        } else {
            None
        }
    }

    /// The answer to a bid (`None` is a pass). After the bidding no bid is
    /// taken; during it a pass is always taken, and a bid if it is allowed.
    pub open spec fn answer_to_bid(self, bid: Option<Ruleset>) -> Result<(), GameError> {
        match self.bidding() {
            Bidding::Exhausted => Err(GameError::UnimplementedRule),
            Bidding::Resolved(_) => Err(GameError::InvalidPhase),
            Bidding::Open => match bid {
                Some(rules) => if self.may_announce(rules) {
                    Ok(())
                } else {
                    Err(GameError::IllegalMove)
                },
                None => Ok(()),
            },
        }
    }

    /// The answer to `card` from `seat`.
    pub open spec fn answer_to_card(self, seat: u8, card: Card) -> Result<(), GameError> {
        match self.play_barred() {
            Some(error) => Err(error),
            None => if self.may_play(seat, card) {
                Ok(())
            } else {
                Err(GameError::IllegalMove)
            },
        }
    }

    /// The answer to the question who has won: the winner once the hand
    /// is over.
    pub open spec fn answer_to_finalize(self) -> Result<u8, GameError> {
        if self.progress == 8 && self.winner.is_some() {
            Ok(self.winner.unwrap())
        } else if self.bidding() == Bidding::Exhausted {
            Err(GameError::UnimplementedRule)
        } else {
            Err(GameError::InvalidPhase)
        }
    }

    /// The strongest card that lies in the trick.
    pub open spec fn best_in_trick(self) -> Card {
        strongest(self.ruleset.unwrap(), cards_at(self.places, IN_TRICK), self.first_card.unwrap())
    }

    /// The points in the tricks that `seat` has won.
    pub open spec fn points(self, seat: u8) -> int {
        seat_points(self.places, seat)
    }

    /// `seat` has the most points; of seats with equally many it is the
    /// lowest.
    pub open spec fn leads_score(self, seat: u8) -> bool {
        leads_score(self.places, seat)
    }

    /// The seat that has the most points, the lowest of them if several
    /// have.
    pub open spec fn leader(self) -> u8 {
        score_leader(self.places)
    }

    /// The table after the trick was taken: its cards go to whom the
    /// strongest of them was dealt, and that seat leads the next trick.
    /// The eighth trick ends the hand, and the seat with the most points
    /// has won.
    pub open spec fn after_trick(self) -> Table {
        let taker = self.owner(self.best_in_trick());
        let cleared = Table {
            places: swept(self.places, IN_TRICK, won_by(taker)),
            vorhand: taker,
            play_turn: taker,
            first_card: None,
            round: (self.round + 1) as u8,
            ..self
        };
        if cleared.round == 8 {
            Table {
                progress: Progress::after_last_trick(self.progress),
                winner: Some(cleared.leader()),
                ..cleared
            }
        } else {
            Table { progress: Progress::after_trick(self.progress), ..cleared }
        }
    }

    /// The table after the seat whose turn it is has played `card`: the
    /// card lies in the trick, and the first card of a trick is the one
    /// that opened it. After the fourth card the trick is taken.
    pub open spec fn after_card(self, card: Card) -> Table {
        let placed = Table {
            places: self.places.insert(card, IN_TRICK),
            first_card: if self.first_card.is_some() {
                self.first_card
            } else {
                Some(card)
            },
            ..self
        };
        if self.progress < 7 {
            Table {
                progress: Progress::after_card(self.progress),
                play_turn: next_seat(self.play_turn),
                ..placed
            }
        } else {
            placed.after_trick()
        }
    }

    /// The number of cards that lie in the trick, by the turn counter.
    pub open spec fn cards_in_trick(self) -> int {
        if 4 <= self.progress <= 7 {
            self.progress - 4
        } else {
            0
        }
    }

    /// `seat` has played its card to the trick: the seat that leads plays
    /// first, and the others follow round the table.
    pub open spec fn has_played(self, seat: u8) -> bool {
        (seat + 4 - self.vorhand) % 4 < self.cards_in_trick()
    }

    /// The number of cards that `seat` must hold: one fewer for each trick
    /// that is over, and one fewer if it has played to the trick.
    pub open spec fn hand_size(self, seat: u8) -> int {
        8 - self.round - if self.has_played(seat) {
            1int
        } else {
            0int
        }
    }

    /// What holds of every table that a hand can come to.
    pub open spec fn wf(self) -> bool {
        &&& is_full_deal(self.hands)
        &&& forall|card: Card| #[trigger] self.places.dom().contains(card)
        &&& forall|card: Card|
            #![trigger self.places[card]]
            self.places[card] == IN_TRICK || self.places[card] == self.hands[card] || 5
                <= self.places[card] <= 8
        &&& zone_size(self.places, IN_TRICK) == self.cards_in_trick()
        &&& forall|seat: u8|
            seat < 4 ==> #[trigger] zone_size(self.places, hand_of(seat)) == self.hand_size(seat)
        &&& self.announce_turn < 4
        &&& self.play_turn < 4
        &&& self.vorhand < 4
        &&& self.progress <= 8
        &&& self.round <= 8
        &&& (self.round == 8) == (self.progress == 8)
        &&& self.progress < 4 ==> self.round == 0
        &&& self.progress > 4 ==> self.ruleset.is_some()
        &&& self.in_play() ==> self.play_turn == (self.vorhand + self.cards_in_trick()) % 4
        &&& self.teams.is_some() == (self.progress >= 4 && self.ruleset.is_some())
        &&& self.winner.is_some() == (self.progress == 8)
        &&& self.winner matches Some(seat) ==> self.leads_score(seat)
        &&& self.first_card.is_some() == (5 <= self.progress <= 7)
        &&& self.first_card matches Some(led) ==> self.places[led] == IN_TRICK
    }
}

/// Some seat always leads the score.
pub proof fn lemma_leader_exists(places: Map<Card, u8>)
    ensures
        leads_score(places, score_leader(places)),
{
    let p0 = seat_points(places, 0);
    let p1 = seat_points(places, 1);
    let p2 = seat_points(places, 2);
    let p3 = seat_points(places, 3);
    let top: u8 = if p0 >= p1 && p0 >= p2 && p0 >= p3 {
        0
    } else if p1 >= p2 && p1 >= p3 {
        1
    } else if p2 >= p3 {
        2
    } else {
        3
    };
    assert forall|other: u8| other < 4 implies #[trigger] seat_points(places, other)
        <= seat_points(places, top) by {
        assert(other == 0 || other == 1 || other == 2 || other == 3);
    }
    assert forall|other: u8| other < top implies #[trigger] seat_points(places, other)
        < seat_points(places, top) by {
        assert(other == 0 || other == 1 || other == 2 || other == 3);
    }
    assert(leads_score(places, top));
}

/// A place that no card is at lists no card.
pub proof fn lemma_empty_zone(places: Map<Card, u8>, location: u8)
    requires
        forall|card: Card| #[trigger] places[card] != location,
    ensures
        zone_size(places, location) == 0,
{
    lemma_cards_below(places, location, 32);
    let list = cards_at(places, location);
    if list.len() > 0 {
        assert(list.contains(list[0]));
    }
}

/// After the deal every rule of the table holds: the hands are full, the
/// trick is empty, and the seat to the left of the dealer bids first.
pub proof fn lemma_fresh_table_wf(dealer: u8, order: Seq<Card>)
    requires
        is_shuffled_deck(order),
    ensures
        Table::fresh(dealer, dealt(order)).wf(),
{
    let hands = dealt(order);
    let table = Table::fresh(dealer, hands);
    lemma_deal_is_full(order);
    assert forall|card: Card| #[trigger] hands[card] != IN_TRICK by {
        assert(1 <= hands[card] <= 4);
    }
    lemma_empty_zone(hands, IN_TRICK);
    assert forall|seat: u8| seat < 4 implies #[trigger] zone_size(table.places, hand_of(seat))
        == table.hand_size(seat) by {
        lemma_cards_at(hands, hand_of(seat));
        assert(zone(hands, hand_of(seat)).len() == 8);
    }
    assert forall|card: Card|
        #![trigger table.places[card]]
        table.places[card] == IN_TRICK || table.places[card] == table.hands[card] || 5
            <= table.places[card] <= 8 by {}
}

/// A bid that is taken leaves a table on which every rule of the table
/// holds.
pub proof fn lemma_bid_keeps_wf(table: Table, bid: Option<Ruleset>)
    requires
        table.wf(),
        table.answer_to_bid(bid).is_ok(),
    ensures
        table.after_bid(bid).wf(),
{
    let after = table.after_bid(bid);
    assert(after.places == table.places);
    assert(after.round == 0);
    assert(after.cards_in_trick() == 0);
    assert(table.cards_in_trick() == 0);
    assert forall|seat: u8| seat < 4 implies #[trigger] zone_size(after.places, hand_of(seat))
        == after.hand_size(seat) by {
        assert(zone_size(table.places, hand_of(seat)) == table.hand_size(seat));
    }
}

/// A card that is taken leaves a table on which every rule of the table
/// holds: no card is lost, each seat holds as many cards as it must, and
/// the trick holds as many as were played to it.
pub proof fn lemma_card_keeps_wf(table: Table, seat: u8, card: Card)
    requires
        table.wf(),
        table.answer_to_card(seat, card).is_ok(),
    ensures
        table.after_card(card).wf(),
{
    let after = table.after_card(card);
    let laid = table.places.insert(card, IN_TRICK);
    let played = table.cards_in_trick();
    assert(1 <= table.hands[card] <= 4);
    assert(table.places[card] == hand_of(seat));
    assert(table.play_turn == (table.vorhand + played) % 4);
    lemma_move_one(table.places, card, IN_TRICK, IN_TRICK, 32);
    lemma_slot_round_trip(card, 0);
    assert(zone_size(laid, IN_TRICK) == played + 1);
    assert forall|other: u8| other < 4 implies #[trigger] zone_size(laid, hand_of(other))
        == table.hand_size(other) - if other == seat {
        1int
    } else {
        0int
    } by {
        lemma_move_one(table.places, card, IN_TRICK, hand_of(other), 32);
        assert(zone_size(table.places, hand_of(other)) == table.hand_size(other));
    }
    assert forall|other: u8| other < 4 implies (table.has_played(other) <==> other != seat
        && (other + 4 - table.vorhand) % 4 < played + 1) by {}
    if table.progress < 7 {
        assert(after.places == laid);
        assert(after.cards_in_trick() == played + 1);
        assert forall|other: u8| other < 4 implies #[trigger] zone_size(after.places, hand_of(other))
            == after.hand_size(other) by {
            assert(zone_size(laid, hand_of(other)) == table.hand_size(other) - if other == seat {
                1int
            } else {
                0int
            });
        }
        assert forall|c: Card|
            #![trigger after.places[c]]
            after.places[c] == IN_TRICK || after.places[c] == after.hands[c] || 5
                <= after.places[c] <= 8 by {
            assert(table.places[c] == IN_TRICK || table.places[c] == table.hands[c] || 5
                <= table.places[c] <= 8);
        }
        if table.first_card.is_some() {
            assert(table.places[table.first_card.unwrap()] == IN_TRICK);
        }
    } else {
        let placed = Table { places: laid, ..table };
        let taker = placed.owner(placed.best_in_trick());
        assert(1 <= table.hands[placed.best_in_trick()] <= 4);
        assert(taker < 4);
        assert(after.places == swept(laid, IN_TRICK, won_by(taker)));
        lemma_sweep(laid, IN_TRICK, won_by(taker), IN_TRICK, 32);
        assert forall|other: u8| other < 4 implies #[trigger] zone_size(after.places, hand_of(other))
            == after.hand_size(other) by {
            lemma_sweep(laid, IN_TRICK, won_by(taker), hand_of(other), 32);
            assert(zone_size(laid, hand_of(other)) == table.hand_size(other) - if other == seat {
                1int
            } else {
                0int
            });
        }
        assert forall|c: Card|
            #![trigger after.places[c]]
            after.places[c] == IN_TRICK || after.places[c] == after.hands[c] || 5
                <= after.places[c] <= 8 by {
            assert(table.places[c] == IN_TRICK || table.places[c] == table.hands[c] || 5
                <= table.places[c] <= 8);
        }
        lemma_leader_exists(after.places);
    }
}

/// Following a card and taking a trick go by one notion of trump, that of
/// the rules: a trump card beats every card that is not trump, whatever
/// was led; after trump, a seat that holds trump follows with trump and
/// with nothing else; and a seat holds trump as soon as one card in its
/// hand is trump.
pub proof fn lemma_trump_is_one_notion(
    table: Table,
    rules: Ruleset,
    led: Card,
    card: Card,
    other: Card,
    seat: u8,
)
    ensures
        rules.trumps(card) && !rules.trumps(other) ==> rules.beats(card, other, led)
            && !rules.beats(other, card, led),
        rules.trumps(led) && table.holds_trump(rules, seat) ==> (table.follows_lead(
            rules,
            led,
            card,
            seat,
        ) <==> rules.trumps(card)),
        rules.trumps(led) && !table.holds_trump(rules, seat) ==> table.follows_lead(
            rules,
            led,
            card,
            seat,
        ),
        seat < 4 && table.places[card] == hand_of(seat) && rules.trumps(card) ==> table.holds_trump(
            rules,
            seat,
        ),
{
}

/// Four passes in a row on a table on which nobody has bid end the
/// bidding without a bid.
pub proof fn lemma_four_passes_exhaust(table: Table)
    requires
        table.progress == 0,
        table.ruleset.is_none(),
    ensures
        table.answer_to_bid(None).is_ok(),
        table.after_pass().answer_to_bid(None).is_ok(),
        table.after_pass().after_pass().answer_to_bid(None).is_ok(),
        table.after_pass().after_pass().after_pass().answer_to_bid(None).is_ok(),
        table.after_pass().after_pass().after_pass().after_pass().bidding() == Bidding::Exhausted,
{
}

/// A bid that the three other seats pass on ends the bidding: the hand is
/// played by the rules that were bid, and the bidder leads the first trick.
pub proof fn lemma_bid_and_three_passes_resolve(table: Table, rules: Ruleset)
    requires
        table.answer_to_bid(Some(rules)).is_ok(),
    ensures
        table.after_raise(rules).answer_to_bid(None).is_ok(),
        table.after_raise(rules).after_pass().answer_to_bid(None).is_ok(),
        table.after_raise(rules).after_pass().after_pass().answer_to_bid(None).is_ok(),
        ({
            let end = table.after_raise(rules).after_pass().after_pass().after_pass();
            &&& end.bidding() == Bidding::Resolved(rules)
            &&& end.ruleset == Some(rules)
            &&& end.vorhand == table.announce_turn
            &&& end.play_turn == table.announce_turn
            &&& end.in_play()
        }),
{
}

/// While bids are taken, the bid that stands is the last one that was
/// taken, and the seat that made it is the one that will lead.
pub proof fn lemma_last_bid_stands(table: Table, rules: Ruleset)
    requires
        table.answer_to_bid(Some(rules)).is_ok(),
    ensures
        table.after_bid(Some(rules)).ruleset == Some(rules),
        table.after_bid(Some(rules)).vorhand == table.announce_turn,
        table.after_bid(Some(rules)).after_bid(None).ruleset == Some(rules),
        table.after_bid(Some(rules)).after_bid(None).vorhand == table.announce_turn,
        !table.after_bid(Some(rules)).may_announce(rules),
{
}

/// No bid and no card changes what was dealt: the record of the hands is
/// the same after every step.
pub proof fn lemma_deal_is_kept(table: Table, bid: Option<Ruleset>, card: Card)
    ensures
        table.after_bid(bid).hands == table.hands,
        table.after_card(card).hands == table.hands,
{
}

/// When every card is in a trick that was won, the points of the four
/// seats are the points of the cards below `n`.
pub proof fn lemma_points_split(places: Map<Card, u8>, n: nat)
    requires
        n <= 32,
        forall|card: Card| 5 <= #[trigger] places[card] <= 8,
    ensures
        zone_points_below(places, 5, n) + zone_points_below(places, 6, n) + zone_points_below(
            places,
            7,
            n,
        ) + zone_points_below(places, 8, n) == points_below(n),
    decreases n,
{
    if n > 0 {
        lemma_points_split(places, (n - 1) as nat);
        assert(5 <= places[Card::at(n - 1)] <= 8);
    }
}

/// When the hand is over, every card lies in a trick that a seat has won,
/// the points of the four seats add up to 120, and the seat that has won
/// is the one that leads the score.
pub proof fn lemma_finished_hand(table: Table)
    requires
        table.wf(),
        table.progress == 8,
    ensures
        forall|card: Card| 5 <= #[trigger] table.places[card] <= 8,
        table.points(0) + table.points(1) + table.points(2) + table.points(3) == 120,
        table.winner == Some(table.leader()),
{
    assert forall|card: Card| 5 <= #[trigger] table.places[card] <= 8 by {
        let place = table.places[card];
        assert(place == IN_TRICK || place == table.hands[card] || 5 <= place <= 8);
        assert(1 <= table.hands[card] <= 4);
        lemma_slot_round_trip(card, 0);
        if place == IN_TRICK {
            lemma_cards_below(table.places, IN_TRICK, 32);
            assert(cards_at(table.places, IN_TRICK).contains(card));
        } else if place <= 4 {
            let seat = (place - 1) as u8;
            assert(zone_size(table.places, hand_of(seat)) == table.hand_size(seat));
            lemma_cards_below(table.places, place, 32);
            assert(cards_at(table.places, place).contains(card));
        }
    }
    lemma_points_split(table.places, 32);
    lemma_deck_is_worth_120();
    lemma_one_leader(table.places, table.winner.unwrap());
}

} // verus!
