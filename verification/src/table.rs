//! The card table: one hand of the game from the deal to the final score.

pub mod cards;
pub mod rulesets;
pub mod state;
pub mod gamestate;
pub mod shuffle;
pub mod ledger;
pub mod model;

use vstd::prelude::*;
use crate::table::cards::{Card, Colors, Symbols, new_deck};
use crate::table::gamestate::GameState as Phase;
use crate::table::ledger::{
    IN_TRICK, Ledger, cards_at, dealt, hand_of, is_full_deal, is_shuffled_deck, lemma_cards_below,
    lemma_deal_is_full, lemma_permuted_deck_is_shuffled,
};
use crate::table::model::{
    Bidding, GameError, Table, bidders_side, leads_score, lemma_card_keeps_wf,
    lemma_finished_hand, lemma_fresh_table_wf, lemma_one_leader, next_seat, score_leader,
    seat_bit, seat_points,
};
use crate::table::rulesets::{Ruleset, strongest};
use crate::table::shuffle::shuffle_cards;
use crate::table::state::GameState;

verus! {

/// One hand of the game. It is dealt, then bids are taken, then eight
/// tricks are played, and then a seat has won.
pub struct Game {
    deck: Ledger,
    starting_hands: Ledger,
    ruleset: Option<Ruleset>,
    teams: Option<u8>,
    winner: Option<u8>,
    game_progress: GameState,
    announce_turn: u8,
    play_turn: u8,
    vorhand: u8,
    first_card: Option<Card>,
    round: u8,
}

impl View for Game {
    type V = Table;

    /// The hand as the rules see it.
    closed spec fn view(&self) -> Table {
        Table {
            places: self.deck@,
            hands: self.starting_hands@,
            ruleset: self.ruleset,
            teams: self.teams,
            winner: self.winner,
            progress: self.game_progress.state,
            round: self.round,
            announce_turn: self.announce_turn,
            play_turn: self.play_turn,
            vorhand: self.vorhand,
            first_card: self.first_card,
        }
    }
}

/// The seat to the left of `seat`.
fn seat_after(seat: u8) -> (next: u8)
    ensures
        next == next_seat(seat),
        next < 4,
{
    (seat % 4 + 1) % 4
}

/// The bit that stands for `seat` in a set of seats.
fn bit_of(seat: u8) -> (bit: u8)
    ensures
        bit == seat_bit(seat),
        bit <= 8,
{
    if seat == 0 {
        1
    } else if seat == 1 {
        2
    } else if seat == 2 {
        4
    } else {
        8
    }
}

impl Game {
    /// The hand is one that a deal and the rules can lead to.
    pub closed spec fn wf(&self) -> bool {
        &&& self.deck.wf()
        &&& self.starting_hands.wf()
        &&& self@.wf()
    }

    /// What holds of every hand holds of this one.
    pub proof fn lemma_table_wf(&self)
        requires
            self.wf(),
        ensures
            self@.wf(),
    {
    }

    /// Deals a hand at random. The seat to the left of `dealer` bids
    /// first. Which cards a seat gets is chance; that each seat gets 8 of
    /// the 32 is not.
    pub fn new(dealer: u8) -> (game: Game)
        ensures
            game.wf(),
            is_full_deal(game@.hands),
            exists|order: Seq<Card>| #[trigger]
                is_shuffled_deck(order) && game@ == Table::fresh(dealer, dealt(order)),
    {
        let starting_cards = Self::new_cards();
        let ghost order = choose|order: Seq<Card>| #[trigger]
            is_shuffled_deck(order) && starting_cards@ == dealt(order);
        let game = Self::seated(dealer, starting_cards);
        assert(is_shuffled_deck(order) && game@ == Table::fresh(dealer, dealt(order)));
        game
    }

    /// Deals `order` out card by card round the table, the first card to
    /// seat 0. The seat to the left of `dealer` bids first. Cards that are
    /// not the 32 of the deck, each once, are turned down.
    pub fn from_order(dealer: u8, order: &Vec<Card>) -> (dealt_hand: Result<Game, GameError>)
        ensures
            dealt_hand.is_ok() == is_shuffled_deck(order@),
            dealt_hand matches Ok(game) ==> game.wf() && game@ == Table::fresh(
                dealer,
                dealt(order@),
            ),
            dealt_hand matches Err(error) ==> error == GameError::IntegrityViolation,
    {
        match Ledger::deal(order) {
            Some(hands) => Ok(Self::seated(dealer, hands)),
            None => Err(GameError::IntegrityViolation),
        }
    }

    /// Shuffles the deck and deals it out: each of the 32 cards goes to
    /// one of the four hands, 8 to each.
    pub fn new_cards() -> (hands: Ledger)
        ensures
            hands.wf(),
            is_full_deal(hands@),
            exists|order: Seq<Card>| #[trigger] is_shuffled_deck(order) && hands@ == dealt(order),
    {
        let mut deckvec = new_deck();
        let mut rng = rand::thread_rng();
        shuffle_cards(&mut deckvec, &mut rng);
        proof {
            lemma_permuted_deck_is_shuffled(deckvec@);
            lemma_deal_is_full(deckvec@);
        }
        let hands = Ledger::deal(&deckvec).unwrap();
        assert(is_shuffled_deck(deckvec@) && hands@ == dealt(deckvec@));
        hands
    }

    /// Seats the players round the hands that were dealt.
    fn seated(dealer: u8, hands: Ledger) -> (game: Game)
        requires
            hands.wf(),
            exists|order: Seq<Card>| #[trigger] is_shuffled_deck(order) && hands@ == dealt(order),
        ensures
            game.wf(),
            game@ == Table::fresh(dealer, hands@),
            is_full_deal(game@.hands),
    {
        let first = seat_after(dealer);
        let deck = hands.copy();
        proof {
            let order = choose|order: Seq<Card>| #[trigger]
                is_shuffled_deck(order) && hands@ == dealt(order);
            lemma_deal_is_full(order);
            lemma_fresh_table_wf(dealer, order);
        }
        Game {
            deck,
            starting_hands: hands,
            ruleset: None,
            teams: None,
            winner: None,
            game_progress: GameState::new(),
            announce_turn: first,
            play_turn: first,
            vorhand: first,
            first_card: None,
            round: 0,
        }
    }

    /// The highest bid so far; once the bidding is over, the rules of the
    /// hand.
    pub fn ruleset(&self) -> (rules: Option<Ruleset>)
        ensures
            rules == self@.ruleset,
    {
        self.ruleset
    }

    /// The bidder's side as a set of seats, bit 0 for seat 0 and so on;
    /// known once the bidding has ended with a bid.
    pub fn teams(&self) -> (teams: Option<u8>)
        ensures
            teams == self@.teams,
    {
        self.teams
    }

    /// The seat that has won the hand, once it is over.
    pub fn winner(&self) -> (winner: Option<u8>)
        ensures
            winner == self@.winner,
    {
        self.winner
    }

    /// The turn counter.
    pub fn game_progress(&self) -> (progress: GameState)
        ensures
            progress.state == self@.progress,
    {
        self.game_progress
    }

    /// The seat that bids next.
    pub fn announce_turn(&self) -> (seat: u8)
        ensures
            seat == self@.announce_turn,
    {
        self.announce_turn
    }

    /// The seat that plays the next card.
    pub fn play_turn(&self) -> (seat: u8)
        ensures
            seat == self@.play_turn,
    {
        self.play_turn
    }

    /// During the bidding the seat that raised last; during play the seat
    /// that leads the trick.
    pub fn vorhand(&self) -> (seat: u8)
        ensures
            seat == self@.vorhand,
    {
        self.vorhand
    }

    /// The card that opened the trick, if one lies there.
    pub fn first_card(&self) -> (card: Option<Card>)
        ensures
            card == self@.first_card,
    {
        self.first_card
    }

    /// The number of tricks that are over.
    pub fn round(&self) -> (round: u8)
        ensures
            round == self@.round,
    {
        self.round
    }

    /// How far the bidding has come.
    pub fn bidding(&self) -> (bidding: Bidding)
        ensures
            bidding == self@.bidding(),
    {
        if self.game_progress.state < 4 {
            Bidding::Open
        } else {
            match self.ruleset {
                Some(rules) => Bidding::Resolved(rules),
                None => Bidding::Exhausted,
            }
        }
    }

    /// The phase of the hand.
    pub fn phase(&self) -> (phase: Phase)
        ensures
            phase == self@.phase(),
    {
        let state = self.game_progress.state;
        match self.winner {
            Some(winner) if state == 8 => Phase::Done { winner },
            _ => if 4 <= state && state <= 7 && self.ruleset.is_some() {
                Phase::PlayPhase
            } else {
                Phase::AnnouncementPhase
            },
        }
    }

    /// The cards at `location`, in deck order: 0 is the trick, 1 to 4 are
    /// the hands of seats 0 to 3, and 5 to 8 the tricks that seats 0 to 3
    /// have won.
    pub fn get_cards_in_location(&self, location: u8) -> (cards: Vec<Card>)
        requires
            self.wf(),
        ensures
            cards@ == cards_at(self@.places, location),
    {
        self.deck.cards_in(location)
    }

    /// The seat that `card` was dealt to. Every card was dealt to a seat,
    /// so there is always an answer.
    pub fn get_card_owner(&self, card: &Card) -> (owner: Result<u8, GameError>)
        requires
            self.wf(),
        ensures
            owner == Ok::<u8, GameError>(self@.owner(*card)),
            self@.owner(*card) < 4,
    {
        let hand = self.starting_hands.get(card);
        assert(1 <= self@.hands[*card] <= 4);
        Ok(hand - 1)
    }

    /// Whether the hand of seat `hand` holds a card of `color`.
    #[verifier::loop_isolation(false)]
    pub fn has_color_in_hand(&self, color: Colors, hand: u8) -> (found: bool)
        requires
            self.wf(),
        ensures
            found == self@.holds_color(color, hand),
    {
        if hand >= 4 {
            return false;
        }
        let cards = self.deck.cards_in(hand + 1);
        proof {
            lemma_cards_below(self@.places, hand_of(hand), 32);
        }
        let mut i: usize = 0;
        while i < cards.len()
            invariant
                i <= cards@.len(),
                forall|k: int| 0 <= k < i ==> cards@[k].color != color,
            decreases cards@.len() - i,
        {
            if cards[i].color == color {
                assert(cards@.contains(cards@[i as int]));
                return true;
            }
            i = i + 1;
        }
        assert forall|card: Card| #[trigger] self@.places[card] == hand_of(hand) implies card.color
            != color by {
            assert(cards@.contains(card));
        }
        false
    }

    /// Whether the hand of seat `hand` holds a card of `color` that is
    /// neither Ober nor Unter nor Ass.
    #[verifier::loop_isolation(false)]
    pub fn has_number_of_color_in_hand(&self, color: Colors, hand: u8) -> (found: bool)
        requires
            self.wf(),
        ensures
            found == self@.holds_plain(color, hand),
    {
        if hand >= 4 {
            return false;
        }
        let cards = self.deck.cards_in(hand + 1);
        proof {
            lemma_cards_below(self@.places, hand_of(hand), 32);
        }
        let mut i: usize = 0;
        while i < cards.len()
            invariant
                i <= cards@.len(),
                forall|k: int|
                    0 <= k < i ==> !(cards@[k].color == color && cards@[k].symbol != Symbols::Ober
                        && cards@[k].symbol != Symbols::Unter && cards@[k].symbol != Symbols::Ass),
            decreases cards@.len() - i,
        {
            let card = cards[i];
            if card.color == color && card.symbol != Symbols::Ober && card.symbol != Symbols::Unter
                && card.symbol != Symbols::Ass {
                assert(cards@.contains(cards@[i as int]));
                return true;
            }
            i = i + 1;
        }
        assert forall|card: Card| #[trigger] self@.places[card] == hand_of(hand) implies !(
        card.color == color && card.symbol != Symbols::Ober && card.symbol != Symbols::Unter
            && card.symbol != Symbols::Ass) by {
            assert(cards@.contains(card));
        }
        false
    }

    /// Whether the hand of seat `hand` holds a trump card. Before the first
    /// bid no card is trump yet, and there is no answer.
    #[verifier::loop_isolation(false)]
    pub fn has_trump_in_hand(&self, hand: u8) -> (found: Result<bool, GameError>)
        requires
            self.wf(),
        ensures
            self@.ruleset.is_none() ==> found == Err::<bool, GameError>(GameError::InvalidPhase),
            self@.ruleset matches Some(rules) ==> found == Ok::<bool, GameError>(
                self@.holds_trump(rules, hand),
            ),
    {
        match self.ruleset {
            None => Err(GameError::InvalidPhase),
            Some(ruleset) => {
                if hand >= 4 {
                    return Ok(false);
                }
                let cards = self.deck.cards_in(hand + 1);
                proof {
                    lemma_cards_below(self@.places, hand_of(hand), 32);
                }
                let mut i: usize = 0;
                while i < cards.len()
                    invariant
                        i <= cards@.len(),
                        forall|k: int| 0 <= k < i ==> !ruleset.trumps(cards@[k]),
                    decreases cards@.len() - i,
                {
                    if ruleset.card_is_trump(&cards[i]) {
                        assert(cards@.contains(cards@[i as int]));
                        return Ok(true);
                    }
                    i = i + 1;
                }
                assert forall|card: Card| #[trigger]
                    self@.places[card] == hand_of(hand) implies !ruleset.trumps(card) by {
                    assert(cards@.contains(card));
                }
                Ok(false)
            },
        }
    }

    /// Whether the seat whose turn it is may bid `announce_ruleset`: the
    /// bid must outrank the highest so far, and if it calls for a card, the
    /// bidder must not have been dealt that card and must hold a card of
    /// its suit that is neither Ober nor Unter nor Ass.
    pub fn announcement_is_valid(&self, announce_ruleset: Ruleset) -> (valid: bool)
        requires
            self.wf(),
        ensures
            valid == self@.may_announce(announce_ruleset),
    {
        let standing: u8 = match self.ruleset {
            Some(rules) => rules.value,
            None => 0,
        };
        if announce_ruleset.value <= standing {
            return false;
        }
        match announce_ruleset.sow {
            Some(sow) => {
                let dealt_to = self.starting_hands.get(&sow);
                assert(1 <= self@.hands[sow] <= 4);
                if dealt_to - 1 == self.announce_turn {
                    return false;
                }
                self.has_number_of_color_in_hand(sow.color, self.announce_turn)
            },
            None => true,
        }
    }

    /// The bidder's side as a set of seats.
    fn team_mask(hands: &Ledger, rules: &Ruleset, bidder: u8) -> (mask: u8)
        requires
            hands.wf(),
            forall|card: Card| 1 <= #[trigger] hands@[card] <= 4,
        ensures
            mask == bidders_side(hands@, *rules, bidder),
    {
        match rules.sow {
            Some(sow) => {
                let dealt_to = hands.get(&sow);
                assert(1 <= hands@[sow] <= 4);
                let partner: u8 = dealt_to - 1;
                if partner == bidder {
                    bit_of(bidder)
                } else {
                    bit_of(bidder) + bit_of(partner)
                }
            },
            None => bit_of(bidder),
        }
    }

    /// Takes a bid from the seat whose turn it is; `None` is a pass. A bid
    /// that is turned down changes nothing. One that is taken moves the
    /// turn to the next seat, and the fourth turn in a row without a raise
    /// ends the bidding: with a bid the bidder leads the first trick,
    /// without one the hand cannot go on.
    pub fn announce(&mut self, bid: Option<Ruleset>) -> (outcome: Result<(), GameError>)
        requires
            old(self).wf(),
        ensures
            final(self).wf(),
            outcome == old(self)@.answer_to_bid(bid),
            outcome.is_ok() ==> final(self)@ == old(self)@.after_bid(bid),
            outcome.is_err() ==> final(self)@ == old(self)@,
    {
        if self.game_progress.state >= 4 {
            return match self.ruleset {
                Some(_) => Err(GameError::InvalidPhase),
                None => Err(GameError::UnimplementedRule),
            };
        }
        match bid {
            Some(announced_ruleset) => {
                if !self.announcement_is_valid(announced_ruleset) {
                    return Err(GameError::IllegalMove);
                }
                self.ruleset = Some(announced_ruleset);
                self.vorhand = self.announce_turn;
                self.game_progress.AnnounceSome();
            },
            None => {
                self.game_progress.AnnounceNone();
            },
        }
        self.announce_turn = seat_after(self.announce_turn);
        if self.game_progress.state == 4 {
            match self.ruleset {
                Some(rules) => {
                    let mask = Self::team_mask(&self.starting_hands, &rules, self.vorhand);
                    self.teams = Some(mask);
                    self.play_turn = self.vorhand;
                    self.first_card = None;
                },
                None => {},
            }
        }
        Ok(())
    }

    /// Takes a bid from the seat whose turn it is, as `announce` does, and
    /// tells whether it was taken.
    pub fn announce_game(&mut self, announce_ruleset: Option<Ruleset>) -> (taken: bool)
        requires
            old(self).wf(),
        ensures
            final(self).wf(),
            taken == old(self)@.answer_to_bid(announce_ruleset).is_ok(),
            taken ==> final(self)@ == old(self)@.after_bid(announce_ruleset),
            !taken ==> final(self)@ == old(self)@,
    {
        self.announce(announce_ruleset).is_ok()
    }

    /// Whether the seat whose turn it is may play `card`: the card must be
    /// in its hand and must follow the card that opened the trick. The
    /// first card of a trick follows nothing. After trump, trump must be
    /// played by whoever holds any; after a plain card, its suit must be
    /// played by whoever holds any. Outside the play there is no answer.
    pub fn card_is_valid(&self, card: &Card) -> (valid: Result<bool, GameError>)
        requires
            self.wf(),
        ensures
            self@.play_barred() matches Some(error) ==> valid == Err::<bool, GameError>(error),
            self@.play_barred().is_none() ==> valid == Ok::<bool, GameError>(
                self@.may_play(self@.play_turn, *card),
            ),
    {
        let state = self.game_progress.state;
        let ruleset = match self.ruleset {
            None => {
                return if state >= 4 {
                    Err(GameError::UnimplementedRule)
                } else {
                    Err(GameError::InvalidPhase)
                };
            },
            Some(ruleset) => ruleset,
        };
        if state < 4 || state > 7 {
            return Err(GameError::InvalidPhase);
        }
        let seat = self.play_turn;
        if self.deck.get(card) != seat + 1 {
            return Ok(false);
        }
        match self.first_card {
            None => Ok(true),
            Some(first_card) => {
                if ruleset.card_is_trump(&first_card) {
                    if ruleset.card_is_trump(card) {
                        Ok(true)
                    } else {
                        match self.has_trump_in_hand(seat) {
                            Ok(found) => Ok(!found),
                            Err(error) => Err(error),
                        }
                    }
                } else {
                    Ok(card.color == first_card.color || !self.has_color_in_hand(
                        first_card.color,
                        seat,
                    ))
                }
            },
        }
    }

    /// The seat that takes the trick as it lies: the seat that the
    /// strongest card in it was dealt to. Without rules or without a card
    /// in the trick there is no answer.
    pub fn determine_round_winner(&self) -> (taker: Result<u8, GameError>)
        requires
            self.wf(),
        ensures
            self@.ruleset.is_none() || self@.first_card.is_none() ==> taker == Err::<u8, GameError>(
                GameError::InvalidPhase,
            ),
            self@.ruleset.is_some() && self@.first_card.is_some() ==> taker == Ok::<u8, GameError>(
                self@.owner(self@.best_in_trick()),
            ) && self@.owner(self@.best_in_trick()) < 4,
    {
        match (self.ruleset, self.first_card) {
            (Some(ruleset), Some(first_card)) => {
                Ok(Self::taker_of(&self.deck, &self.starting_hands, &ruleset, &first_card))
            },
            _ => Err(GameError::InvalidPhase),
        }
    }

    /// The seat that takes the trick that lies in `deck`: the seat that the
    /// strongest card in it was dealt to by `hands`.
    fn taker_of(deck: &Ledger, hands: &Ledger, ruleset: &Ruleset, first_card: &Card) -> (taker: u8)
        requires
            deck.wf(),
            hands.wf(),
            forall|card: Card| 1 <= #[trigger] hands@[card] <= 4,
            deck@[*first_card] == IN_TRICK,
        ensures
            taker == hands@[strongest(*ruleset, cards_at(deck@, IN_TRICK), *first_card)] - 1,
            taker < 4,
    {
        let cards_in_stich = deck.cards_in(IN_TRICK);
        proof {
            lemma_cards_below(deck@, IN_TRICK, 32);
            assert(cards_in_stich@.contains(*first_card));
        }
        let highest_card = ruleset.strongest_of(&cards_in_stich, first_card).unwrap();
        assert(1 <= hands@[highest_card] <= 4);
        hands.get(&highest_card) - 1
    }

    /// The seat with the most points in the tricks it has won; of seats
    /// with equally many points the lowest.
    pub fn determine_game_winner(&self) -> (winner: u8)
        requires
            self.wf(),
        ensures
            self@.leads_score(winner),
            winner == self@.leader(),
    {
        Self::score_leader_of(&self.deck)
    }

    /// The seat with the most points by the ledger, the lowest of them if
    /// several have.
    fn score_leader_of(deck: &Ledger) -> (winner: u8)
        requires
            deck.wf(),
        ensures
            leads_score(deck@, winner),
            winner == score_leader(deck@),
    {
        let mut winner: u8 = 0;
        let mut most: u16 = deck.points_in(5);
        let mut seat: u8 = 1;
        while seat < 4
            invariant
                1 <= seat <= 4,
                deck.wf(),
                winner < seat,
                most == seat_points(deck@, winner),
                forall|other: u8| other < seat ==> #[trigger] seat_points(deck@, other) <= most,
                forall|other: u8| other < winner ==> #[trigger] seat_points(deck@, other) < most,
            decreases 4 - seat,
        {
            let points = deck.points_in(seat + 5);
            if points > most {
                winner = seat;
                most = points;
            }
            seat = seat + 1;
        }
        proof {
            lemma_one_leader(deck@, winner);
        }
        winner
    }

    /// Plays `card` from the hand of `seat`. A card that is turned down
    /// changes nothing. One that is taken goes into the trick, and the
    /// turn moves to the next seat. The fourth card ends the trick: its
    /// cards go to the seat that the strongest of them was dealt to, and
    /// that seat leads the next trick. The eighth trick ends the hand.
    pub fn play_card(&mut self, seat: u8, card: &Card) -> (outcome: Result<(), GameError>)
        requires
            old(self).wf(),
        ensures
            final(self).wf(),
            outcome == old(self)@.answer_to_card(seat, *card),
            outcome.is_ok() ==> final(self)@ == old(self)@.after_card(*card),
            outcome.is_err() ==> final(self)@ == old(self)@,
    {
        match self.card_is_valid(card) {
            Err(error) => {
                return Err(error);
            },
            Ok(valid) => {
                if !valid || seat != self.play_turn {
                    return Err(GameError::IllegalMove);
                }
            },
        }
        proof {
            lemma_card_keeps_wf(self@, seat, *card);
        }
        self.deck.set(card, IN_TRICK);
        let first_card = match self.first_card {
            Some(first_card) => first_card,
            None => *card,
        };
        if self.game_progress.state < 7 {
            self.first_card = Some(first_card);
            self.game_progress.PlayCard();
            self.play_turn = seat_after(self.play_turn);
            return Ok(());
        }
        let ruleset = self.ruleset.unwrap();
        let taker = Self::taker_of(&self.deck, &self.starting_hands, &ruleset, &first_card);
        self.deck.move_all(IN_TRICK, taker + 5);
        self.vorhand = taker;
        self.play_turn = taker;
        self.first_card = None;
        self.round = self.round + 1;
        if self.round == 8 {
            self.winner = Some(Self::score_leader_of(&self.deck));
            self.game_progress.Finish();
        } else {
            self.game_progress.NextRound();
        }
        Ok(())
    }

    /// The seat that has won the hand: the one with the most points in the
    /// tricks it has won, the lowest of them if several have. Before the
    /// last trick is over there is no winner.
    pub fn finalize(&self) -> (winner: Result<u8, GameError>)
        requires
            self.wf(),
        ensures
            winner == self@.answer_to_finalize(),
            winner matches Ok(seat) ==> self@.leads_score(seat) && self@.points(0) + self@.points(1)
                + self@.points(2) + self@.points(3) == 120,
    {
        proof {
            if self.winner.is_some() {
                lemma_finished_hand(self@);
            }
        }
        match self.winner {
            Some(seat) => Ok(seat),
            None => if self.game_progress.state >= 4 && self.ruleset.is_none() {
                Err(GameError::UnimplementedRule)
            } else {
                Err(GameError::InvalidPhase)
            },
        }
    }

    /// Reads the phase, the turn counter, the seats whose turn it is and
    /// the hand of `seat` twice in a row, and tells whether the second
    /// reading is the first one over again. It always is: reading a hand
    /// changes nothing.
    pub fn reads_agree(&self, seat: u8) -> (agree: bool)
        requires
            self.wf(),
        ensures
            agree,
    {
        let place: u8 = if seat < 4 {
            seat + 1
        } else {
            IN_TRICK
        };
        let phase = self.phase();
        let progress = self.game_progress();
        let bidder = self.announce_turn();
        let player = self.play_turn();
        let hand = self.get_cards_in_location(place);
        let phase_again = self.phase();
        let progress_again = self.game_progress();
        let bidder_again = self.announce_turn();
        let player_again = self.play_turn();
        let hand_again = self.get_cards_in_location(place);
        let mut same_hand = hand.len() == hand_again.len();
        let mut i: usize = 0;
        while same_hand && i < hand.len()
            invariant
                hand@ == hand_again@,
                i <= hand@.len(),
                same_hand,
            decreases hand@.len() - i,
        {
            same_hand = hand[i] == hand_again[i];
            i = i + 1;
        }
        phase == phase_again && progress.state == progress_again.state && bidder == bidder_again
            && player == player_again && same_hand
    }
}

} // verus!
