use schafkopf::table::cards::{new_deck, Card, Colors, Symbols};
use schafkopf::table::gamestate::GameState as Phase;
use schafkopf::table::ledger::IN_TRICK;
use schafkopf::table::model::{Bidding, GameError};
use schafkopf::table::rulesets::{eichel_sauspiel, schellen_sauspiel, wenz, Ruleset};
use schafkopf::table::Game;

fn card_at(index: usize) -> Card {
    new_deck()[index]
}

fn deck_order() -> Vec<Card> {
    new_deck()
}

fn card(symbol: Symbols, color: Colors) -> Card {
    Card { symbol, color }
}

/// A hand dealt in deck order in which the seat after `dealer` has bid
/// `rules` and the others have passed.
fn hand_in_play(dealer: u8, rules: Ruleset) -> Game {
    let mut game = Game::from_order(dealer, &deck_order()).unwrap();
    assert_eq!(game.announce(Some(rules)), Ok(()));
    for _ in 0..3 {
        assert_eq!(game.announce(None), Ok(()));
    }
    assert_eq!(game.phase(), Phase::PlayPhase);
    game
}

/// Plays, for the seat whose turn it is, the first card of its hand that
/// is taken.
fn play_first_card_that_is_taken(game: &mut Game) -> Card {
    let seat = game.play_turn();
    for card in game.get_cards_in_location(seat + 1) {
        if game.play_card(seat, &card).is_ok() {
            return card;
        }
    }
    panic!("seat {} holds no card that is taken", seat);
}

fn points_won(game: &Game, seat: u8) -> i16 {
    game.get_cards_in_location(seat + 5).iter().map(|c| c.get_value().unwrap()).sum()
}

#[test]
fn the_first_card_of_a_trick_may_be_any_card_of_the_hand() {
    for index in [0usize, 4, 8, 12, 16, 20, 24, 28] {
        let mut game = hand_in_play(3, schellen_sauspiel());
        let lead = card_at(index);
        assert_eq!(game.card_is_valid(&lead), Ok(true));
        assert_eq!(game.play_card(0, &lead), Ok(()));
        assert_eq!(game.first_card(), Some(lead));
        assert_eq!(game.get_cards_in_location(IN_TRICK), vec![lead]);
        assert_eq!(game.get_cards_in_location(1).len(), 7);
        assert_eq!(game.play_turn(), 1);
        assert_eq!(game.vorhand(), 0);
        assert_eq!(game.game_progress().state, 5);
    }
}

#[test]
fn after_trump_a_seat_without_trump_may_play_any_card() {
    // Only the Unter are trump, and seat 2 holds all four of them.
    let mut game = hand_in_play(1, wenz());
    assert_eq!(game.play_turn(), 2);
    assert_eq!(game.play_card(2, &card(Symbols::Unter, Colors::Schelln)), Ok(()));
    assert_eq!(game.has_trump_in_hand(3), Ok(false));
    for held in game.get_cards_in_location(4) {
        assert_eq!(game.card_is_valid(&held), Ok(true));
    }
    let discard = card(Symbols::Koenig, Colors::Schelln);
    assert!(!wenz().card_is_trump(&discard));
    assert_eq!(game.play_card(3, &discard), Ok(()));
    assert_eq!(game.get_cards_in_location(IN_TRICK).len(), 2);
    assert_eq!(game.play_turn(), 0);
    assert_eq!(game.play_card(0, &card(Symbols::Zehn, Colors::Eichel)), Ok(()));
    assert_eq!(game.play_card(1, &card(Symbols::Ass, Colors::Gras)), Ok(()));
    assert_eq!(game.vorhand(), 2);
    assert_eq!(points_won(&game, 2), 2 + 4 + 10 + 11);
}

#[test]
fn after_trump_a_seat_with_trump_must_play_trump() {
    let mut game = hand_in_play(3, schellen_sauspiel());
    assert_eq!(game.play_card(0, &card(Symbols::Sieben, Colors::Herz)), Ok(()));
    assert_eq!(game.has_trump_in_hand(1), Ok(true));
    assert_eq!(game.card_is_valid(&card(Symbols::Acht, Colors::Schelln)), Ok(false));
    assert_eq!(
        game.play_card(1, &card(Symbols::Acht, Colors::Schelln)),
        Err(GameError::IllegalMove)
    );
    assert_eq!(game.play_card(1, &card(Symbols::Ass, Colors::Eichel)), Err(GameError::IllegalMove));
    assert_eq!(game.get_cards_in_location(2).len(), 8);
    assert_eq!(game.play_turn(), 1);
    assert_eq!(game.card_is_valid(&card(Symbols::Acht, Colors::Herz)), Ok(true));
    assert_eq!(game.play_card(1, &card(Symbols::Acht, Colors::Herz)), Ok(()));
    // An Unter of another suit is trump as well.
    assert_eq!(game.play_card(2, &card(Symbols::Unter, Colors::Eichel)), Ok(()));
}

#[test]
fn what_follows_trump_is_what_beats_plain_cards() {
    let rules = schellen_sauspiel();
    let mut game = hand_in_play(3, rules);
    let led = card(Symbols::Sieben, Colors::Herz);
    assert!(rules.card_is_trump(&led));
    assert_eq!(game.play_card(0, &led), Ok(()));
    for seat in 1..4u8 {
        let hand = game.get_cards_in_location(seat + 1);
        let mut trump_played = None;
        for held in &hand {
            let trump = rules.card_is_trump(held);
            assert_eq!(game.card_is_valid(held), Ok(trump));
            for other in &hand {
                if trump && !rules.card_is_trump(other) {
                    assert!(rules.compare_cards(held, other, &led));
                    assert!(!rules.compare_cards(other, held, &led));
                }
            }
            if trump {
                trump_played = Some(*held);
            }
        }
        assert_eq!(game.play_card(seat, &trump_played.unwrap()), Ok(()));
    }
}

#[test]
fn after_a_plain_card_its_suit_must_be_played() {
    let mut game = hand_in_play(3, schellen_sauspiel());
    assert_eq!(game.play_card(0, &card(Symbols::Sieben, Colors::Gras)), Ok(()));
    assert!(game.has_color_in_hand(Colors::Gras, 1));
    assert_eq!(game.card_is_valid(&card(Symbols::Acht, Colors::Herz)), Ok(false));
    assert_eq!(game.play_card(1, &card(Symbols::Acht, Colors::Herz)), Err(GameError::IllegalMove));
    assert_eq!(game.play_card(1, &card(Symbols::Ass, Colors::Eichel)), Err(GameError::IllegalMove));
    assert_eq!(game.game_progress().state, 5);
    assert_eq!(game.play_card(1, &card(Symbols::Ass, Colors::Gras)), Ok(()));
    assert_eq!(game.game_progress().state, 6);
}

#[test]
fn after_a_plain_card_a_seat_without_the_suit_may_play_any_card() {
    // Each seat holds one suit only.
    let mut order = Vec::new();
    for n in 0..32 {
        order.push(card_at((n % 4) * 8 + n / 4));
    }
    let mut game = Game::from_order(3, &order).unwrap();
    assert_eq!(game.announce(Some(wenz())), Ok(()));
    for _ in 0..3 {
        assert_eq!(game.announce(None), Ok(()));
    }
    assert_eq!(game.play_card(0, &card(Symbols::Ass, Colors::Schelln)), Ok(()));
    assert!(!game.has_color_in_hand(Colors::Schelln, 1));
    for held in game.get_cards_in_location(2) {
        assert_eq!(game.card_is_valid(&held), Ok(true));
    }
    assert_eq!(game.play_card(1, &card(Symbols::Ober, Colors::Herz)), Ok(()));
    assert_eq!(game.play_card(2, &card(Symbols::Zehn, Colors::Gras)), Ok(()));
    assert_eq!(game.play_card(3, &card(Symbols::Unter, Colors::Eichel)), Ok(()));
    // The Unter is the only trump in the trick.
    assert_eq!(game.vorhand(), 3);
    assert_eq!(points_won(&game, 3), 11 + 3 + 10 + 2);
}

#[test]
fn a_card_of_the_suit_led_follows_even_if_it_is_trump() {
    let mut game = hand_in_play(3, schellen_sauspiel());
    assert_eq!(game.play_card(0, &card(Symbols::Sieben, Colors::Gras)), Ok(()));
    assert_eq!(game.play_card(1, &card(Symbols::Acht, Colors::Gras)), Ok(()));
    assert_eq!(game.card_is_valid(&card(Symbols::Unter, Colors::Gras)), Ok(true));
    assert_eq!(game.card_is_valid(&card(Symbols::Unter, Colors::Eichel)), Ok(false));
    assert_eq!(game.play_card(2, &card(Symbols::Unter, Colors::Gras)), Ok(()));
}

#[test]
fn a_seat_plays_only_when_it_is_its_turn() {
    let mut game = hand_in_play(3, schellen_sauspiel());
    assert_eq!(game.play_turn(), 0);
    assert_eq!(game.play_card(1, &card(Symbols::Acht, Colors::Schelln)), Err(GameError::IllegalMove));
    assert_eq!(game.play_card(3, &card(Symbols::Ober, Colors::Schelln)), Err(GameError::IllegalMove));
    assert_eq!(game.play_card(4, &card(Symbols::Sieben, Colors::Schelln)), Err(GameError::IllegalMove));
    assert_eq!(game.play_card(255, &card(Symbols::Sieben, Colors::Schelln)), Err(GameError::IllegalMove));
    assert_eq!(game.get_cards_in_location(IN_TRICK).len(), 0);
    assert_eq!(game.game_progress().state, 4);
}

#[test]
fn a_seat_plays_only_cards_of_its_hand() {
    let mut game = hand_in_play(3, schellen_sauspiel());
    assert_eq!(game.card_is_valid(&card(Symbols::Acht, Colors::Schelln)), Ok(false));
    assert_eq!(game.play_card(0, &card(Symbols::Acht, Colors::Schelln)), Err(GameError::IllegalMove));
    assert_eq!(game.play_card(0, &card(Symbols::Sieben, Colors::Schelln)), Ok(()));
    assert_eq!(game.play_card(1, &card(Symbols::Acht, Colors::Schelln)), Ok(()));
    // A card that lies in the trick is in no hand.
    assert_eq!(game.play_card(2, &card(Symbols::Sieben, Colors::Schelln)), Err(GameError::IllegalMove));
    assert_eq!(game.play_card(2, &card(Symbols::Acht, Colors::Schelln)), Err(GameError::IllegalMove));
    assert_eq!(game.play_turn(), 2);
}

#[test]
fn no_card_is_taken_during_the_bidding() {
    let mut game = Game::from_order(3, &deck_order()).unwrap();
    let held = card(Symbols::Sieben, Colors::Schelln);
    assert_eq!(game.play_card(0, &held), Err(GameError::InvalidPhase));
    assert_eq!(game.card_is_valid(&held), Err(GameError::InvalidPhase));
    assert_eq!(game.announce(Some(wenz())), Ok(()));
    assert_eq!(game.play_card(0, &held), Err(GameError::InvalidPhase));
    assert_eq!(game.card_is_valid(&held), Err(GameError::InvalidPhase));
    assert_eq!(game.determine_round_winner(), Err(GameError::InvalidPhase));
    assert_eq!(game.get_cards_in_location(1).len(), 8);
    assert_eq!(game.game_progress().state, 1);
}

#[test]
fn trump_in_a_hand_is_known_once_a_bid_stands() {
    let mut game = Game::from_order(3, &deck_order()).unwrap();
    assert_eq!(game.has_trump_in_hand(0), Err(GameError::InvalidPhase));
    assert_eq!(game.announce(Some(wenz())), Ok(()));
    assert_eq!(game.has_trump_in_hand(0), Ok(false));
    assert_eq!(game.has_trump_in_hand(1), Ok(false));
    assert_eq!(game.has_trump_in_hand(2), Ok(true));
    assert_eq!(game.has_trump_in_hand(3), Ok(false));
    assert_eq!(game.has_trump_in_hand(4), Ok(false));
    assert_eq!(game.has_trump_in_hand(255), Ok(false));
}

#[test]
fn a_hand_beyond_the_fourth_seat_holds_nothing() {
    let game = hand_in_play(3, schellen_sauspiel());
    for color in [Colors::Schelln, Colors::Herz, Colors::Gras, Colors::Eichel] {
        for seat in 0..4u8 {
            assert!(game.has_color_in_hand(color, seat));
            assert!(game.has_number_of_color_in_hand(color, seat));
        }
        assert!(!game.has_color_in_hand(color, 4));
        assert!(!game.has_number_of_color_in_hand(color, 4));
        assert!(!game.has_color_in_hand(color, 255));
        assert!(!game.has_number_of_color_in_hand(color, 255));
    }
}

#[test]
fn the_strongest_card_takes_the_trick_as_it_lies() {
    let mut game = hand_in_play(3, schellen_sauspiel());
    assert_eq!(game.determine_round_winner(), Err(GameError::InvalidPhase));
    assert_eq!(game.play_card(0, &card(Symbols::Sieben, Colors::Schelln)), Ok(()));
    assert_eq!(game.determine_round_winner(), Ok(0));
    assert_eq!(game.play_card(1, &card(Symbols::Ass, Colors::Schelln)), Ok(()));
    assert_eq!(game.determine_round_winner(), Ok(1));
    assert_eq!(game.play_card(2, &card(Symbols::Neun, Colors::Schelln)), Ok(()));
    assert_eq!(game.determine_round_winner(), Ok(1));
    assert_eq!(game.game_progress().state, 7);
    assert_eq!(game.play_card(3, &card(Symbols::Ober, Colors::Schelln)), Ok(()));
    assert_eq!(game.vorhand(), 3);
    assert_eq!(game.play_turn(), 3);
    assert_eq!(game.first_card(), None);
    assert_eq!(game.round(), 1);
    assert_eq!(game.game_progress().state, 4);
    assert!(game.get_cards_in_location(IN_TRICK).is_empty());
    let won: Vec<usize> = game.get_cards_in_location(8).iter().map(|c| c.index()).collect();
    assert_eq!(won, vec![0, 2, 5, 7]);
    assert_eq!(points_won(&game, 3), 14);
    assert_eq!(game.determine_round_winner(), Err(GameError::InvalidPhase));
}

#[test]
fn a_won_card_still_belongs_to_the_seat_it_was_dealt_to() {
    let mut game = hand_in_play(3, schellen_sauspiel());
    for _ in 0..4 {
        play_first_card_that_is_taken(&mut game);
    }
    assert_eq!(game.vorhand(), 3);
    assert_eq!(game.get_card_owner(&card(Symbols::Sieben, Colors::Schelln)), Ok(0));
    assert_eq!(game.get_card_owner(&card(Symbols::Acht, Colors::Schelln)), Ok(1));
    assert_eq!(game.get_card_owner(&card(Symbols::Neun, Colors::Schelln)), Ok(2));
    assert_eq!(game.get_card_owner(&card(Symbols::Koenig, Colors::Schelln)), Ok(3));
}

#[test]
fn with_no_points_won_the_lowest_seat_leads_the_score() {
    let game = hand_in_play(3, schellen_sauspiel());
    assert_eq!(game.determine_game_winner(), 0);
    let game = Game::new(1);
    assert_eq!(game.determine_game_winner(), 0);
}

#[test]
fn the_seat_with_the_most_points_leads_the_score() {
    let mut game = hand_in_play(3, schellen_sauspiel());
    for _ in 0..4 {
        play_first_card_that_is_taken(&mut game);
    }
    assert_eq!(points_won(&game, 3), 4);
    assert_eq!(game.determine_game_winner(), 3);
    assert_eq!(game.finalize(), Err(GameError::InvalidPhase));
    assert_eq!(game.winner(), None);
}

#[test]
fn eight_tricks_end_the_hand_and_the_most_points_win() {
    let mut game = hand_in_play(3, schellen_sauspiel());
    let takers = [3u8, 3, 1, 3, 3, 3, 3, 3];
    for (round, taker) in takers.iter().enumerate() {
        assert_eq!(game.round() as usize, round);
        assert_eq!(game.phase(), Phase::PlayPhase);
        for placed in 0..4u8 {
            assert_eq!(game.game_progress().state, 4 + placed);
            assert_eq!(game.get_cards_in_location(IN_TRICK).len(), placed as usize);
            play_first_card_that_is_taken(&mut game);
        }
        assert_eq!(game.vorhand(), *taker);
        assert_eq!(game.play_turn(), *taker);
        for seat in 0..4u8 {
            assert_eq!(game.get_cards_in_location(seat + 1).len(), 7 - round);
        }
    }
    assert_eq!(game.round(), 8);
    assert_eq!(game.game_progress().state, 8);
    assert_eq!(points_won(&game, 0), 0);
    assert_eq!(points_won(&game, 1), 25);
    assert_eq!(points_won(&game, 2), 0);
    assert_eq!(points_won(&game, 3), 95);
    let sum: i16 = (0..4u8).map(|seat| points_won(&game, seat)).sum();
    assert_eq!(sum, 120);
    let won: usize = (5..=8u8).map(|place| game.get_cards_in_location(place).len()).sum();
    assert_eq!(won, 32);
    assert_eq!(game.finalize(), Ok(3));
    assert_eq!(game.winner(), Some(3));
    assert_eq!(game.determine_game_winner(), 3);
    assert_eq!(game.phase(), Phase::Done { winner: 3 });
    assert_eq!(game.bidding(), Bidding::Resolved(schellen_sauspiel()));
}

#[test]
fn a_solo_of_four_unter_wins_by_its_points() {
    let mut game = hand_in_play(1, wenz());
    while game.phase() == Phase::PlayPhase {
        play_first_card_that_is_taken(&mut game);
    }
    assert_eq!(points_won(&game, 0), 0);
    assert_eq!(points_won(&game, 1), 0);
    assert_eq!(points_won(&game, 2), 104);
    assert_eq!(points_won(&game, 3), 16);
    assert_eq!(game.finalize(), Ok(2));
    assert_eq!(game.teams(), Some(0b0100));
}

#[test]
fn a_hand_that_is_over_takes_nothing_more() {
    let mut game = hand_in_play(3, eichel_sauspiel());
    while game.phase() == Phase::PlayPhase {
        play_first_card_that_is_taken(&mut game);
    }
    let winner = game.finalize().unwrap();
    let sieben = card(Symbols::Sieben, Colors::Schelln);
    assert_eq!(game.play_card(game.play_turn(), &sieben), Err(GameError::InvalidPhase));
    assert_eq!(game.card_is_valid(&sieben), Err(GameError::InvalidPhase));
    assert_eq!(game.announce(None), Err(GameError::InvalidPhase));
    assert_eq!(game.announce(Some(wenz())), Err(GameError::InvalidPhase));
    assert_eq!(game.finalize(), Ok(winner));
    assert_eq!(game.game_progress().state, 8);
    for seat in 0..4u8 {
        assert!(game.get_cards_in_location(seat + 1).is_empty());
    }
}

#[test]
fn any_random_hand_plays_out_to_120_points() {
    for dealer in 0..4u8 {
        let mut game = Game::new(dealer);
        assert_eq!(game.announce(Some(wenz())), Ok(()));
        for _ in 0..3 {
            assert_eq!(game.announce(None), Ok(()));
        }
        let mut cards = 0;
        while game.phase() == Phase::PlayPhase {
            play_first_card_that_is_taken(&mut game);
            cards += 1;
        }
        assert_eq!(cards, 32);
        let points: Vec<i16> = (0..4u8).map(|seat| points_won(&game, seat)).collect();
        assert_eq!(points.iter().sum::<i16>(), 120);
        let winner = game.finalize().unwrap();
        for seat in 0..4u8 {
            assert!(points[seat as usize] <= points[winner as usize]);
            if seat < winner {
                assert!(points[seat as usize] < points[winner as usize]);
            }
        }
    }
}

#[test]
fn reading_twice_gives_the_same_answers() {
    let mut game = hand_in_play(3, schellen_sauspiel());
    for step in 0..10 {
        for seat in 0..5u8 {
            assert!(game.reads_agree(seat));
            assert_eq!(game.get_cards_in_location(seat), game.get_cards_in_location(seat));
        }
        assert_eq!(game.phase(), game.phase());
        assert_eq!(game.play_turn(), game.play_turn());
        assert_eq!(game.announce_turn(), game.announce_turn());
        assert_eq!(game.game_progress(), game.game_progress());
        assert_eq!(game.bidding(), game.bidding());
        assert_eq!(game.first_card(), game.first_card());
        assert_eq!(game.round(), step / 4);
        play_first_card_that_is_taken(&mut game);
    }
    let fresh = Game::new(0);
    assert!(fresh.reads_agree(0));
    assert!(fresh.reads_agree(200));
}
