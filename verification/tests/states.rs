use schafkopf::table::gamestate::GameState as Phase;
use schafkopf::table::state::GameState;

#[test]
fn a_counter_starts_at_zero() {
    assert_eq!(GameState::new().state, 0);
}

#[test]
fn passes_count_up_to_the_play() {
    let mut counter = GameState::new();
    for expected in [1, 2, 3, 4, 4, 4] {
        counter.AnnounceNone();
        assert_eq!(counter.state, expected);
    }
    for state in 4..=255u8 {
        let mut other = GameState { state };
        other.AnnounceNone();
        assert_eq!(other.state, state);
    }
}

#[test]
fn a_raise_sets_the_count_back_to_one() {
    for state in 0..=3u8 {
        let mut counter = GameState { state };
        counter.AnnounceSome();
        assert_eq!(counter.state, 1);
    }
    for state in 4..=255u8 {
        let mut counter = GameState { state };
        counter.AnnounceSome();
        assert_eq!(counter.state, state);
    }
}

#[test]
fn three_cards_count_up_and_the_fourth_does_not() {
    let mut counter = GameState { state: 4 };
    for expected in [5, 6, 7, 7] {
        counter.PlayCard();
        assert_eq!(counter.state, expected);
    }
    for state in [0u8, 1, 2, 3, 8, 9, 200] {
        let mut other = GameState { state };
        other.PlayCard();
        assert_eq!(other.state, state);
    }
}

#[test]
fn a_full_trick_leads_to_the_next_or_to_the_end() {
    let mut counter = GameState { state: 7 };
    counter.NextRound();
    assert_eq!(counter.state, 4);
    let mut counter = GameState { state: 7 };
    counter.Finish();
    assert_eq!(counter.state, 8);
    for state in [0u8, 3, 4, 5, 6, 8, 77] {
        let mut other = GameState { state };
        other.NextRound();
        assert_eq!(other.state, state);
        other.Finish();
        assert_eq!(other.state, state);
    }
}

#[test]
fn the_bidding_advances_into_play() {
    let mut phase = Phase::AnnouncementPhase;
    assert_eq!(phase.advance(), Ok(()));
    assert_eq!(phase, Phase::PlayPhase);
}

#[test]
fn only_the_bidding_advances() {
    let mut phase = Phase::PlayPhase;
    assert_eq!(phase.advance(), Err("Cannot advance game"));
    assert_eq!(phase, Phase::PlayPhase);
    let mut phase = Phase::Done { winner: 2 };
    assert_eq!(phase.advance(), Err("Cannot advance game"));
    assert_eq!(phase, Phase::Done { winner: 2 });
}

#[test]
fn the_play_finishes_with_a_winner() {
    for winner in 0..=3u8 {
        let mut phase = Phase::PlayPhase;
        assert_eq!(phase.finish(winner), Ok(()));
        assert_eq!(phase, Phase::Done { winner });
    }
}

#[test]
fn finishing_needs_the_play_and_a_seat() {
    let mut phase = Phase::PlayPhase;
    assert_eq!(phase.finish(4), Err("Cant finish game"));
    assert_eq!(phase, Phase::PlayPhase);
    assert_eq!(phase.finish(255), Err("Cant finish game"));
    let mut phase = Phase::AnnouncementPhase;
    assert_eq!(phase.finish(1), Err("Cant finish game"));
    assert_eq!(phase, Phase::AnnouncementPhase);
    let mut phase = Phase::Done { winner: 0 };
    assert_eq!(phase.finish(1), Err("Cant finish game"));
    assert_eq!(phase, Phase::Done { winner: 0 });
}
