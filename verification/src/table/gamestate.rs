//! The phase of a hand: bids are taken, tricks are played, or it is over.

use vstd::prelude::*;

verus! {

/// The phase of a hand.
#[derive(Debug, Copy, Clone, PartialEq, Eq, Structural)]
pub enum GameState {
    AnnouncementPhase,
    PlayPhase,
    Done { winner: u8 },
}

impl GameState {
    /// Moves from the bidding into play. In any other phase nothing
    /// changes and the call fails.
    pub fn advance(&mut self) -> (moved: Result<(), &'static str>)
        ensures
            *old(self) == GameState::AnnouncementPhase ==> moved.is_ok() && *final(self)
                == GameState::PlayPhase,
            *old(self) != GameState::AnnouncementPhase ==> moved == Err::<(), &'static str>(
                "Cannot advance game",
            ) && *final(self) == *old(self),
    {
        match *self {
            GameState::AnnouncementPhase => {
                *self = GameState::PlayPhase;
                Ok(())
            },
            _ => Err("Cannot advance game"),
        }
    }

    /// Ends the play with seat `winner` as the winner of the hand. Where
    /// the hand is not in play, or `winner` is no seat, nothing changes and
    /// the call fails.
    pub fn finish(&mut self, winner: u8) -> (ended: Result<(), &'static str>)
        ensures
            winner <= 3 && *old(self) == GameState::PlayPhase ==> ended.is_ok() && *final(self) == (
            GameState::Done { winner }),
            !(winner <= 3 && *old(self) == GameState::PlayPhase) ==> ended == Err::<
                (),
                &'static str,
            >("Cant finish game") && *final(self) == *old(self),
    {
        let playing = match *self {
            GameState::PlayPhase => true,
            _ => false,
        };
        if winner <= 3 && playing {
            *self = GameState::Done { winner };
            Ok(())
        } else {
            Err("Cant finish game")
        }
    }
}

} // verus!
