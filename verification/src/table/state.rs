//! The turn counter of a hand: where it stands between the first bid and
//! the last trick.

use vstd::prelude::*;

verus! {

/// Where a hand stands. The counter is 0 before the first bid, 1 to 3
/// while bids are taken (the turns gone by since the last raise), 4 to 7
/// while a trick is played (4 plus the cards that lie in it), and 8 when
/// the hand is over.
#[derive(Debug, Copy, Clone, PartialEq, Eq, Structural)]
pub struct GameState {
    pub state: u8,
}

impl GameState {
    /// The counter after a pass: one step on while bids are taken, and
    /// from the last bidding step into play; unchanged elsewhere.
    pub open spec fn after_pass(state: u8) -> u8 {
        if state <= 3 {
            (state + 1) as u8
        } else {
            state
        }
    }

    /// The counter after a raise: back to the first bidding step, unless
    /// bids are no longer taken.
    pub open spec fn after_raise(state: u8) -> u8 {
        if state <= 3 {
            1
        } else {
            state
        }
    }

    /// The counter after one of the first three cards of a trick; unchanged
    /// elsewhere.
    pub open spec fn after_card(state: u8) -> u8 {
        if 4 <= state <= 6 {
            (state + 1) as u8
        } else {
            state
        }
    }

    /// The counter after the fourth card of a trick that is followed by
    /// another one; unchanged elsewhere.
    pub open spec fn after_trick(state: u8) -> u8 {
        if state == 7 {
            4
        } else {
            state
        }
    }

    /// The counter after the fourth card of the last trick; unchanged
    /// elsewhere.
    pub open spec fn after_last_trick(state: u8) -> u8 {
        if state == 7 {
            8
        } else {
            state
        }
    }

    /// A hand before the first bid.
    pub fn new() -> (fresh: GameState)
        ensures
            fresh.state == 0,
    {
        GameState { state: 0 }
    }

    /// Records a pass.
    #[allow(non_snake_case)]
    pub fn AnnounceNone(&mut self)
        ensures
            final(self).state == Self::after_pass(old(self).state),
    {
        if self.state <= 3 {
            self.state = self.state + 1;
        }
    }

    /// Records a raise.
    #[allow(non_snake_case)]
    pub fn AnnounceSome(&mut self)
        ensures
            final(self).state == Self::after_raise(old(self).state),
    {
        if self.state <= 3 {
            self.state = 1;
        }
    }

    /// Records one of the first three cards of a trick.
    #[allow(non_snake_case)]
    pub fn PlayCard(&mut self)
        ensures
            final(self).state == Self::after_card(old(self).state),
    {
        if 4 <= self.state && self.state <= 6 {
            self.state = self.state + 1;
        }
    }

    /// Records the end of a trick that another one follows.
    #[allow(non_snake_case)]
    pub fn NextRound(&mut self)
        ensures
            final(self).state == Self::after_trick(old(self).state),
    {
        if self.state == 7 {
            self.state = 4;
        }
    }

    /// Records the end of the last trick.
    #[allow(non_snake_case)]
    pub fn Finish(&mut self)
        ensures
            final(self).state == Self::after_last_trick(old(self).state),
    {
        if self.state == 7 {
            self.state = 8;
        }
    }
}

} // verus!
