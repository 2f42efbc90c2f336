use vstd::prelude::*;

use crate::playered::Player;

verus! {

/// Describes variant of game (three players/four players)
#[derive(Debug, PartialEq, Eq, Clone, Copy, Hash, Structural)]
pub enum Variant {
    ThreePlayers,
    FourPlayers,
}

/// Number of cards in the deck.
pub const DECK_SIZE: usize = 24;

impl Variant {
    /// Number of seats of the variant.
    pub open spec fn seats(self) -> u32 {
        match self {
            Variant::ThreePlayers => 3,
            Variant::FourPlayers => 4,
        }
    }

    /// The seat that follows `p` in playing order.
    pub open spec fn next_seat(self, p: int) -> int {
        (p + 1) % (self.seats() as int)
    }

    /// Cards dealt to each seat.
    pub open spec fn hand_size(self) -> nat {
        match self {
            Variant::ThreePlayers => 8,
            Variant::FourPlayers => 6,
        }
    }

    pub fn number_of_players(&self) -> (r: u32)
        ensures
            r == self.seats(),
    {
        match self {
            Variant::ThreePlayers => 3,
            Variant::FourPlayers => 4,
        }
    }

    pub fn cards_per_player(&self) -> (r: usize)
        ensures
            r == self.hand_size(),
            r * self.seats() == DECK_SIZE,
    {
        let n = self.number_of_players() as usize;
        assert(DECK_SIZE == 24);
        assert(24usize / 3usize == 8 && 24usize / 4usize == 6) by (nonlinear_arith);
        DECK_SIZE / n
    }

    /// The seat after `p`: `(p + 1) mod seats`.
    pub fn next_player(&self, p: Player) -> (r: Player)
        ensures
            r == self.next_seat(p as int),
            r < self.seats(),
    {
        let n = self.number_of_players();
        let q = p % n;
        proof {
            vstd::arithmetic::div_mod::lemma_add_mod_noop(p as int, 1, n as int);
            vstd::arithmetic::div_mod::lemma_mod_twice(p as int, n as int);
        }
        if q + 1 == n {
            proof {
                vstd::arithmetic::div_mod::lemma_mod_self_0(n as int);
            }
            0
        } else {
            proof {
                vstd::arithmetic::div_mod::lemma_small_mod((q + 1) as nat, n as nat);
                vstd::arithmetic::div_mod::lemma_small_mod(1, n as nat);
            }
            q + 1
        }
    }
}

} // verus!
