//! Rules engine of the card game Sechsundsechzig (sixty-six) for three or
//! four seats: bidding, trick play, stashes and round outcomes.
pub mod bidding;
pub mod cards;
pub mod contract;
pub mod error;
pub mod game;
pub mod hands;
pub mod ordering;
pub mod playered;
pub mod random;
pub mod round;
pub mod score;
pub mod stash;
pub mod sus_move;
pub mod table;
pub mod team;
pub mod text;
pub mod variant;
