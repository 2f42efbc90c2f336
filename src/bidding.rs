use vstd::prelude::*;

use crate::contract::{Contract, GameType};
use crate::error::{SechsUndSechzigError, SusResult};
use crate::playered::Player;
use crate::variant::Variant;

verus! {

#[derive(Debug, Clone, Copy, PartialEq, Eq, Structural)]
pub enum Bid {
    Pass,
    Raise,
    Game(GameType),
}

#[derive(Debug, Clone, Copy, PartialEq, Eq, Structural)]
pub enum BidResult {
    Finish(Contract),
    Continue(Contract, Player),
}

/// The contract after `player` raises: doubled stake, `player` becomes dealer.
pub open spec fn raised(c: Contract, player: Player) -> Contract {
    Contract { dealer: player, multiplier: (2 * c.multiplier) as i32, ..c }
}

/// Whether a raise of `c` keeps the multiplier within `i32`.
pub open spec fn raise_fits(c: Contract) -> bool {
    i32::MIN <= 2 * c.multiplier <= i32::MAX
}

/// The bidding rule: what `bid` by `player` does to contract `c`.
pub open spec fn bidding_spec(
    c: Contract,
    bid: Bid,
    player: Player,
    variant: Variant,
    initial_dealer: Player,
) -> SusResult<BidResult> {
    let next = variant.next_seat(player as int) as Player;
    let last = next == initial_dealer;
    match (c.game_type, bid) {
        // first stage: bidding on four cards
        (GameType::NonTriumph, Bid::Pass) => if last {
            Ok(BidResult::Finish(c))
        } else {
            Ok(BidResult::Continue(c, next))
        },
        (GameType::NonTriumph, Bid::Raise) => if last {
            Ok(BidResult::Finish(raised(c, player)))
        } else {
            Ok(BidResult::Continue(raised(c, player), next))
        },
        (GameType::NonTriumph, Bid::Game(GameType::AskingAbout(t))) => Ok(
            BidResult::Continue(
                Contract { game_type: GameType::AskingAbout(t), dealer: player, multiplier: 1 },
                player,
            ),
        ),
        // second stage: the asking dealer answers after drawing the remaining cards
        (GameType::AskingAbout(s), Bid::Game(g)) if c.multiplier == 1 && c.dealer == player => {
            match g {
                GameType::AskingAbout(t) if t == s => Ok(BidResult::Continue(c, next)),
                GameType::LookingFor(t) if t == s => Ok(
                    BidResult::Continue(Contract { game_type: GameType::LookingFor(t), ..c }, next),
                ),
                GameType::Shower => Ok(
                    BidResult::Continue(Contract { game_type: GameType::Shower, ..c }, next),
                ),
                _ => Err(SechsUndSechzigError::InvaildBid),
            }
        },
        _ => Err(SechsUndSechzigError::InvaildBid),
    }
}

/// One bidding step: `player` makes `bid` under `current_contract`.
/// `initial_dealer` marks the end of the first stage: the seat before it bids last.
pub fn bidding(
    current_contract: &Contract,
    bid: &Bid,
    player: Player,
    variant: &Variant,
    initial_dealer: Player,
) -> (r: SusResult<BidResult>)
    requires
        *bid == Bid::Raise ==> raise_fits(*current_contract),
    ensures
        r == bidding_spec(*current_contract, *bid, player, *variant, initial_dealer),
{
    let c = *current_contract;
    let next = variant.next_player(player);
    match (c.game_type, *bid) {
        (GameType::NonTriumph, Bid::Pass) => {
            if next == initial_dealer {
                Ok(BidResult::Finish(c))
            } else {
                Ok(BidResult::Continue(c, next))
            }
        },
        (GameType::NonTriumph, Bid::Raise) => {
            let r = Contract { dealer: player, multiplier: c.multiplier * 2, ..c };
            if next == initial_dealer {
                Ok(BidResult::Finish(r))
            } else {
                Ok(BidResult::Continue(r, next))
            }
        },
        (GameType::NonTriumph, Bid::Game(GameType::AskingAbout(t))) => {
            Ok(
                BidResult::Continue(
                    Contract { game_type: GameType::AskingAbout(t), dealer: player, multiplier: 1 },
                    player,
                ),
            )
        },
        (GameType::AskingAbout(s), Bid::Game(g)) if c.multiplier == 1 && c.dealer == player => {
            match g {
                GameType::AskingAbout(t) if t == s => Ok(BidResult::Continue(c, next)),
                GameType::LookingFor(t) if t == s => {
                    Ok(
                        BidResult::Continue(
                            Contract { game_type: GameType::LookingFor(t), ..c },
                            next,
                        ),
                    )
                },
                GameType::Shower => {
                    Ok(BidResult::Continue(Contract { game_type: GameType::Shower, ..c }, next))
                },
                _ => Err(SechsUndSechzigError::InvaildBid),
            }
        },
        _ => Err(SechsUndSechzigError::InvaildBid),
    }
}

} // verus!

verus! {

/// Bids made one after another from contract `c` with `player` to act.
/// Bidding stops at the first bid that finishes it or is refused.
pub open spec fn run_bidding(
    c: Contract,
    player: Player,
    bids: Seq<Bid>,
    variant: Variant,
    initial_dealer: Player,
) -> SusResult<BidResult>
    decreases bids.len(),
{
    if bids.len() == 0 {
        Ok(BidResult::Continue(c, player))
    } else {
        match bidding_spec(c, bids[0], player, variant, initial_dealer) {
            Ok(BidResult::Continue(next_c, next_p)) => run_bidding(
                next_c,
                next_p,
                bids.drop_first(),
                variant,
                initial_dealer,
            ),
            other => other,
        }
    }
}

/// When every seat passes, starting with the initial dealer, bidding finishes
/// with the initial contract: multiplier one, the initial dealer still dealing.
pub proof fn lemma_all_pass(variant: Variant, initial_dealer: Player)
    requires
        initial_dealer < variant.seats(),
    ensures
        run_bidding(
            Contract { game_type: GameType::NonTriumph, dealer: initial_dealer, multiplier: 1 },
            initial_dealer,
            Seq::new(variant.seats() as nat, |i: int| Bid::Pass),
            variant,
            initial_dealer,
        ) == Ok::<BidResult, SechsUndSechzigError>(
            BidResult::Finish(
                Contract { game_type: GameType::NonTriumph, dealer: initial_dealer, multiplier: 1 },
            ),
        ),
{
    let c = Contract { game_type: GameType::NonTriumph, dealer: initial_dealer, multiplier: 1 };
    let n = variant.seats() as nat;
    let bids = Seq::new(n, |i: int| Bid::Pass);
    reveal_with_fuel(run_bidding, 5);
    assert(bids.drop_first().drop_first() =~= Seq::new((n - 2) as nat, |i: int| Bid::Pass));
    assert(bids.drop_first().drop_first().drop_first() =~= Seq::new(
        (n - 3) as nat,
        |i: int| Bid::Pass,
    ));
    if n == 4 {
        assert(bids.drop_first().drop_first().drop_first().drop_first() =~= Seq::<Bid>::empty());
    }
}

/// When every seat raises, starting with the initial dealer, bidding finishes
/// with the stake doubled once per seat and the last seat to act as dealer.
pub proof fn lemma_all_raise(variant: Variant, initial_dealer: Player)
    requires
        initial_dealer < variant.seats(),
    ensures
        run_bidding(
            Contract { game_type: GameType::NonTriumph, dealer: initial_dealer, multiplier: 1 },
            initial_dealer,
            Seq::new(variant.seats() as nat, |i: int| Bid::Raise),
            variant,
            initial_dealer,
        ) == Ok::<BidResult, SechsUndSechzigError>(
            BidResult::Finish(
                Contract {
                    game_type: GameType::NonTriumph,
                    dealer: ((initial_dealer + variant.seats() - 1) % (variant.seats() as int)) as Player,
                    multiplier: vstd::arithmetic::power2::pow2(variant.seats() as nat) as i32,
                },
            ),
        ),
{
    let n = variant.seats() as nat;
    let bids = Seq::new(n, |i: int| Bid::Raise);
    reveal_with_fuel(run_bidding, 5);
    vstd::arithmetic::power2::lemma2_to64();
    assert(bids.drop_first().drop_first() =~= Seq::new((n - 2) as nat, |i: int| Bid::Raise));
    assert(bids.drop_first().drop_first().drop_first() =~= Seq::new(
        (n - 3) as nat,
        |i: int| Bid::Raise,
    ));
    if n == 4 {
        assert(bids.drop_first().drop_first().drop_first().drop_first() =~= Seq::<Bid>::empty());
    }
}

} // verus!
