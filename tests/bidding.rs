use sechsundsechzig::bidding::{bidding, Bid, BidResult};
use sechsundsechzig::cards::Suit;
use sechsundsechzig::contract::{Contract, GameType};
use sechsundsechzig::error::SechsUndSechzigError;
use sechsundsechzig::playered::Player;
use sechsundsechzig::variant::Variant;

#[derive(Debug, PartialEq, Eq)]
enum Outcome {
    InProgress { contract: Contract, player: Player },
    Finished { contract: Contract },
    Error { error: SechsUndSechzigError },
}

fn run(initial_dealer: Player, variant: Variant, moves: Vec<(Player, Bid)>, expected: Outcome) {
    let mut state = Outcome::InProgress { contract: Contract::initial(initial_dealer), player: initial_dealer };
    for (expected_player, bid) in moves {
        state = match state {
            Outcome::InProgress { contract, player } => {
                assert_eq!(expected_player, player, "Invaild player");
                match bidding(&contract, &bid, player, &variant, initial_dealer) {
                    Ok(BidResult::Continue(contract, player)) => Outcome::InProgress { contract, player },
                    Ok(BidResult::Finish(contract)) => Outcome::Finished { contract },
                    Err(error) => Outcome::Error { error },
                }
            }
            Outcome::Finished { .. } => panic!("Already finished"),
            Outcome::Error { .. } => panic!("Wrong bidding"),
        };
    }
    assert_eq!(state, expected);
}

#[test]
fn warsaw_three_players() {
    run(
        0,
        Variant::ThreePlayers,
        vec![(0, Bid::Pass), (1, Bid::Pass), (2, Bid::Pass)],
        Outcome::Finished { contract: Contract { dealer: 0, game_type: GameType::NonTriumph, multiplier: 1 } },
    )
}

#[test]
fn warsaw_four_players() {
    run(
        0,
        Variant::FourPlayers,
        vec![(0, Bid::Pass), (1, Bid::Pass), (2, Bid::Pass), (3, Bid::Pass)],
        Outcome::Finished { contract: Contract { dealer: 0, game_type: GameType::NonTriumph, multiplier: 1 } },
    )
}

#[test]
fn counter() {
    run(
        0,
        Variant::ThreePlayers,
        vec![(0, Bid::Pass), (1, Bid::Raise), (2, Bid::Pass)],
        Outcome::Finished { contract: Contract { dealer: 1, game_type: GameType::NonTriumph, multiplier: 2 } },
    )
}

#[test]
fn recounter() {
    run(
        0,
        Variant::ThreePlayers,
        vec![(0, Bid::Pass), (1, Bid::Raise), (2, Bid::Raise)],
        Outcome::Finished { contract: Contract { dealer: 2, game_type: GameType::NonTriumph, multiplier: 4 } },
    )
}

#[test]
fn sup() {
    run(
        0,
        Variant::ThreePlayers,
        vec![(0, Bid::Raise), (1, Bid::Raise), (2, Bid::Raise)],
        Outcome::Finished { contract: Contract { dealer: 2, game_type: GameType::NonTriumph, multiplier: 8 } },
    )
}

#[test]
fn mor() {
    run(
        0,
        Variant::FourPlayers,
        vec![(0, Bid::Raise), (1, Bid::Raise), (2, Bid::Raise), (3, Bid::Raise)],
        Outcome::Finished { contract: Contract { dealer: 3, game_type: GameType::NonTriumph, multiplier: 16 } },
    )
}

#[test]
fn all_pass_from_a_later_dealer() {
    run(
        2,
        Variant::FourPlayers,
        vec![(2, Bid::Pass), (3, Bid::Pass), (0, Bid::Pass), (1, Bid::Pass)],
        Outcome::Finished { contract: Contract { dealer: 2, game_type: GameType::NonTriumph, multiplier: 1 } },
    )
}

#[test]
fn all_raise_from_a_later_dealer() {
    run(
        1,
        Variant::ThreePlayers,
        vec![(1, Bid::Raise), (2, Bid::Raise), (0, Bid::Raise)],
        Outcome::Finished { contract: Contract { dealer: 0, game_type: GameType::NonTriumph, multiplier: 8 } },
    )
}

#[test]
fn asking_about_keeps_the_turn() {
    run(
        0,
        Variant::ThreePlayers,
        vec![(0, Bid::Pass), (1, Bid::Game(GameType::AskingAbout(Suit::Spade)))],
        Outcome::InProgress {
            contract: Contract { game_type: GameType::AskingAbout(Suit::Spade), dealer: 1, multiplier: 1 },
            player: 1,
        },
    )
}

#[test]
fn asking_about_resets_a_raised_multiplier() {
    run(
        0,
        Variant::FourPlayers,
        vec![(0, Bid::Raise), (1, Bid::Game(GameType::AskingAbout(Suit::Heart)))],
        Outcome::InProgress {
            contract: Contract { game_type: GameType::AskingAbout(Suit::Heart), dealer: 1, multiplier: 1 },
            player: 1,
        },
    )
}

#[test]
fn looking_for_the_asked_suit_passes_the_turn() {
    run(
        0,
        Variant::ThreePlayers,
        vec![
            (0, Bid::Game(GameType::AskingAbout(Suit::Club))),
            (0, Bid::Game(GameType::LookingFor(Suit::Club))),
        ],
        Outcome::InProgress {
            contract: Contract { game_type: GameType::LookingFor(Suit::Club), dealer: 0, multiplier: 1 },
            player: 1,
        },
    )
}

#[test]
fn asking_again_passes_the_turn_unchanged() {
    run(
        0,
        Variant::FourPlayers,
        vec![
            (0, Bid::Pass),
            (1, Bid::Game(GameType::AskingAbout(Suit::Diamond))),
            (1, Bid::Game(GameType::AskingAbout(Suit::Diamond))),
        ],
        Outcome::InProgress {
            contract: Contract { game_type: GameType::AskingAbout(Suit::Diamond), dealer: 1, multiplier: 1 },
            player: 2,
        },
    )
}

#[test]
fn shower_after_asking() {
    run(
        0,
        Variant::ThreePlayers,
        vec![(0, Bid::Game(GameType::AskingAbout(Suit::Club))), (0, Bid::Game(GameType::Shower))],
        Outcome::InProgress {
            contract: Contract { game_type: GameType::Shower, dealer: 0, multiplier: 1 },
            player: 1,
        },
    )
}

#[test]
fn looking_for_another_suit_is_refused() {
    run(
        0,
        Variant::ThreePlayers,
        vec![
            (0, Bid::Game(GameType::AskingAbout(Suit::Club))),
            (0, Bid::Game(GameType::LookingFor(Suit::Heart))),
        ],
        Outcome::Error { error: SechsUndSechzigError::InvaildBid },
    )
}

#[test]
fn misery_is_refused_in_the_first_stage() {
    run(0, Variant::ThreePlayers, vec![(0, Bid::Game(GameType::Misery))], Outcome::Error {
        error: SechsUndSechzigError::InvaildBid,
    })
}

#[test]
fn raise_is_refused_in_the_second_stage() {
    run(
        0,
        Variant::ThreePlayers,
        vec![(0, Bid::Game(GameType::AskingAbout(Suit::Club))), (0, Bid::Raise)],
        Outcome::Error { error: SechsUndSechzigError::InvaildBid },
    )
}

#[test]
fn only_the_asking_dealer_answers() {
    let contract = Contract { game_type: GameType::AskingAbout(Suit::Club), dealer: 0, multiplier: 1 };
    let r = bidding(&contract, &Bid::Game(GameType::Shower), 1, &Variant::ThreePlayers, 0);
    assert_eq!(r, Err(SechsUndSechzigError::InvaildBid));
}
