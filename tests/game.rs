use sechsundsechzig::bidding::Bid;
use sechsundsechzig::cards::{Card, Rank, Suit};
use sechsundsechzig::error::SechsUndSechzigError;
use sechsundsechzig::game::{ProgressReport, SechsUndSechzig, SechsUndSechzigState};
use sechsundsechzig::sus_move::SusMove;
use sechsundsechzig::variant::Variant;

fn in_progress(state: &SechsUndSechzigState) -> sechsundsechzig::game::SechsUndSechzigView {
    match state.progress_report() {
        ProgressReport::InProgress(view) => view,
        ProgressReport::Finished(_) => panic!("game should go on"),
    }
}

#[test]
fn a_new_game_is_in_progress() {
    let game = SechsUndSechzig::with_seed(Variant::FourPlayers, 3);
    assert_eq!(4, game.no_of_players());
    let state = game.initial_state();
    let view = in_progress(&state);
    assert!(!view.display_full_hand);
    assert!(view.table.is_none());
    let player = view.current_player();
    let shown = view.player_view(player);
    assert_eq!(4, shown.hand.len());
}

#[test]
fn a_refused_move_is_reported() {
    let state = SechsUndSechzig::with_seed(Variant::ThreePlayers, 11).initial_state();
    let r = state.move_reducer(SusMove::PlayMove(Card { rank: Rank::Ace, suit: Suit::Spade }));
    assert_eq!(SechsUndSechzigError::WrongStage, r.err().unwrap());
}

#[test]
fn a_finished_round_scores_one_point() {
    let mut state = SechsUndSechzig::with_seed(Variant::ThreePlayers, 5).initial_state();
    for _ in 0..3 {
        state = state.move_reducer(SusMove::BiddingMove(Bid::Pass)).unwrap();
    }
    for _ in 0..24 {
        let view = in_progress(&state);
        let player = view.current_player();
        let hand = view.hands.hand(&player).unwrap();
        let legal = view.table.as_ref().unwrap().filter_hand(hand);
        state = state.move_reducer(SusMove::PlayMove(legal[0])).unwrap();
    }
    let view = in_progress(&state);
    let total: i32 = sechsundsechzig::team::Team::teams(Variant::ThreePlayers)
        .iter()
        .map(|t| view.score.get(t).unwrap())
        .sum();
    assert_eq!(1, total);
    assert!(!view.display_full_hand);
    assert_eq!(8, view.hands.hand(&0).unwrap().full().len());
}

#[test]
fn player_view_sorts_the_hand() {
    let state = SechsUndSechzig::with_seed(Variant::ThreePlayers, 9).initial_state();
    let state = state.move_reducer(SusMove::BiddingMove(Bid::Game(sechsundsechzig::contract::GameType::AskingAbout(Suit::Heart)))).unwrap();
    let view = in_progress(&state);
    assert!(view.display_full_hand);
    let player = view.current_player();
    let shown = view.player_view(player);
    assert_eq!(8, shown.hand.len());
    for pair in shown.hand.windows(2) {
        let key = |c: &Card| (c.suit as u8, c.rank.strength());
        assert!(key(&pair[0]) <= key(&pair[1]));
    }
    assert_eq!(0, view.player_view(7).hand.len());
}

#[test]
fn the_same_seed_deals_the_same_cards() {
    for seed in [1u64, 2, 99] {
        let a = in_progress(&SechsUndSechzig::with_seed(Variant::FourPlayers, seed).initial_state());
        let b = in_progress(&SechsUndSechzig::with_seed(Variant::FourPlayers, seed).initial_state());
        assert_eq!(a.current_player(), b.current_player());
        for player in 0..4 {
            assert_eq!(a.hands.hand(&player).unwrap().full(), b.hands.hand(&player).unwrap().full());
        }
    }
}

#[test]
fn a_refused_move_leaves_the_state_usable() {
    let state = SechsUndSechzig::with_seed(Variant::FourPlayers, 4).initial_state();
    let before = in_progress(&state).current_player();
    assert!(state.move_reducer(SusMove::BiddingMove(Bid::Game(sechsundsechzig::contract::GameType::Misery))).is_err());
    let next = state.move_reducer(SusMove::BiddingMove(Bid::Pass)).unwrap();
    assert_eq!((before + 1) % 4, in_progress(&next).current_player());
}

#[test]
fn moves_go_on_after_a_team_has_won() {
    let mut state = SechsUndSechzig::with_seed(Variant::ThreePlayers, 21).initial_state();
    let mut rounds = 0;
    loop {
        if let ProgressReport::Finished(score) = state.progress_report() {
            assert!(score.winner().is_some());
            break;
        }
        for _ in 0..3 {
            state = state.move_reducer(SusMove::BiddingMove(Bid::Pass)).unwrap();
        }
        for _ in 0..24 {
            let view = in_progress(&state);
            let player = view.current_player();
            let legal = view.table.as_ref().unwrap().filter_hand(view.hands.hand(&player).unwrap());
            state = state.move_reducer(SusMove::PlayMove(legal[0])).unwrap();
        }
        rounds += 1;
        assert!(rounds < 400);
    }
    assert!(state.move_reducer(SusMove::BiddingMove(Bid::Pass)).is_ok());
}
