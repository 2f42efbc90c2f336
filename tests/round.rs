use rand::SeedableRng;
use sechsundsechzig::bidding::Bid;
use sechsundsechzig::cards::{Card, Rank, Suit};
use sechsundsechzig::contract::{Contract, GameType, Party};
use sechsundsechzig::error::SechsUndSechzigError;
use sechsundsechzig::hands::Hands;
use sechsundsechzig::round::{Round, RoundResult};
use sechsundsechzig::stash::{Stash, Stashes};
use sechsundsechzig::sus_move::SusMove;
use sechsundsechzig::variant::Variant;

fn unshuffled_round(variant: Variant, dealer: u32) -> Round {
    Round::dealt(&variant, dealer, Hands::from_deck(&Card::deck(), &variant))
}

fn card(rank: Rank, suit: Suit) -> Card {
    Card { rank, suit }
}

#[test]
fn all_pass_starts_play_with_the_dealer() {
    let mut round = unshuffled_round(Variant::ThreePlayers, 1);
    assert!(!round.display_full_hand());
    assert!(round.get_table().is_none());
    for _ in 0..3 {
        assert_eq!(Ok(RoundResult::Contiune), round.handle_move(SusMove::BiddingMove(Bid::Pass)));
    }
    assert_eq!(&Contract { game_type: GameType::NonTriumph, dealer: 1, multiplier: 1 }, round.contract());
    assert!(round.display_full_hand());
    assert_eq!(1, round.current_player());
    assert_eq!(0, round.get_table().unwrap().deals().len());
}

#[test]
fn a_card_while_bidding_is_in_the_wrong_stage() {
    let mut round = unshuffled_round(Variant::FourPlayers, 0);
    let r = round.handle_move(SusMove::PlayMove(card(Rank::Nine, Suit::Spade)));
    assert_eq!(Err(SechsUndSechzigError::WrongStage), r);
    assert_eq!(0, round.current_player());
}

#[test]
fn a_bid_during_play_is_in_the_wrong_stage() {
    let mut round = unshuffled_round(Variant::ThreePlayers, 0);
    for _ in 0..3 {
        round.handle_move(SusMove::BiddingMove(Bid::Pass)).unwrap();
    }
    assert_eq!(Err(SechsUndSechzigError::WrongStage), round.handle_move(SusMove::BiddingMove(Bid::Raise)));
}

#[test]
fn an_invalid_bid_changes_nothing() {
    let mut round = unshuffled_round(Variant::ThreePlayers, 0);
    let r = round.handle_move(SusMove::BiddingMove(Bid::Game(GameType::Shower)));
    assert_eq!(Err(SechsUndSechzigError::InvaildBid), r);
    assert_eq!(0, round.current_player());
    assert_eq!(&Contract::initial(0), round.contract());
}

#[test]
fn asking_about_shows_the_full_hand() {
    let mut round = unshuffled_round(Variant::ThreePlayers, 0);
    round.handle_move(SusMove::BiddingMove(Bid::Game(GameType::AskingAbout(Suit::Club)))).unwrap();
    assert!(round.display_full_hand());
    assert_eq!(0, round.current_player());
}

#[test]
fn an_illegal_card_is_refused() {
    let mut round = unshuffled_round(Variant::ThreePlayers, 0);
    for _ in 0..3 {
        round.handle_move(SusMove::BiddingMove(Bid::Pass)).unwrap();
    }
    round.handle_move(SusMove::PlayMove(card(Rank::Nine, Suit::Spade))).unwrap();
    // seat 1 holds the Queen and King of spades and must play one of them
    let r = round.handle_move(SusMove::PlayMove(card(Rank::Queen, Suit::Club)));
    assert_eq!(Err(SechsUndSechzigError::CardCannotBePlayed), r);
    let r = round.handle_move(SusMove::PlayMove(card(Rank::Ace, Suit::Heart)));
    assert_eq!(Err(SechsUndSechzigError::CardCannotBePlayed), r);
    assert_eq!(1, round.current_player());
    assert_eq!(8, round.hands().hand(&1).unwrap().full().len());
    assert_eq!(Ok(RoundResult::Contiune), round.handle_move(SusMove::PlayMove(card(Rank::King, Suit::Spade))));
    assert_eq!(7, round.hands().hand(&1).unwrap().full().len());
}

fn play_out(round: &mut Round) -> (usize, RoundResult) {
    let mut plays = 0;
    loop {
        let player = round.current_player();
        let table = round.get_table().unwrap();
        let legal = table.filter_hand(round.hands().hand(&player).unwrap());
        let r = round.handle_move(SusMove::PlayMove(legal[0])).unwrap();
        plays += 1;
        if r != RoundResult::Contiune {
            return (plays, r);
        }
    }
}

#[test]
fn non_triumph_round_goes_to_the_seat_with_fewest_points() {
    // seat 2 holds every Ten and Ace and takes every trick; seats 0 and 1
    // both end with no points, and the first of them is named
    let mut round = unshuffled_round(Variant::ThreePlayers, 0);
    for _ in 0..3 {
        round.handle_move(SusMove::BiddingMove(Bid::Pass)).unwrap();
    }
    let (plays, result) = play_out(&mut round);
    assert_eq!(24, plays);
    assert_eq!(RoundResult::Finished(vec![0], 1, 0), result);
    assert!(round.hands().are_empty());
}

#[test]
fn raised_four_seat_round_names_the_raising_dealers() {
    let mut round = unshuffled_round(Variant::FourPlayers, 0);
    round.handle_move(SusMove::BiddingMove(Bid::Pass)).unwrap();
    round.handle_move(SusMove::BiddingMove(Bid::Raise)).unwrap();
    round.handle_move(SusMove::BiddingMove(Bid::Pass)).unwrap();
    round.handle_move(SusMove::BiddingMove(Bid::Pass)).unwrap();
    assert_eq!(&Contract { game_type: GameType::NonTriumph, dealer: 1, multiplier: 2 }, round.contract());
    let (plays, result) = play_out(&mut round);
    assert_eq!(24, plays);
    match result {
        RoundResult::Finished(players, points, dealer) => {
            assert_eq!(1, points);
            assert_eq!(1, dealer);
            assert!(players == vec![1, 3] || players == vec![2, 0]);
        }
        RoundResult::Contiune => panic!("round should be over"),
    }
}

fn stashes_with(dealers: &[Card], non_dealers: &[Card]) -> Stashes {
    let mut stashes = Stashes::empty(&vec![Party::Dealers, Party::NonDealers]);
    stashes.award(&Party::Dealers, &dealers.to_vec(), None).unwrap();
    stashes.award(&Party::NonDealers, &non_dealers.to_vec(), None).unwrap();
    stashes
}

#[test]
fn asking_about_win_by_opponents_points() {
    let contract = Contract { game_type: GameType::AskingAbout(Suit::Heart), dealer: 0, multiplier: 1 };
    let aces: Vec<Card> = [Suit::Spade, Suit::Club, Suit::Diamond, Suit::Heart].iter().map(|s| card(Rank::Ace, *s)).collect();
    let tens: Vec<Card> = [Suit::Spade, Suit::Club, Suit::Diamond].iter().map(|s| card(Rank::Ten, *s)).collect();
    let mut big = aces.clone();
    big.extend(tens.clone());
    // 44 + 30 = 74 points against nothing: three points
    let stashes = stashes_with(&big, &[]);
    assert_eq!(Some((Party::Dealers, 3)), Round::immediate_winner(&stashes, 0, &contract));
    // against 10 points: two
    let stashes = stashes_with(&big, &[card(Rank::Ten, Suit::Heart)]);
    assert_eq!(Some((Party::Dealers, 2)), Round::immediate_winner(&stashes, 0, &contract));
    // against 33 points: one
    let stashes = stashes_with(&big, &[card(Rank::Ten, Suit::Heart), card(Rank::King, Suit::Heart), card(Rank::Ace, Suit::Heart), card(Rank::Jack, Suit::Heart), card(Rank::Queen, Suit::Heart), card(Rank::Queen, Suit::Club)]);
    assert_eq!(Some((Party::Dealers, 1)), Round::immediate_winner(&stashes, 0, &contract));
    // below 66 nobody wins yet
    let stashes = stashes_with(&aces, &tens);
    assert_eq!(None, Round::immediate_winner(&stashes, 0, &contract));
}

#[test]
fn looking_for_lost_by_a_trick_to_the_non_dealers() {
    let contract = Contract { game_type: GameType::LookingFor(Suit::Club), dealer: 2, multiplier: 1 };
    let stashes = stashes_with(&[], &[]);
    assert_eq!(Some((Party::NonDealers, 5)), Round::immediate_winner(&stashes, 1, &contract));
    assert_eq!(None, Round::immediate_winner(&stashes, 2, &contract));
    assert_eq!((Party::Dealers, 5), Round::winner(&stashes, 2, &contract, Variant::ThreePlayers));
}

#[test]
fn misery_and_shower_end_on_the_first_points() {
    let misery = Contract { game_type: GameType::Misery, dealer: 0, multiplier: 1 };
    let shower = Contract { game_type: GameType::Shower, dealer: 0, multiplier: 1 };
    let nothing = stashes_with(&[], &[]);
    let jack = [card(Rank::Jack, Suit::Club)];
    assert_eq!(None, Round::immediate_winner(&nothing, 0, &misery));
    assert_eq!(Some((Party::NonDealers, 7)), Round::immediate_winner(&stashes_with(&jack, &[]), 0, &misery));
    assert_eq!(None, Round::immediate_winner(&stashes_with(&jack, &[]), 0, &shower));
    assert_eq!(Some((Party::NonDealers, 10)), Round::immediate_winner(&stashes_with(&[], &jack), 1, &shower));
    assert_eq!((Party::Dealers, 7), Round::winner(&nothing, 0, &misery, Variant::FourPlayers));
    assert_eq!((Party::Dealers, 10), Round::winner(&nothing, 0, &shower, Variant::FourPlayers));
}

#[test]
fn asking_about_at_the_end_goes_to_the_last_taker() {
    let contract = Contract { game_type: GameType::AskingAbout(Suit::Club), dealer: 0, multiplier: 1 };
    let nothing = stashes_with(&[], &[]);
    assert_eq!((Party::NonDealers, 1), Round::winner(&nothing, 1, &contract, Variant::FourPlayers));
    assert_eq!((Party::Dealers, 1), Round::winner(&nothing, 2, &contract, Variant::FourPlayers));
}

#[test]
fn non_triumph_at_the_end_goes_to_the_fewest_points() {
    let contract = Contract::initial(0);
    let mut stashes = Stashes::empty(&vec![Party::SinglePlayer(0), Party::SinglePlayer(1), Party::SinglePlayer(2)]);
    stashes.award(&Party::SinglePlayer(0), &vec![card(Rank::Ace, Suit::Club)], None).unwrap();
    stashes.award(&Party::SinglePlayer(2), &vec![card(Rank::Jack, Suit::Club)], None).unwrap();
    assert_eq!((Party::SinglePlayer(1), 1), Round::winner(&stashes, 0, &contract, Variant::ThreePlayers));
}

#[test]
fn stash_points_count_cards_and_declarations() {
    let mut stash = Stash::empty();
    assert_eq!(0, stash.points(Some(Suit::Heart)));
    stash.add_cards(&vec![card(Rank::Ace, Suit::Club), card(Rank::King, Suit::Heart)]);
    stash.declare(Suit::Heart);
    stash.declare(Suit::Club);
    assert_eq!(15 + 40 + 20, stash.points(Some(Suit::Heart)));
    assert_eq!(15 + 20 + 20, stash.points(None));
}

#[test]
fn unknown_party_stash_is_refused() {
    let mut stashes = Stashes::empty(&vec![Party::Dealers, Party::NonDealers]);
    assert!(stashes.stash(&Party::SinglePlayer(0)).is_err());
    assert_eq!(Err(SechsUndSechzigError::InvaildParty), stashes.award(&Party::SinglePlayer(0), &vec![], None));
    stashes.stash_mut(&Party::NonDealers).unwrap().declare(Suit::Spade);
    assert_eq!(20, stashes.stash(&Party::NonDealers).unwrap().points(None));
    assert_eq!(vec![(Party::Dealers, 0), (Party::NonDealers, 20)], stashes.points(None));
}

#[test]
fn first_round_dealer_is_a_seat() {
    for seed in 0..30u64 {
        let mut rng = rand::rngs::StdRng::seed_from_u64(seed);
        let round = Round::first(&mut rng, &Variant::FourPlayers);
        assert!(round.current_player() < 4);
        assert_eq!(round.current_player(), round.contract().dealer);
    }
}
