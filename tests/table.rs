use sechsundsechzig::cards::{Card, Rank, Suit};
use sechsundsechzig::contract::{Contract, GameType};
use sechsundsechzig::error::SechsUndSechzigError;
use sechsundsechzig::hands::Hand;
use sechsundsechzig::table::Table;
use sechsundsechzig::variant::Variant;

fn card(rank: Rank, suit: Suit) -> Card {
    Card { rank, suit }
}

fn contract(game_type: GameType) -> Contract {
    Contract { game_type, dealer: 0, multiplier: 1 }
}

#[test]
fn creates_empty_table() {
    let table = Table::empty(Variant::ThreePlayers, contract(GameType::NonTriumph), 0);
    assert_eq!(table.deals(), &vec![])
}

#[test]
fn correctly_calculate_next_player_for_3_players() {
    let card = card(Rank::Ace, Suit::Spade);
    let mut table = Table::empty(Variant::ThreePlayers, contract(GameType::NonTriumph), 0);
    assert_eq!(Some(0), table.current_player());

    table.play_card(card).unwrap();
    assert_eq!(Some(1), table.current_player());

    table.play_card(card).unwrap();
    assert_eq!(Some(2), table.current_player());

    table.play_card(card).unwrap();
    assert_eq!(None, table.current_player());
}

#[test]
fn correctly_calculate_next_player_for_4_players_where_everyone_plays() {
    let card = card(Rank::Ace, Suit::Spade);
    let mut table = Table::empty(Variant::FourPlayers, contract(GameType::NonTriumph), 0);
    assert_eq!(Some(0), table.current_player());

    table.play_card(card).unwrap();
    assert_eq!(Some(1), table.current_player());

    table.play_card(card).unwrap();
    assert_eq!(Some(2), table.current_player());

    table.play_card(card).unwrap();
    assert_eq!(Some(3), table.current_player());

    table.play_card(card).unwrap();
    assert_eq!(None, table.current_player());
}

#[test]
fn correctly_calculate_next_player_for_4_players_where_dealers_teammate_does_not_play() {
    let card = card(Rank::Ace, Suit::Spade);
    let mut table = Table::empty(Variant::FourPlayers, contract(GameType::Misery), 0);
    assert_eq!(Some(0), table.current_player());

    table.play_card(card).unwrap();
    assert_eq!(Some(1), table.current_player());

    table.play_card(card).unwrap();
    assert_eq!(Some(3), table.current_player());

    table.play_card(card).unwrap();
    assert_eq!(None, table.current_player());
}

#[test]
fn full_table_refuses_a_card() {
    let c = card(Rank::Nine, Suit::Club);
    let mut table = Table::empty(Variant::ThreePlayers, contract(GameType::NonTriumph), 1);
    for _ in 0..3 {
        table.play_card(c).unwrap();
    }
    assert_eq!(Err(SechsUndSechzigError::FullTable), table.play_card(c));
    assert_eq!(3, table.deals().len());
    assert_eq!(vec![(1, c), (2, c), (0, c)], *table.deals());
}

#[test]
fn must_follow_and_beat_the_lead() {
    let mut table = Table::empty(Variant::ThreePlayers, contract(GameType::AskingAbout(Suit::Heart)), 0);
    table.play_card(card(Rank::Nine, Suit::Spade)).unwrap();
    let hand = Hand::new(vec![
        card(Rank::Ace, Suit::Spade),
        card(Rank::King, Suit::Heart),
        card(Rank::Jack, Suit::Spade),
        card(Rank::Ten, Suit::Club),
    ]);
    assert_eq!(vec![card(Rank::Ace, Suit::Spade), card(Rank::Jack, Suit::Spade)], table.filter_hand(&hand));
}

#[test]
fn follows_suit_even_when_it_cannot_beat() {
    let mut table = Table::empty(Variant::ThreePlayers, contract(GameType::AskingAbout(Suit::Heart)), 0);
    table.play_card(card(Rank::Ace, Suit::Spade)).unwrap();
    let hand = Hand::new(vec![card(Rank::King, Suit::Heart), card(Rank::Jack, Suit::Spade), card(Rank::Nine, Suit::Spade)]);
    assert_eq!(vec![card(Rank::Jack, Suit::Spade), card(Rank::Nine, Suit::Spade)], table.filter_hand(&hand));
}

#[test]
fn must_trump_without_the_lead_suit() {
    let mut table = Table::empty(Variant::ThreePlayers, contract(GameType::AskingAbout(Suit::Heart)), 0);
    table.play_card(card(Rank::Nine, Suit::Spade)).unwrap();
    let hand = Hand::new(vec![card(Rank::Ten, Suit::Club), card(Rank::King, Suit::Heart)]);
    assert_eq!(vec![card(Rank::King, Suit::Heart)], table.filter_hand(&hand));
}

#[test]
fn any_card_without_lead_suit_or_trump() {
    let mut table = Table::empty(Variant::ThreePlayers, contract(GameType::AskingAbout(Suit::Heart)), 0);
    table.play_card(card(Rank::Nine, Suit::Spade)).unwrap();
    let cards = vec![card(Rank::Ten, Suit::Club), card(Rank::Queen, Suit::Diamond)];
    let hand = Hand::new(cards.clone());
    assert_eq!(cards, table.filter_hand(&hand));
}

#[test]
fn leader_may_play_any_card() {
    let table = Table::empty(Variant::FourPlayers, contract(GameType::NonTriumph), 2);
    let cards = vec![card(Rank::Ten, Suit::Club), card(Rank::Queen, Suit::Diamond)];
    assert_eq!(cards, table.filter_hand(&Hand::new(cards.clone())));
}

#[test]
fn refused_card_changes_nothing() {
    let mut table = Table::empty(Variant::ThreePlayers, contract(GameType::NonTriumph), 0);
    table.play_card(card(Rank::Nine, Suit::Spade)).unwrap();
    let mut hand = Hand::new(vec![card(Rank::Ace, Suit::Spade), card(Rank::Ten, Suit::Club)]);
    assert_eq!(Err(SechsUndSechzigError::CardCannotBePlayed), table.try_play_card(&mut hand, card(Rank::Ten, Suit::Club)));
    assert_eq!(Err(SechsUndSechzigError::CardCannotBePlayed), table.check_card(&hand, &card(Rank::King, Suit::Club)));
    assert_eq!(2, hand.full().len());
    assert_eq!(1, table.deals().len());
    assert_eq!(Ok(()), table.try_play_card(&mut hand, card(Rank::Ace, Suit::Spade)));
    assert_eq!(&vec![card(Rank::Ten, Suit::Club)], hand.full());
    assert_eq!(vec![(0, card(Rank::Nine, Suit::Spade)), (1, card(Rank::Ace, Suit::Spade))], *table.deals());
}

#[test]
fn trump_takes_the_trick() {
    let mut table = Table::empty(Variant::ThreePlayers, contract(GameType::LookingFor(Suit::Heart)), 0);
    table.play_card(card(Rank::Nine, Suit::Spade)).unwrap();
    assert_eq!(None, table.drawer());
    table.play_card(card(Rank::Nine, Suit::Heart)).unwrap();
    table.play_card(card(Rank::Ace, Suit::Spade)).unwrap();
    assert_eq!(Some(1), table.drawer());
    assert_eq!(
        vec![card(Rank::Nine, Suit::Spade), card(Rank::Nine, Suit::Heart), card(Rank::Ace, Suit::Spade)],
        table.cards()
    );
}

#[test]
fn highest_of_lead_suit_takes_the_trick() {
    let mut table = Table::empty(Variant::FourPlayers, contract(GameType::NonTriumph), 1);
    table.play_card(card(Rank::King, Suit::Club)).unwrap();
    table.play_card(card(Rank::Ace, Suit::Diamond)).unwrap();
    table.play_card(card(Rank::Ten, Suit::Club)).unwrap();
    table.play_card(card(Rank::Queen, Suit::Club)).unwrap();
    assert_eq!(Some(3), table.drawer());
}

#[test]
fn highest_trump_beats_lower_trump() {
    let mut table = Table::empty(Variant::ThreePlayers, contract(GameType::AskingAbout(Suit::Diamond)), 2);
    table.play_card(card(Rank::Ace, Suit::Club)).unwrap();
    table.play_card(card(Rank::Jack, Suit::Diamond)).unwrap();
    table.play_card(card(Rank::Ten, Suit::Diamond)).unwrap();
    assert_eq!(Some(1), table.drawer());
}
