use std::collections::HashSet;

use rand::rngs::StdRng;
use rand::SeedableRng;
use sechsundsechzig::cards::{Card, Rank, Suit};
use sechsundsechzig::error::SechsUndSechzigError;
use sechsundsechzig::hands::{Hand, Hands};
use sechsundsechzig::variant::Variant;

#[test]
fn deals_correctly_for_three_players() {
    let dealt_hands = Hands::deal(&mut StdRng::from_entropy(), &Variant::ThreePlayers);
    for player in 0..=2 {
        let player_hand = dealt_hands.hand(&player).unwrap();
        let all_cards: Vec<_> = player_hand.full().iter().collect();
        assert_eq!(8, all_cards.len());
    }
}

#[test]
fn deals_correctly_for_four_players() {
    let dealt_hands = Hands::deal(&mut StdRng::from_entropy(), &Variant::FourPlayers);
    for player in 0..=3 {
        let player_hand = dealt_hands.hand(&player).unwrap();
        let all_cards: Vec<_> = player_hand.full().iter().collect();
        assert_eq!(6, all_cards.len());
    }
}

#[test]
fn deals_different_cards() {
    let dealt_hands = Hands::deal(&mut StdRng::from_entropy(), &Variant::ThreePlayers);
    let card_sets: Vec<HashSet<_>> = (0..=2)
        .map(|player| {
            let player_hand = dealt_hands.hand(&player).unwrap();
            player_hand.full().iter().copied().collect()
        })
        .collect();
    assert!(card_sets[0].is_disjoint(&card_sets[1]));
    assert!(card_sets[0].is_disjoint(&card_sets[2]));
    assert!(card_sets[1].is_disjoint(&card_sets[2]));
}

#[test]
fn a_seeded_deal_covers_the_deck() {
    for seed in 0..20u64 {
        let hands = Hands::deal(&mut StdRng::seed_from_u64(seed), &Variant::FourPlayers);
        let mut seen: HashSet<Card> = HashSet::new();
        for player in 0..4 {
            for card in hands.hand(&player).unwrap().full() {
                assert!(seen.insert(*card));
            }
        }
        let deck: HashSet<Card> = Card::deck().into_iter().collect();
        assert_eq!(deck, seen);
    }
}

#[test]
fn unshuffled_deal_splits_in_order() {
    let deck = Card::deck();
    let hands = Hands::from_deck(&deck, &Variant::FourPlayers);
    assert_eq!(&deck[6..12].to_vec(), hands.hand(&1).unwrap().full());
    assert_eq!(Err(SechsUndSechzigError::InvaildPlayer), hands.hand(&4).map(|h| h.full().len()));
    assert!(!hands.are_empty());
}

#[test]
fn first_hand_is_four_cards() {
    let deck = Card::deck();
    let hands = Hands::from_deck(&deck, &Variant::ThreePlayers);
    assert_eq!(deck[8..12].to_vec(), hands.hand(&1).unwrap().first());
}

#[test]
fn dealing_a_card_removes_it() {
    let queen = Card { rank: Rank::Queen, suit: Suit::Club };
    let king = Card { rank: Rank::King, suit: Suit::Club };
    let mut hand = Hand::new(vec![queen, king]);
    assert!(hand.can_declare(queen));
    assert!(!hand.can_declare(king));
    assert_eq!(Ok(()), hand.deal(queen));
    assert_eq!(&vec![king], hand.full());
    assert_eq!(Err(SechsUndSechzigError::CardNotInHand), hand.deal(queen));
    assert_eq!(&vec![king], hand.full());
}
