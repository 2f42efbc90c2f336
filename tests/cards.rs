use rand::rngs::StdRng;
use rand::SeedableRng;
use sechsundsechzig::cards::{Card, Rank, Suit};
use sechsundsechzig::error::SechsUndSechzigError;

const ACE_OF_SPADES: Card = Card { rank: Rank::Ace, suit: Suit::Spade };

#[test]
fn deck_has_correct_number_of_items() {
    let deck: Vec<_> = Card::deck();
    assert_eq!(24, deck.len())
}

#[test]
fn ace_of_spades_symbol_is_correct() {
    assert_eq!("[A ♠]", ACE_OF_SPADES.to_string())
}

#[test]
fn ten_of_hearts_symbol_is_correct() {
    assert_eq!("[10 ♥]", Card { rank: Rank::Ten, suit: Suit::Heart }.to_string())
}

#[test]
fn ace_of_spades_is_worth_11_points() {
    assert_eq!(11, ACE_OF_SPADES.points())
}

#[test]
fn whole_deck_is_worth_120_points() {
    assert_eq!(120, Card::deck().iter().map(|c| c.points()).sum::<i32>())
}

#[test]
fn deck_cards_are_distinct() {
    let deck = Card::deck();
    for i in 0..deck.len() {
        for j in 0..deck.len() {
            if i != j {
                assert_ne!(deck[i], deck[j]);
            }
        }
    }
    assert_eq!(Card { rank: Rank::Nine, suit: Suit::Spade }, deck[0]);
    assert_eq!(Card { rank: Rank::Ace, suit: Suit::Heart }, deck[23]);
}

#[test]
fn shuffled_deck_holds_the_same_cards() {
    let mut shuffled = Card::shuffled_deck(&mut StdRng::seed_from_u64(7));
    let deck = Card::deck();
    assert_eq!(24, shuffled.len());
    for card in &deck {
        let position = shuffled.iter().position(|c| c == card).unwrap();
        shuffled.remove(position);
    }
    assert!(shuffled.is_empty());
}

#[test]
fn ranks_are_ordered_by_strength() {
    let strengths: Vec<u8> = Rank::ranks().iter().map(|r| r.strength()).collect();
    assert_eq!(vec![0, 1, 2, 3, 4, 5], strengths);
    assert!(Rank::Ten.strength() > Rank::King.strength());
}

#[test]
fn ace_of_spades_parsed_correctly() {
    assert_eq!(ACE_OF_SPADES, "a s".parse().unwrap());
    assert_eq!(ACE_OF_SPADES, "A spade".parse().unwrap());
    assert_eq!(ACE_OF_SPADES, "aCe sPaDeS".parse().unwrap());
}

#[test]
fn card_text_errors() {
    assert_eq!(Err(SechsUndSechzigError::InvaildPlayer), "ace".parse::<Card>());
    assert_eq!(Err(SechsUndSechzigError::InvaildPlayer), "a s x".parse::<Card>());
    assert_eq!(Err(SechsUndSechzigError::RankParseError), "x s".parse::<Card>());
    assert_eq!(Err(SechsUndSechzigError::SuitParseError), "10 x".parse::<Card>());
    assert_eq!(Ok(Card { rank: Rank::Ten, suit: Suit::Heart }), "1 ♥".parse::<Card>());
    assert_eq!(Ok(Suit::Diamond), "Diamonds".parse::<Suit>());
    assert_eq!(Ok(Rank::Queen), "QUEEN".parse::<Rank>());
}

#[test]
fn shuffling_changes_the_order() {
    let deck = Card::deck();
    let moved = (0..5u64).filter(|seed| Card::shuffled_deck(&mut StdRng::seed_from_u64(*seed)) != deck).count();
    assert!(moved > 0);
}
