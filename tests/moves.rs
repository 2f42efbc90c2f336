use sechsundsechzig::bidding::Bid;
use sechsundsechzig::cards::{Card, Rank, Suit};
use sechsundsechzig::contract::GameType;
use sechsundsechzig::error::SechsUndSechzigError;
use sechsundsechzig::sus_move::SusMove;

fn parse(s: &str) -> Result<SusMove, SechsUndSechzigError> {
    s.parse()
}

#[test]
fn bids_are_read() {
    assert_eq!(Ok(SusMove::BiddingMove(Bid::Pass)), parse("pass"));
    assert_eq!(Ok(SusMove::BiddingMove(Bid::Pass)), parse("P"));
    assert_eq!(Ok(SusMove::BiddingMove(Bid::Raise)), parse("Raise"));
    assert_eq!(Ok(SusMove::BiddingMove(Bid::Game(GameType::Misery))), parse("m"));
    assert_eq!(Ok(SusMove::BiddingMove(Bid::Game(GameType::Shower))), parse("shower"));
    assert_eq!(Ok(SusMove::BiddingMove(Bid::Game(GameType::AskingAbout(Suit::Club)))), parse("ask-about clubs"));
    assert_eq!(Ok(SusMove::BiddingMove(Bid::Game(GameType::AskingAbout(Suit::Heart)))), parse("? h"));
    assert_eq!(Ok(SusMove::BiddingMove(Bid::Game(GameType::LookingFor(Suit::Spade)))), parse("look-for ♠"));
}

#[test]
fn other_text_is_a_card() {
    assert_eq!(Ok(SusMove::PlayMove(Card { rank: Rank::King, suit: Suit::Diamond })), parse("k d"));
    assert_eq!(Ok(SusMove::PlayMove(Card { rank: Rank::Jack, suit: Suit::Spade })), parse("j s"));
    assert_eq!(Err(SechsUndSechzigError::RankParseError), parse("pass now"));
    assert_eq!(Err(SechsUndSechzigError::InvaildPlayer), parse("pass it on"));
    assert_eq!(Err(SechsUndSechzigError::SuitParseError), parse("as nothing"));
    assert_eq!(Err(SechsUndSechzigError::InvaildPlayer), parse(""));
}
