use vstd::prelude::*;

use crate::bidding::Bid;
use crate::cards::{parse_card, parse_suit, Card, Suit};
use crate::contract::GameType;
use crate::error::{SechsUndSechzigError, SusResult};
use crate::text::{
    after_first_word, ascii_lower, ascii_lowercase, chars_of, first_word, same_text,
    split_first_word,
};

verus! {

/// A move of the seat to act: a bid while bidding, a card during trick play.
#[derive(Debug, Clone, Copy, PartialEq, Eq, Structural)]
pub enum SusMove {
    BiddingMove(Bid),
    PlayMove(Card),
}

/// A bid on a game with a trump suit read from text.
pub open spec fn suit_bid(text: Seq<char>, game: spec_fn(Suit) -> GameType) -> SusResult<SusMove> {
    match parse_suit(text) {
        Ok(t) => Ok(SusMove::BiddingMove(Bid::Game(game(t)))),
        Err(e) => Err(e),
    }
}

/// A move read from text: a bid word (`pass`, `raise`, `ask-about <suit>`,
/// `look-for <suit>`, `misery`, `shower`, or their short forms), else a card.
pub open spec fn parse_move(s: Seq<char>) -> SusResult<SusMove> {
    move_with_head(ascii_lower(first_word(s)), s)
}

/// The move that text `s` names, given its first word in lower case as `head`.
pub open spec fn move_with_head(head: Seq<char>, s: Seq<char>) -> SusResult<SusMove> {
    let other = after_first_word(s);
    if (head == "pass"@ || head == "p"@) && other is None {
        Ok(SusMove::BiddingMove(Bid::Pass))
    } else if (head == "raise"@ || head == "r"@) && other is None {
        Ok(SusMove::BiddingMove(Bid::Raise))
    } else if (head == "ask-about"@ || head == "as"@ || head == "?"@) && other is Some {
        suit_bid(other->0, |t: Suit| GameType::AskingAbout(t))
    } else if (head == "look-for"@ || head == "l"@) && other is Some {
        suit_bid(other->0, |t: Suit| GameType::LookingFor(t))
    } else if (head == "misery"@ || head == "m"@) && other is None {
        Ok(SusMove::BiddingMove(Bid::Game(GameType::Misery)))
    } else if (head == "shower"@ || head == "s"@) && other is None {
        Ok(SusMove::BiddingMove(Bid::Game(GameType::Shower)))
    } else {
        match parse_card(s) {
            Ok(c) => Ok(SusMove::PlayMove(c)),
            Err(e) => Err(e),
        }
    }
}

impl SusMove {
    /// A move read from text.
    pub fn parse(s: &Vec<char>) -> (r: SusResult<SusMove>)
        ensures
            r == parse_move(s@),
    {
        let (word, _) = split_first_word(s);
        SusMove::with_head(&ascii_lowercase(&word), s)
    }

    /// The move that text `s` names, given its first word in lower case as `head`.
    fn with_head(head: &Vec<char>, s: &Vec<char>) -> (r: SusResult<SusMove>)
        ensures
            r == move_with_head(head@, s@),
    {
        let (_, other) = split_first_word(s);
        let alone = other.is_none();
        if (same_text(head, "pass") || same_text(head, "p")) && alone {
            Ok(SusMove::BiddingMove(Bid::Pass))
        } else if (same_text(head, "raise") || same_text(head, "r")) && alone {
            Ok(SusMove::BiddingMove(Bid::Raise))
        } else if (same_text(head, "ask-about") || same_text(head, "as") || same_text(head, "?"))
            && !alone {
            let text = other.unwrap();
            match Suit::parse(&text) {
                Ok(t) => Ok(SusMove::BiddingMove(Bid::Game(GameType::AskingAbout(t)))),
                Err(e) => Err(e),
            }
        } else if (same_text(head, "look-for") || same_text(head, "l")) && !alone {
            let text = other.unwrap();
            match Suit::parse(&text) {
                Ok(t) => Ok(SusMove::BiddingMove(Bid::Game(GameType::LookingFor(t)))),
                Err(e) => Err(e),
            }
        } else if (same_text(head, "misery") || same_text(head, "m")) && alone {
            Ok(SusMove::BiddingMove(Bid::Game(GameType::Misery)))
        } else if (same_text(head, "shower") || same_text(head, "s")) && alone {
            Ok(SusMove::BiddingMove(Bid::Game(GameType::Shower)))
        } else {
            match Card::parse(s) {
                Ok(c) => Ok(SusMove::PlayMove(c)),
                Err(e) => Err(e),
            }
        }
    }
}

impl std::str::FromStr for SusMove {
    type Err = SechsUndSechzigError;

    fn from_str(s: &str) -> Result<SusMove, SechsUndSechzigError> {
        SusMove::parse(&chars_of(s))
    }
}

} // verus!
