use vstd::prelude::*;

use rand::rngs::StdRng;

use crate::random::shuffle_cards;
use crate::error::{SechsUndSechzigError, SusResult};
use crate::text::{
    after_first_word, chars_of, first_space, first_word, lower_of, lowercase, push_text, same_text,
    split_first_word,
};

verus! {

/// Rank of a card, in increasing order of strength.
#[derive(Debug, PartialEq, Eq, PartialOrd, Ord, Clone, Copy, Hash, Structural)]
pub enum Rank {
    Nine,
    Jack,
    Queen,
    King,
    Ten,
    Ace,
}

#[derive(Debug, PartialEq, Eq, Clone, Copy, Hash, Structural)]
pub enum Suit {
    Spade,
    Club,
    Diamond,
    Heart,
}

#[derive(Debug, PartialEq, Eq, Clone, Copy, Hash, Structural)]
pub struct Card {
    pub rank: Rank,
    pub suit: Suit,
}

/// Position of a rank in the order Nine < Jack < Queen < King < Ten < Ace.
pub open spec fn rank_order(r: Rank) -> int {
    match r {
        Rank::Nine => 0,
        Rank::Jack => 1,
        Rank::Queen => 2,
        Rank::King => 3,
        Rank::Ten => 4,
        Rank::Ace => 5,
    }
}

/// The rank at position `i` of the rank order.
pub open spec fn rank_at(i: int) -> Rank {
    if i <= 0 {
        Rank::Nine
    } else if i == 1 {
        Rank::Jack
    } else if i == 2 {
        Rank::Queen
    } else if i == 3 {
        Rank::King
    } else if i == 4 {
        Rank::Ten
    } else {
        Rank::Ace
    }
}

/// Position of a suit in the order in which the deck lists suits.
pub open spec fn suit_order(s: Suit) -> int {
    match s {
        Suit::Spade => 0,
        Suit::Club => 1,
        Suit::Diamond => 2,
        Suit::Heart => 3,
    }
}

pub open spec fn suit_at(i: int) -> Suit {
    if i <= 0 {
        Suit::Spade
    } else if i == 1 {
        Suit::Club
    } else if i == 2 {
        Suit::Diamond
    } else {
        Suit::Heart
    }
}

/// Point value of a rank.
pub open spec fn rank_points(r: Rank) -> int {
    match r {
        Rank::Nine => 0,
        Rank::Jack => 2,
        Rank::Queen => 3,
        Rank::King => 4,
        Rank::Ten => 10,
        Rank::Ace => 11,
    }
}

/// The unshuffled deck: for each rank in increasing order, one card of each suit.
pub open spec fn deck_spec() -> Seq<Card> {
    Seq::new(24, |i: int| Card { rank: rank_at(i / 4), suit: suit_at(i % 4) })
}

/// Total point value of a sequence of cards.
pub open spec fn cards_points(cards: Seq<Card>) -> int
    decreases cards.len(),
{
    if cards.len() == 0 {
        0
    } else {
        cards_points(cards.drop_last()) + rank_points(cards.last().rank)
    }
}

/// How a rank is shown.
pub open spec fn rank_text(r: Rank) -> Seq<char> {
    match r {
        Rank::Nine => "9"@,
        Rank::Jack => "J"@,
        Rank::Queen => "Q"@,
        Rank::King => "K"@,
        Rank::Ten => "10"@,
        Rank::Ace => "A"@,
    }
}

/// How a suit is shown.
pub open spec fn suit_text(s: Suit) -> Seq<char> {
    match s {
        Suit::Spade => "♠"@,
        Suit::Club => "♣"@,
        Suit::Heart => "♥"@,
        Suit::Diamond => "♦"@,
    }
}

/// How a card is shown: `[<rank> <suit>]`.
pub open spec fn card_text(c: Card) -> Seq<char> {
    "["@ + rank_text(c.rank) + " "@ + suit_text(c.suit) + "]"@
}

impl Rank {
    /// How the rank is shown.
    pub fn symbol(&self) -> (r: &'static str)
        ensures
            r@ == rank_text(*self),
    {
        match self {
            Rank::Nine => "9",
            Rank::Jack => "J",
            Rank::Queen => "Q",
            Rank::King => "K",
            Rank::Ten => "10",
            Rank::Ace => "A",
        }
    }

    /// Position of the rank in the order of strength.
    pub fn strength(&self) -> (r: u8)
        ensures
            r as int == rank_order(*self),
    {
        match self {
            Rank::Nine => 0,
            Rank::Jack => 1,
            Rank::Queen => 2,
            Rank::King => 3,
            Rank::Ten => 4,
            Rank::Ace => 5,
        }
    }

    /// The ranks in increasing order.
    pub fn ranks() -> (r: Vec<Rank>)
        ensures
            r@ == Seq::new(6, |i: int| rank_at(i)),
    {
        let r = vec![Rank::Nine, Rank::Jack, Rank::Queen, Rank::King, Rank::Ten, Rank::Ace];
        assert(r@ =~= Seq::new(6, |i: int| rank_at(i)));
        r
    }
}

impl Suit {
    /// How the suit is shown.
    pub fn symbol(&self) -> (r: &'static str)
        ensures
            r@ == suit_text(*self),
    {
        match self {
            Suit::Spade => "♠",
            Suit::Club => "♣",
            Suit::Heart => "♥",
            Suit::Diamond => "♦",
        }
    }

    /// The suits in the order in which the deck lists them.
    pub fn suits() -> (r: Vec<Suit>)
        ensures
            r@ == Seq::new(4, |i: int| suit_at(i)),
    {
        let r = vec![Suit::Spade, Suit::Club, Suit::Diamond, Suit::Heart];
        assert(r@ =~= Seq::new(4, |i: int| suit_at(i)));
        r
    }
}

impl Card {
    pub open spec fn spec_points(self) -> int {
        rank_points(self.rank)
    }

    /// The 24 cards of the deck, unshuffled.
    pub fn deck() -> (r: Vec<Card>)
        ensures
            r@ == deck_spec(),
    {
        let ranks = Rank::ranks();
        let suits = Suit::suits();
        let mut deck: Vec<Card> = Vec::new();
        let mut i: usize = 0;
        while i < 6
            invariant
                i <= 6,
                ranks@ == Seq::new(6, |k: int| rank_at(k)),
                suits@ == Seq::new(4, |k: int| suit_at(k)),
                deck@ =~= deck_spec().take(4 * i as int),
            decreases 6 - i,
        {
            let mut j: usize = 0;
            while j < 4
                invariant
                    i < 6,
                    j <= 4,
                    ranks@ == Seq::new(6, |k: int| rank_at(k)),
                    suits@ == Seq::new(4, |k: int| suit_at(k)),
                    deck@ =~= deck_spec().take(4 * i + j),
                decreases 4 - j,
            {
                deck.push(Card { rank: ranks[i], suit: suits[j] });
                proof {
                    let k = 4 * i + j;
                    assert(k / 4 == i && k % 4 == j) by (nonlinear_arith)
                        requires
                            k == 4 * i + j,
                            j < 4,
                    ;
                    assert(deck@ =~= deck_spec().take(k + 1));
                }
                j += 1;
            }
            i += 1;
        }
        deck
    }

    /// How the card is shown: `[<rank> <suit>]`.
    pub fn to_string(&self) -> (r: String)
        ensures
            r@ == card_text(*self),
    {
        let mut s = String::new();
        push_text(&mut s, "[");
        push_text(&mut s, self.rank.symbol());
        push_text(&mut s, " ");
        push_text(&mut s, self.suit.symbol());
        push_text(&mut s, "]");
        assert(s@ =~= card_text(*self));
        s
    }

    /// The deck in an order drawn from `rng`.
    pub fn shuffled_deck(rng: &mut StdRng) -> (r: Vec<Card>)
        ensures
            r@.to_multiset() == deck_spec().to_multiset(),
    {
        let mut deck = Card::deck();
        shuffle_cards(&mut deck, rng);
        deck
    }

    pub fn points(&self) -> (r: i32)
        ensures
            r as int == self.spec_points(),
    {
        match self.rank {
            Rank::Nine => 0,
            Rank::Jack => 2,
            Rank::Queen => 3,
            Rank::King => 4,
            Rank::Ten => 10,
            Rank::Ace => 11,
        }
    }
}

/// The deck holds 24 distinct cards, worth 120 points together.
pub proof fn lemma_deck()
    ensures
        deck_spec().len() == 24,
        deck_spec().no_duplicates(),
        cards_points(deck_spec()) == 120,
{
    let d = deck_spec();
    assert forall|i: int, j: int| 0 <= i < d.len() && 0 <= j < d.len() && i != j implies d[i]
        != d[j] by {
        assert(rank_order(rank_at(i / 4)) == i / 4);
        assert(rank_order(rank_at(j / 4)) == j / 4);
        assert(suit_order(suit_at(i % 4)) == i % 4);
        assert(suit_order(suit_at(j % 4)) == j % 4);
    }
    lemma_cards_points_of_deck(24);
    assert(d.take(24) =~= d);
}

/// Points of the first `n` cards of the deck.
proof fn lemma_cards_points_of_deck(n: int)
    requires
        0 <= n <= 24,
    ensures
        cards_points(deck_spec().take(n)) == if n < 4 {
            0
        } else if n < 8 {
            2 * (n - 4)
        } else if n < 12 {
            8 + 3 * (n - 8)
        } else if n < 16 {
            20 + 4 * (n - 12)
        } else if n < 20 {
            36 + 10 * (n - 16)
        } else {
            76 + 11 * (n - 20)
        },
    decreases n,
{
    if n > 0 {
        lemma_cards_points_of_deck(n - 1);
        assert(deck_spec().take(n).drop_last() =~= deck_spec().take(n - 1));
    }
}

/// The rank that a lower-case word names.
pub open spec fn rank_word(w: Seq<char>) -> Option<Rank> {
    if w == "9"@ {
        Some(Rank::Nine)
    } else if w == "1"@ || w == "10"@ {
        Some(Rank::Ten)
    } else if w == "j"@ || w == "jack"@ {
        Some(Rank::Jack)
    } else if w == "q"@ || w == "queen"@ {
        Some(Rank::Queen)
    } else if w == "k"@ || w == "king"@ {
        Some(Rank::King)
    } else if w == "a"@ || w == "ace"@ {
        Some(Rank::Ace)
    } else {
        None
    }
}

/// The suit that a lower-case word names.
pub open spec fn suit_word(w: Seq<char>) -> Option<Suit> {
    if w == "♠"@ || w == "spade"@ || w == "spades"@ || w == "s"@ {
        Some(Suit::Spade)
    } else if w == "♣"@ || w == "club"@ || w == "clubs"@ || w == "c"@ {
        Some(Suit::Club)
    } else if w == "♥"@ || w == "heart"@ || w == "hearts"@ || w == "h"@ {
        Some(Suit::Heart)
    } else if w == "♦"@ || w == "diamond"@ || w == "diamonds"@ || w == "d"@ {
        Some(Suit::Diamond)
    } else {
        None
    }
}

/// A rank read from text, in any case.
pub open spec fn parse_rank(s: Seq<char>) -> SusResult<Rank> {
    match rank_word(lower_of(s)) {
        Some(r) => Ok(r),
        None => Err(SechsUndSechzigError::RankParseError),
    }
}

/// A suit read from text, in any case.
pub open spec fn parse_suit(s: Seq<char>) -> SusResult<Suit> {
    match suit_word(lower_of(s)) {
        Some(t) => Ok(t),
        None => Err(SechsUndSechzigError::SuitParseError),
    }
}

/// A card read from text: a rank and a suit separated by one space.
pub open spec fn parse_card(s: Seq<char>) -> SusResult<Card> {
    match after_first_word(s) {
        Some(rest) if first_space(rest) == rest.len() => match parse_rank(first_word(s)) {
            Err(e) => Err(e),
            Ok(rank) => match parse_suit(rest) {
                Err(e) => Err(e),
                Ok(suit) => Ok(Card { rank, suit }),
            },
        },
        _ => Err(SechsUndSechzigError::InvaildPlayer),
    }
}

impl Rank {
    /// The rank that a lower-case word names.
    pub fn from_lowercase(w: &Vec<char>) -> (r: SusResult<Rank>)
        ensures
            r == match rank_word(w@) {
                Some(k) => Ok(k),
                None => Err::<Rank, SechsUndSechzigError>(SechsUndSechzigError::RankParseError),
            },
    {
        if same_text(w, "9") {
            Ok(Rank::Nine)
        } else if same_text(w, "1") || same_text(w, "10") {
            Ok(Rank::Ten)
        } else if same_text(w, "j") || same_text(w, "jack") {
            Ok(Rank::Jack)
        } else if same_text(w, "q") || same_text(w, "queen") {
            Ok(Rank::Queen)
        } else if same_text(w, "k") || same_text(w, "king") {
            Ok(Rank::King)
        } else if same_text(w, "a") || same_text(w, "ace") {
            Ok(Rank::Ace)
        } else {
            Err(SechsUndSechzigError::RankParseError)
        }
    }

    /// A rank read from text, in any case.
    pub fn parse(s: &Vec<char>) -> (r: SusResult<Rank>)
        ensures
            r == parse_rank(s@),
    {
        Rank::from_lowercase(&lowercase(s))
    }
}

impl Suit {
    /// The suit that a lower-case word names.
    pub fn from_lowercase(w: &Vec<char>) -> (r: SusResult<Suit>)
        ensures
            r == match suit_word(w@) {
                Some(t) => Ok(t),
                None => Err::<Suit, SechsUndSechzigError>(SechsUndSechzigError::SuitParseError),
            },
    {
        if same_text(w, "♠") || same_text(w, "spade") || same_text(w, "spades") || same_text(w, "s") {
            Ok(Suit::Spade)
        } else if same_text(w, "♣") || same_text(w, "club") || same_text(w, "clubs") || same_text(w, "c") {
            Ok(Suit::Club)
        } else if same_text(w, "♥") || same_text(w, "heart") || same_text(w, "hearts") || same_text(w, "h") {
            Ok(Suit::Heart)
        } else if same_text(w, "♦") || same_text(w, "diamond") || same_text(w, "diamonds") || same_text(w, "d") {
            Ok(Suit::Diamond)
        } else {
            Err(SechsUndSechzigError::SuitParseError)
        }
    }

    /// A suit read from text, in any case.
    pub fn parse(s: &Vec<char>) -> (r: SusResult<Suit>)
        ensures
            r == parse_suit(s@),
    {
        Suit::from_lowercase(&lowercase(s))
    }
}

impl Card {
    /// A card read from text: a rank and a suit separated by one space, such
    /// as `a s` or `10 Hearts`.
    pub fn parse(s: &Vec<char>) -> (r: SusResult<Card>)
        ensures
            r == parse_card(s@),
    {
        let (word, rest) = split_first_word(s);
        match rest {
            Some(rest) => {
                let (suit_word, more) = split_first_word(&rest);
                proof {
                    crate::text::lemma_first_space(rest@);
                    if first_space(rest@) == rest@.len() {
                        assert(rest@.take(rest@.len() as int) =~= rest@);
                    }
                }
                if more.is_some() {
                    return Err(SechsUndSechzigError::InvaildPlayer);
                }
                let rank = match Rank::parse(&word) {
                    Ok(r) => r,
                    Err(e) => return Err(e),
                };
                let suit = match Suit::parse(&suit_word) {
                    Ok(t) => t,
                    Err(e) => return Err(e),
                };
                Ok(Card { rank, suit })
            },
            None => Err(SechsUndSechzigError::InvaildPlayer),
        }
    }
}

impl std::str::FromStr for Rank {
    type Err = SechsUndSechzigError;

    fn from_str(s: &str) -> Result<Rank, SechsUndSechzigError> {
        Rank::parse(&chars_of(s))
    }
}

impl std::str::FromStr for Suit {
    type Err = SechsUndSechzigError;

    fn from_str(s: &str) -> Result<Suit, SechsUndSechzigError> {
        Suit::parse(&chars_of(s))
    }
}

impl std::str::FromStr for Card {
    type Err = SechsUndSechzigError;

    fn from_str(s: &str) -> Result<Card, SechsUndSechzigError> {
        Card::parse(&chars_of(s))
    }
}

} // verus!
