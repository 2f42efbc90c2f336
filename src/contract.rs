use vstd::prelude::*;

use crate::cards::Suit;
use crate::playered::Player;
use crate::variant::Variant;

verus! {

#[derive(Debug, Clone, Copy, PartialEq, Eq, Structural)]
pub enum GameType {
    NonTriumph,
    AskingAbout(Suit),
    LookingFor(Suit),
    Misery,
    Shower,
}

/// The terms negotiated in bidding.
#[derive(Debug, Clone, Copy, PartialEq, Eq, Structural)]
pub struct Contract {
    pub game_type: GameType,
    pub dealer: Player,
    pub multiplier: i32,
}

/// A competitive side of a round.
#[derive(Debug, Clone, Copy, Hash, PartialEq, Eq, Structural)]
pub enum Party {
    Dealers,
    NonDealers,
    SinglePlayer(Player),
}

impl GameType {
    /// The trump suit, for the game types that have one.
    pub open spec fn spec_triumph(self) -> Option<Suit> {
        match self {
            GameType::AskingAbout(s) => Some(s),
            GameType::LookingFor(s) => Some(s),
            _ => None,
        }
    }

    pub fn triumph(&self) -> (r: Option<Suit>)
        ensures
            r == self.spec_triumph(),
    {
        match self {
            GameType::AskingAbout(suit) => Some(*suit),
            GameType::LookingFor(suit) => Some(*suit),
            _ => None,
        }
    }
}

/// Whether the variant splits `game_type`'s seats into one party per seat.
pub open spec fn single_player_parties(game_type: GameType, variant: Variant) -> bool {
    game_type is NonTriumph && variant is ThreePlayers
}

impl Contract {
    pub open spec fn spec_dealers_teammate(self, variant: Variant) -> Option<Player> {
        match variant {
            Variant::ThreePlayers => None,
            Variant::FourPlayers => Some(((self.dealer + 2) % 4) as Player),
        }
    }

    pub open spec fn spec_dealers_teammate_plays(self) -> bool {
        !(self.game_type is Misery || self.game_type is Shower)
    }

    pub open spec fn spec_can_declare(self) -> bool {
        self.game_type is AskingAbout || self.game_type is LookingFor
    }

    pub open spec fn spec_parties(self, variant: Variant) -> Seq<Party> {
        if single_player_parties(self.game_type, variant) {
            seq![Party::SinglePlayer(0), Party::SinglePlayer(1), Party::SinglePlayer(2)]
        } else {
            seq![Party::Dealers, Party::NonDealers]
        }
    }

    pub open spec fn spec_players_in_party(self, variant: Variant, party: Party) -> Seq<Player> {
        let next = |p: Player| variant.next_seat(p as int) as Player;
        match (party, self.spec_dealers_teammate(variant)) {
            (Party::SinglePlayer(p), _) => seq![p],
            (Party::Dealers, None) => seq![self.dealer],
            (Party::Dealers, Some(mate)) => seq![self.dealer, mate],
            (Party::NonDealers, None) => seq![next(self.dealer), next(next(self.dealer))],
            (Party::NonDealers, Some(mate)) => seq![next(self.dealer), next(mate)],
        }
    }

    pub open spec fn spec_players_party(self, variant: Variant, player: Player) -> Party {
        if single_player_parties(self.game_type, variant) {
            Party::SinglePlayer(player)
        } else if player == self.dealer || Some(player) == self.spec_dealers_teammate(variant) {
            Party::Dealers
        } else {
            Party::NonDealers
        }
    }

    /// The contract before any bid: no trump, stake one.
    pub open spec fn initial_spec(dealer: Player) -> Contract {
        Contract { game_type: GameType::NonTriumph, dealer, multiplier: 1 }
    }

    pub fn initial(dealer: Player) -> (r: Contract)
        ensures
            r == Contract::initial_spec(dealer),
    {
        Contract { game_type: GameType::NonTriumph, dealer, multiplier: 1 }
    }

    /// The seat opposite the dealer, who plays with the dealer (four seats only).
    pub fn dealers_teammate(&self, variant: &Variant) -> (r: Option<Player>)
        ensures
            r == self.spec_dealers_teammate(*variant),
    {
        match variant {
            Variant::ThreePlayers => None,
            Variant::FourPlayers => {
                let d = self.dealer % 4;
                proof {
                    vstd::arithmetic::div_mod::lemma_add_mod_noop(self.dealer as int, 2, 4);
                    vstd::arithmetic::div_mod::lemma_mod_twice(self.dealer as int, 4);
                }
                Some((d + 2) % 4)
            },
        }
    }

    /// Whether the dealer's teammate takes part in trick play.
    pub fn dealers_teammate_plays(&self) -> (r: bool)
        ensures
            r == self.spec_dealers_teammate_plays(),
    {
        match self.game_type {
            GameType::Misery | GameType::Shower => false,
            _ => true,
        }
    }

    /// Whether marriages can be declared in this game.
    pub fn can_declare(&self) -> (r: bool)
        ensures
            r == self.spec_can_declare(),
    {
        match self.game_type {
            GameType::AskingAbout(_) | GameType::LookingFor(_) => true,
            _ => false,
        }
    }

    /// The parties of a round played under this contract.
    pub fn parties(&self, variant: &Variant) -> (r: Vec<Party>)
        ensures
            r@ == self.spec_parties(*variant),
    {
        let r = match (self.game_type, variant) {
            (GameType::NonTriumph, Variant::ThreePlayers) => {
                vec![Party::SinglePlayer(0), Party::SinglePlayer(1), Party::SinglePlayer(2)]
            },
            _ => vec![Party::Dealers, Party::NonDealers],
        };
        assert(r@ =~= self.spec_parties(*variant));
        r
    }

    /// The seats that make up `party`.
    pub fn players_in_party(&self, variant: &Variant, party: &Party) -> (r: Vec<Player>)
        ensures
            r@ == self.spec_players_in_party(*variant, *party),
    {
        let dealer = self.dealer;
        let r = match (party, self.dealers_teammate(variant)) {
            (Party::SinglePlayer(player), _) => vec![*player],
            (Party::Dealers, None) => vec![dealer],
            (Party::Dealers, Some(mate)) => vec![dealer, mate],
            (Party::NonDealers, None) => {
                let first = variant.next_player(dealer);
                vec![first, variant.next_player(first)]
            },
            (Party::NonDealers, Some(mate)) => {
                vec![variant.next_player(dealer), variant.next_player(mate)]
            },
        };
        assert(r@ =~= self.spec_players_in_party(*variant, *party));
        r
    }

    /// The party that `player` belongs to.
    pub fn players_party(&self, variant: Variant, player: Player) -> (r: Party)
        ensures
            r == self.spec_players_party(variant, player),
    {
        match (self.game_type, variant) {
            (GameType::NonTriumph, Variant::ThreePlayers) => Party::SinglePlayer(player),
            _ => {
                if player == self.dealer || Some(player) == self.dealers_teammate(&variant) {
                    Party::Dealers
                } else {
                    Party::NonDealers
                }
            },
        }
    }
}

} // verus!
