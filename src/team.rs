use vstd::prelude::*;

use crate::error::{SechsUndSechzigError, SusResult};
use crate::playered::Player;
use crate::text::{decimal, push_decimal, push_text};
use crate::variant::Variant;

verus! {

/// A team that keeps its score across rounds: its number and the variant.
#[derive(Debug, Clone, Copy, PartialEq, Eq, Hash, Structural)]
pub struct Team(pub u32, pub Variant);

/// Number of teams of a variant.
pub open spec fn team_count(variant: Variant) -> u32 {
    match variant {
        Variant::ThreePlayers => 3,
        Variant::FourPlayers => 2,
    }
}

/// The seats of a team, if the team exists: each seat alone with three seats,
/// seats 0 and 2, or 1 and 3, with four.
pub open spec fn team_players(team: Team) -> Option<Seq<Player>> {
    match team.1 {
        Variant::ThreePlayers => if team.0 <= 2 {
            Some(seq![team.0])
        } else {
            None
        },
        Variant::FourPlayers => if team.0 == 0 {
            Some(seq![0u32, 2u32])
        } else if team.0 == 1 {
            Some(seq![1u32, 3u32])
        } else {
            None
        },
    }
}

/// The team of a seat.
pub open spec fn team_of(player: Player, variant: Variant) -> Team {
    match variant {
        Variant::ThreePlayers => Team(player, variant),
        Variant::FourPlayers => Team(player % 2, variant),
    }
}

/// The teams of `players`, each once, in the order they first appear.
pub open spec fn teams_for(players: Seq<Player>, variant: Variant) -> Seq<Team>
    decreases players.len(),
{
    if players.len() == 0 {
        Seq::empty()
    } else {
        let rest = teams_for(players.drop_last(), variant);
        let t = team_of(players.last(), variant);
        if rest.contains(t) {
            rest
        } else {
            rest.push(t)
        }
    }
}

/// The seats, separated by ", ".
pub open spec fn players_text(players: Seq<Player>) -> Seq<char>
    decreases players.len(),
{
    if players.len() == 0 {
        Seq::empty()
    } else if players.len() == 1 {
        decimal(players[0] as nat)
    } else {
        players_text(players.drop_last()) + seq![',', ' '] + decimal(players.last() as nat)
    }
}

/// How a team is shown: `Team <n> [players: <seats>]`.
pub open spec fn team_text(team: Team) -> Seq<char> {
    "Team "@ + decimal(team.0 as nat) + " [players: "@ + match team_players(team) {
        Some(players) => players_text(players),
        None => "Invaild team"@,
    } + "]"@
}

impl Team {
    /// The teams of a variant, numbered from zero.
    pub fn teams(variant: Variant) -> (r: Vec<Team>)
        ensures
            r@ == Seq::new(team_count(variant) as nat, |i: int| Team(i as u32, variant)),
    {
        let n: u32 = match variant {
            Variant::ThreePlayers => 3,
            Variant::FourPlayers => 2,
        };
        let mut r: Vec<Team> = Vec::new();
        let mut id: u32 = 0;
        while id < n
            invariant
                n == team_count(variant),
                id <= n,
                r@ =~= Seq::new(id as nat, |i: int| Team(i as u32, variant)),
            decreases n - id,
        {
            r.push(Team(id, variant));
            id += 1;
        }
        r
    }

    /// The seats of the team.
    pub fn players(&self) -> (r: SusResult<Vec<Player>>)
        ensures
            match team_players(*self) {
                Some(players) => r matches Ok(v) && v@ == players,
                None => r == Err::<Vec<Player>, SechsUndSechzigError>(SechsUndSechzigError::InvaildTeam),
            },
    {
        let r = match self {
            Team(id, Variant::ThreePlayers) if *id <= 2 => Ok(vec![*id]),
            Team(0, Variant::FourPlayers) => Ok(vec![0, 2]),
            Team(1, Variant::FourPlayers) => Ok(vec![1, 3]),
            _ => Err(SechsUndSechzigError::InvaildTeam),
        };
        proof {
            if r is Ok {
                assert(r->Ok_0@ =~= team_players(*self)->0);
            }
        }
        r
    }

    /// The teams that `players` belong to, each once.
    pub fn for_players(players: Vec<Player>, variant: Variant) -> (r: Vec<Team>)
        ensures
            r@ == teams_for(players@, variant),
    {
        let mut r: Vec<Team> = Vec::new();
        let mut i: usize = 0;
        while i < players.len()
            invariant
                i <= players@.len(),
                r@ == teams_for(players@.take(i as int), variant),
            decreases players@.len() - i,
        {
            let p = players[i];
            let t = match variant {
                Variant::ThreePlayers => Team(p, variant),
                Variant::FourPlayers => Team(p % 2, variant),
            };
            let mut seen = false;
            let mut j: usize = 0;
            while j < r.len()
                invariant
                    j <= r@.len(),
                    seen == exists|k: int| 0 <= k < j && r@[k] == t,
                decreases r@.len() - j,
            {
                if r[j] == t {
                    seen = true;
                }
                j += 1;
            }
            proof {
                if seen {
                    let k = choose|k: int| 0 <= k < j && r@[k] == t;
                    assert(r@.contains(t));
                }
                assert(players@.take(i + 1).drop_last() =~= players@.take(i as int));
            }
            if !seen {
                r.push(t);
            }
            i += 1;
        }
        assert(players@.take(players@.len() as int) =~= players@);
        r
    }

    /// How the team is shown: `Team <n> [players: <seats>]`.
    pub fn to_string(&self) -> (r: String)
        ensures
            r@ == team_text(*self),
    {
        let mut s = String::new();
        push_text(&mut s, "Team ");
        push_decimal(&mut s, self.0);
        push_text(&mut s, " [players: ");
        match self.players() {
            Ok(players) => {
                let mut i: usize = 0;
                let ghost start = s@;
                while i < players.len()
                    invariant
                        i <= players@.len(),
                        s@ == start + players_text(players@.take(i as int)),
                    decreases players@.len() - i,
                {
                    proof {
                        assert(players@.take(i + 1).drop_last() =~= players@.take(i as int));
                    }
                    if i > 0 {
                        push_text(&mut s, ", ");
                        proof {
                            reveal_strlit(", ");
                        }
                    }
                    push_decimal(&mut s, players[i]);
                    proof {
                        if i == 0 {
                            assert(players@.take(1) =~= seq![players@[0]]);
                        }
                        assert(s@ =~= start + players_text(players@.take(i + 1)));
                    }
                    i += 1;
                }
                assert(players@.take(players@.len() as int) =~= players@);
            },
            Err(_) => {
                push_text(&mut s, "Invaild team");
            },
        }
        push_text(&mut s, "]");
        proof {
            assert(s@ =~= team_text(*self));
        }
        s
    }
}

/// There are no more teams than seats.
pub proof fn lemma_teams_for_len(players: Seq<Player>, variant: Variant)
    ensures
        teams_for(players, variant).len() <= players.len(),
    decreases players.len(),
{
    if players.len() > 0 {
        lemma_teams_for_len(players.drop_last(), variant);
    }
}

} // verus!
