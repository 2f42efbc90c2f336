use vstd::prelude::*;

use rand::rngs::StdRng;

use crate::cards::{rank_order, suit_order, Card};
use crate::contract::Contract;
use crate::error::{SechsUndSechzigError, SusResult};
use crate::hands::{is_deal, Hands};
use crate::playered::Player;
use crate::random::{clone_rng, random_seed, seeded_rng};
use crate::round::{Round, RoundResult, RoundResultView, StageView};
use crate::score::{spec_winner, team_index, Score};
use crate::sus_move::SusMove;
use crate::table::Table;
use crate::team::{team_count, teams_for, Team};
use crate::variant::Variant;

verus! {

/// A game of sixty-six: rounds are played until a team reaches the winning score.
pub struct SechsUndSechzig {
    variant: Variant,
    seed: u64,
}

/// A game in progress: the score, the generator that deals, and the round.
#[derive(Debug)]
pub struct SechsUndSechzigState {
    score: Score,
    rng: StdRng,
    round: Round,
    variant: Variant,
}

/// What the seat to act may be shown.
#[derive(Debug, Clone)]
pub struct SechsUndSechzigView {
    pub score: Score,
    pub current_player: Player,
    pub hands: Hands,
    pub contract: Contract,
    pub table: Option<Table>,
    pub display_full_hand: bool,
}

/// What one seat sees: the score, its own cards, the contract and the trick.
#[derive(Debug, Clone)]
pub struct SechsUndSechzigPlayerView {
    pub score: Score,
    pub hand: Vec<Card>,
    pub contract: Contract,
    pub table: Option<Table>,
}

/// Whether the game is over, with the final score, or goes on.
pub enum ProgressReport {
    Finished(Score),
    InProgress(SechsUndSechzigView),
}

/// The scores after `points` are added to each of `teams`, in order; refused
/// at the first team that has no score, or whose score would leave `i32`.
pub open spec fn add_to_teams(scores: Seq<(Team, i32)>, teams: Seq<Team>, points: i32) -> SusResult<
    Seq<(Team, i32)>,
>
    decreases teams.len(),
{
    if teams.len() == 0 {
        Ok(scores)
    } else {
        match add_to_teams(scores, teams.drop_last(), points) {
            Err(e) => Err(e),
            Ok(s) => {
                let i = team_index(s, teams.last());
                if i < s.len() && i32::MIN <= s[i].1 + points <= i32::MAX {
                    Ok(s.update(i, (teams.last(), (s[i].1 + points) as i32)))
                } else {
                    Err(SechsUndSechzigError::InvaildTeam)
                }
            },
        }
    }
}

/// Sort key of a card in a shown hand: by suit, then by rank.
pub open spec fn card_key(c: Card) -> int {
    suit_order(c.suit) * 6 + rank_order(c.rank)
}

pub open spec fn sorted_cards(s: Seq<Card>) -> bool {
    forall|i: int, j: int| 0 <= i < j < s.len() ==> card_key(#[trigger] s[i]) <= card_key(#[trigger] s[j])
}

fn key(c: &Card) -> (r: u8)
    ensures
        r as int == card_key(*c),
{
    let s: u8 = match c.suit {
        crate::cards::Suit::Spade => 0,
        crate::cards::Suit::Club => 1,
        crate::cards::Suit::Diamond => 2,
        crate::cards::Suit::Heart => 3,
    };
    s * 6 + c.rank.strength()
}

/// `cards` sorted by suit, then rank.
fn sort_cards(cards: Vec<Card>) -> (r: Vec<Card>)
    ensures
        sorted_cards(r@),
        r@.to_multiset() == cards@.to_multiset(),
{
    broadcast use vstd::seq_lib::group_to_multiset_ensures;

    let mut r: Vec<Card> = Vec::new();
    let mut i: usize = 0;
    while i < cards.len()
        invariant
            i <= cards@.len(),
            sorted_cards(r@),
            r@.to_multiset() == cards@.take(i as int).to_multiset(),
        decreases cards@.len() - i,
    {
        let c = cards[i];
        let k = key(&c);
        let mut j: usize = 0;
        while j < r.len() && key(&r[j]) <= k
            invariant
                j <= r@.len(),
                sorted_cards(r@),
                k == card_key(c),
                forall|m: int| 0 <= m < j ==> card_key(#[trigger] r@[m]) <= k,
            decreases r@.len() - j,
        {
            j += 1;
        }
        let ghost before = r@;
        r.insert(j, c);
        proof {
            assert(cards@.take(i + 1) =~= cards@.take(i as int).push(c));
            assert(r@ == before.insert(j as int, c));
            vstd::seq_lib::to_multiset_insert(before, j as int, c);
            vstd::seq_lib::to_multiset_build(cards@.take(i as int), c);
            assert forall|a: int, b: int| 0 <= a < b < r@.len() implies card_key(#[trigger] r@[a]) <= card_key(#[trigger] r@[b]) by {
                if j < before.len() {
                    assert(card_key(before[j as int]) > k);
                }
                if a < j && b > j {
                    assert(r@[a] == before[a]);
                    assert(r@[b] == before[b - 1]);
                } else if a < j && b == j {
                    assert(r@[a] == before[a]);
                } else if a == j {
                    assert(r@[b] == before[b - 1]);
                    assert(card_key(before[j as int]) <= card_key(before[b - 1]));
                } else if b < j {
                    assert(r@[a] == before[a] && r@[b] == before[b]);
                } else {
                    assert(r@[a] == before[a - 1] && r@[b] == before[b - 1]);
                }
            }
        }
        i += 1;
    }
    assert(cards@.take(cards@.len() as int) =~= cards@);
    r
}

impl SechsUndSechzig {
    /// A game whose deals are drawn from a generator seeded at random.
    pub fn with_random_seed(variant: Variant) -> (r: SechsUndSechzig)
        ensures
            r.variant() == variant,
    {
        SechsUndSechzig { variant, seed: random_seed() }
    }

    /// A game whose deals are drawn from a generator seeded with `seed`.
    pub fn with_seed(variant: Variant, seed: u64) -> (r: SechsUndSechzig)
        ensures
            r.variant() == variant,
            r.seed() == seed,
    {
        SechsUndSechzig { variant, seed }
    }

    pub closed spec fn variant(&self) -> Variant {
        self.variant
    }

    pub closed spec fn seed(&self) -> u64 {
        self.seed
    }

    pub fn no_of_players(&self) -> (r: u32)
        ensures
            r == self.variant().seats(),
    {
        self.variant.number_of_players()
    }

    /// The start of the game: every team at zero, the first round bidding.
    pub fn initial_state(&self) -> (r: SechsUndSechzigState)
        ensures
            r.wf(),
            r.variant() == self.variant(),
            spec_winner(r.score()@) is None,
            r.score()@.len() == team_count(self.variant()),
            forall|i: int| 0 <= i < r.score()@.len() ==> #[trigger] r.score()@[i] == (Team(i as u32, self.variant()), 0i32),
            r.round()@.stage == StageView::Bidding(r.round()@.initial_dealer),
            r.round()@.contract == Contract::initial_spec(r.round()@.initial_dealer),
            is_deal(r.round()@.hands, self.variant()),
    {
        let mut rng = seeded_rng(self.seed);
        let score = Score::empty(self.variant);
        let round = Round::first(&mut rng, &self.variant);
        let r = SechsUndSechzigState { score, rng, round, variant: self.variant };
        proof {
            crate::score::lemma_winner_greatest(score@);
        }
        r
    }
}

impl Clone for SechsUndSechzigState {
    fn clone(&self) -> (r: SechsUndSechzigState)
        ensures
            r.score()@ == self.score()@,
            r.round()@ == self.round()@,
            r.variant() == self.variant(),
    {
        SechsUndSechzigState {
            score: self.score.clone(),
            rng: clone_rng(&self.rng),
            round: self.round.clone(),
            variant: self.variant,
        }
    }
}

impl SechsUndSechzigState {
    pub closed spec fn score(&self) -> Score {
        self.score
    }

    pub closed spec fn round(&self) -> Round {
        self.round
    }

    pub closed spec fn variant(&self) -> Variant {
        self.variant
    }

    /// The round is well formed and of the game's variant; no score is negative.
    pub open spec fn wf(&self) -> bool {
        &&& self.round()@.wf()
        &&& self.round()@.variant == self.variant()
        &&& forall|i: int| 0 <= i < self.score()@.len() ==> 0 <= (#[trigger] self.score()@[i]).1
    }

    /// The final score once a team has won, else the view of the seat to act.
    pub fn progress_report(&self) -> (r: ProgressReport)
        requires
            self.wf(),
        ensures
            spec_winner(self.score()@) is Some ==> (r matches ProgressReport::Finished(s) && s@
                == self.score()@),
            spec_winner(self.score()@) is None ==> (r matches ProgressReport::InProgress(v) && v.score@
                == self.score()@ && v.current_player == self.round()@.spec_current_player() && v.hands@
                == self.round()@.hands && v.contract == self.round()@.contract
                && v.display_full_hand == !(self.round()@.stage is Bidding
                && self.round()@.contract.game_type is NonTriumph) && match self.round()@.stage {
                StageView::Play { table, .. } => v.table matches Some(t) && t@ == table,
                StageView::Bidding(_) => v.table is None,
            }),
    {
        if self.score.winner().is_some() {
            ProgressReport::Finished(self.score.clone())
        } else {
            ProgressReport::InProgress(
                SechsUndSechzigView {
                    score: self.score.clone(),
                    hands: self.round.hands().clone(),
                    current_player: self.round.current_player(),
                    contract: *self.round.contract(),
                    display_full_hand: self.round.display_full_hand(),
                    table: self.round.get_table(),
                },
            )
        }
    }

    /// The state after `mv`. A finished round is scored for the teams of its
    /// winners and followed by a new deal with the same dealer.
    pub fn move_reducer(&self, mv: SusMove) -> (r: SusResult<SechsUndSechzigState>)
        requires
            self.wf(),
        ensures
            match self.round()@.spec_handle_move(mv) {
                (Err(e), _) => r matches Err(x) && x == e,
                (Ok(RoundResultView::Continue), next) => r matches Ok(s) && s.wf() && s.variant()
                    == self.variant() && s.round()@ == next && s.score()@ == self.score()@,
                (Ok(RoundResultView::Finished(players, points, dealer)), _) => match add_to_teams(
                    self.score()@,
                    teams_for(players, self.variant()),
                    points,
                ) {
                    Err(e) => r matches Err(x) && x == e,
                    Ok(scores) => r matches Ok(s) && s.wf() && s.variant() == self.variant()
                        && s.score()@ == scores && s.round()@.stage == StageView::Bidding(dealer)
                        && s.round()@.initial_dealer == dealer && s.round()@.contract == Contract::initial_spec(dealer)
                        && is_deal(s.round()@.hands, self.variant()),
                },
            },
    {
        proof {
            crate::round::lemma_finished(self.round@, mv);
        }
        let mut rng = clone_rng(&self.rng);
        let mut round = self.round.clone();
        let moved = round.handle_move(mv);
        match moved {
            Err(e) => Err(e),
            Ok(RoundResult::Contiune) => {
                Ok(SechsUndSechzigState { score: self.score.clone(), rng, round, variant: self.variant })
            },
            Ok(RoundResult::Finished(players, points, last_game_dealer)) => {
                let ghost winners = players@;
                let teams = Team::for_players(players, self.variant);
                proof {
                    crate::team::lemma_teams_for_len(winners, self.variant);
                }
                let mut score = self.score.clone();
                let mut i: usize = 0;
                assert(teams@.take(0) =~= Seq::<Team>::empty());
                while i < teams.len()
                    invariant
                        i <= teams@.len(),
                        teams@.len() <= 2,
                        1 <= points <= 10,
                        self.round@.spec_handle_move(mv).0 == Ok::<RoundResultView, SechsUndSechzigError>(
                            RoundResultView::Finished(winners, points, last_game_dealer),
                        ),
                        teams@ == teams_for(winners, self.variant),
                        add_to_teams(self.score@, teams@.take(i as int), points) == Ok::<
                            Seq<(Team, i32)>,
                            SechsUndSechzigError,
                        >(score@),
                        forall|k: int| 0 <= k < score@.len() ==> 0 <= (#[trigger] score@[k]).1,
                    decreases teams@.len() - i,
                {
                    let ghost before = score@;
                    proof {
                        assert(teams@.take(i + 1).drop_last() =~= teams@.take(i as int));
                        assert(teams@.take(i + 1).last() == teams@[i as int]);
                    }
                    proof {
                        let t = teams@[i as int];
                        crate::score::lemma_team_index(score@, t);
                        if team_index(score@, t) < score@.len() {
                            assert(0 <= score@[team_index(score@, t)].1);
                        }
                    }
                    if let Some(current) = score.get(&teams[i]) {
                        if current > i32::MAX - points {
                            proof {
                                lemma_add_to_teams_err(self.score@, teams@, points, i + 1);
                                assert(teams@.take(teams@.len() as int) =~= teams@);
                            }
                            return Err(SechsUndSechzigError::InvaildTeam);
                        }
                    }
                    match score.add_points(&teams[i], points) {
                        Err(e) => {
                            proof {
                                lemma_add_to_teams_err(self.score@, teams@, points, i + 1);
                                assert(teams@.take(teams@.len() as int) =~= teams@);
                            }
                            return Err(e);
                        },
                        Ok(()) => {},
                    }
                    proof {
                        assert forall|k: int| 0 <= k < score@.len() implies 0 <= (#[trigger] score@[k]).1 by {
                            assert(0 <= before[k].1);
                        }
                    }
                    i += 1;
                }
                assert(teams@.take(teams@.len() as int) =~= teams@);
                let new_round = Round::new(&mut rng, &self.variant, last_game_dealer);
                Ok(SechsUndSechzigState { score, rng, round: new_round, variant: self.variant })
            },
        }
    }
}

/// Once adding points fails for a prefix of the teams, it fails for all of them.
proof fn lemma_add_to_teams_err(scores: Seq<(Team, i32)>, teams: Seq<Team>, points: i32, k: int)
    requires
        0 <= k <= teams.len(),
        add_to_teams(scores, teams.take(k), points) is Err,
    ensures
        add_to_teams(scores, teams, points) == add_to_teams(scores, teams.take(k), points),
    decreases teams.len(),
{
    if k < teams.len() {
        assert(teams.drop_last().take(k) =~= teams.take(k));
        lemma_add_to_teams_err(scores, teams.drop_last(), points, k);
    } else {
        assert(teams.take(k) =~= teams);
    }
}

impl SechsUndSechzigView {
    pub fn current_player(&self) -> (r: Player)
        ensures
            r == self.current_player,
    {
        self.current_player
    }

    /// What `player` sees: the whole hand, or only the cards dealt first while
    /// bidding on them, sorted by suit and rank; nothing for a seat that is not
    /// at the table.
    pub fn player_view(&self, player: Player) -> (r: SechsUndSechzigPlayerView)
        ensures
            r.score@ == self.score@,
            r.contract == self.contract,
            sorted_cards(r.hand@),
            (player as int) < self.hands@.len() ==> r.hand@.to_multiset() == (if self.display_full_hand {
                self.hands@[player as int]
            } else {
                self.hands@[player as int].take(
                    if self.hands@[player as int].len() < 4 { self.hands@[player as int].len() as int } else { 4 },
                )
            }).to_multiset(),
            (player as int) >= self.hands@.len() ==> r.hand@.len() == 0,
            match self.table {
                Some(t) => r.table matches Some(u) && u@ == t@,
                None => r.table is None,
            },
    {
        let hand: Vec<Card> = match self.hands.hand(&player) {
            Ok(hand) => {
                let shown = if !self.display_full_hand {
                    hand.first()
                } else {
                    hand.full().clone()
                };
                assert(self.display_full_hand ==> shown@ =~= hand@);
                sort_cards(shown)
            },
            Err(_) => Vec::new(),
        };
        let table = match &self.table {
            Some(t) => Some(t.clone()),
            None => None,
        };
        SechsUndSechzigPlayerView { score: self.score.clone(), hand, contract: self.contract, table }
    }
}

} // verus!
