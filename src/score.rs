use vstd::prelude::*;

use crate::error::{SechsUndSechzigError, SusResult};
use crate::team::{team_count, Team};
use crate::variant::Variant;

verus! {

/// The score of every team across rounds.
#[derive(Debug)]
pub struct Score {
    scores: Vec<(Team, i32)>,
}

impl View for Score {
    type V = Seq<(Team, i32)>;

    closed spec fn view(&self) -> Seq<(Team, i32)> {
        self.scores@
    }
}

impl Clone for Score {
    fn clone(&self) -> (r: Score)
        ensures
            r@ == self@,
    {
        let mut scores: Vec<(Team, i32)> = Vec::new();
        let mut i: usize = 0;
        while i < self.scores.len()
            invariant
                i <= self.scores@.len(),
                scores@ =~= self.scores@.take(i as int),
            decreases self.scores@.len() - i,
        {
            scores.push(self.scores[i]);
            i += 1;
        }
        assert(scores@ =~= self.scores@);
        Score { scores }
    }
}

/// The index of the first entry of `team`, or the length if there is none.
pub open spec fn team_index(scores: Seq<(Team, i32)>, team: Team) -> int
    decreases scores.len(),
{
    if scores.len() == 0 {
        0
    } else if scores[0].0 == team {
        0
    } else {
        1 + team_index(scores.drop_first(), team)
    }
}

/// The index of the first entry with the greatest score.
pub open spec fn best_index(scores: Seq<(Team, i32)>) -> int
    decreases scores.len(),
{
    if scores.len() <= 1 {
        0
    } else {
        let i = best_index(scores.drop_last());
        if scores.last().1 > scores[i].1 {
            scores.len() - 1
        } else {
            i
        }
    }
}

/// The team with the greatest score, if that score reaches the winning points.
pub open spec fn spec_winner(scores: Seq<(Team, i32)>) -> Option<Team> {
    if scores.len() > 0 && scores[best_index(scores)].1 >= Score::MAX_POINTS {
        Some(scores[best_index(scores)].0)
    } else {
        None
    }
}

pub proof fn lemma_team_index(scores: Seq<(Team, i32)>, team: Team)
    ensures
        0 <= team_index(scores, team) <= scores.len(),
        team_index(scores, team) < scores.len() ==> scores[team_index(scores, team)].0 == team,
        forall|j: int| 0 <= j < team_index(scores, team) ==> scores[j].0 != team,
    decreases scores.len(),
{
    if scores.len() > 0 && scores[0].0 != team {
        lemma_team_index(scores.drop_first(), team);
        assert forall|j: int| 0 <= j < team_index(scores, team) implies scores[j].0 != team by {
            if j > 0 {
                assert(scores[j] == scores.drop_first()[j - 1]);
            }
        }
    }
}

/// The entry at `best_index` has the greatest score, and every entry before it a smaller one.
pub proof fn lemma_best_index(scores: Seq<(Team, i32)>)
    requires
        scores.len() > 0,
    ensures
        0 <= best_index(scores) < scores.len(),
        forall|j: int| 0 <= j < scores.len() ==> #[trigger] scores[j].1 <= scores[best_index(scores)].1,
        forall|j: int| 0 <= j < best_index(scores) ==> #[trigger] scores[j].1 < scores[best_index(scores)].1,
    decreases scores.len(),
{
    if scores.len() > 1 {
        let init = scores.drop_last();
        lemma_best_index(init);
        assert forall|j: int| 0 <= j < init.len() implies init[j] == scores[j] by {}
    }
}

/// The winner of a score: no team wins while every score is below the winning
/// points (so never on an empty score); otherwise the winner is a team that
/// reached them with the strictly greatest score, ties going to the earlier team.
pub proof fn lemma_winner_greatest(scores: Seq<(Team, i32)>)
    ensures
        spec_winner(scores) is None <==> forall|i: int|
            0 <= i < scores.len() ==> scores[i].1 < Score::MAX_POINTS,
        spec_winner(scores) matches Some(t) ==> exists|i: int|
            0 <= i < scores.len() && scores[i].0 == t && scores[i].1 >= Score::MAX_POINTS && (
            forall|j: int| 0 <= j < scores.len() ==> #[trigger] scores[j].1 <= scores[i].1) && (
            forall|j: int| 0 <= j < i ==> #[trigger] scores[j].1 < scores[i].1),
{
    if scores.len() > 0 {
        lemma_best_index(scores);
        let b = best_index(scores);
        if scores[b].1 >= Score::MAX_POINTS {
            assert(!(forall|i: int| 0 <= i < scores.len() ==> scores[i].1 < Score::MAX_POINTS));
        }
    }
}

impl Score {
    /// Points a team needs to win the game.
    pub const MAX_POINTS: i32 = 66;

    /// Score zero for every team of the variant.
    pub fn empty(variant: Variant) -> (r: Score)
        ensures
            r@.len() == team_count(variant),
            forall|i: int| 0 <= i < r@.len() ==> #[trigger] r@[i] == (Team(i as u32, variant), 0i32),
    {
        let teams = Team::teams(variant);
        let mut scores: Vec<(Team, i32)> = Vec::new();
        let mut i: usize = 0;
        while i < teams.len()
            invariant
                i <= teams@.len(),
                teams@ == Seq::new(team_count(variant) as nat, |k: int| Team(k as u32, variant)),
                scores@.len() == i,
                forall|k: int| 0 <= k < i ==> #[trigger] scores@[k] == (Team(k as u32, variant), 0i32),
            decreases teams@.len() - i,
        {
            scores.push((teams[i], 0));
            i += 1;
        }
        Score { scores }
    }

    fn find(&self, team: &Team) -> (r: usize)
        ensures
            r == team_index(self@, *team),
    {
        proof {
            lemma_team_index(self@, *team);
        }
        let mut i: usize = 0;
        while i < self.scores.len()
            invariant
                i <= self@.len(),
                forall|k: int| 0 <= k < i ==> self@[k].0 != *team,
                0 <= team_index(self@, *team) <= self@.len(),
                team_index(self@, *team) < self@.len() ==> self@[team_index(self@, *team)].0 == *team,
                forall|j: int| 0 <= j < team_index(self@, *team) ==> self@[j].0 != *team,
            decreases self@.len() - i,
        {
            if self.scores[i].0 == *team {
                return i;
            }
            i += 1;
        }
        i
    }

    /// Every team with its score.
    pub fn entries(&self) -> (r: &Vec<(Team, i32)>)
        ensures
            r@ == self@,
    {
        &self.scores
    }

    /// Number of teams scored.
    pub fn len(&self) -> (r: usize)
        ensures
            r == self@.len(),
    {
        self.scores.len()
    }

    /// Whether `team` is scored.
    pub fn contains_key(&self, team: &Team) -> (r: bool)
        ensures
            r == (team_index(self@, *team) < self@.len()),
    {
        self.find(team) < self.scores.len()
    }

    /// The score of `team`, if it is scored.
    pub fn get(&self, team: &Team) -> (r: Option<i32>)
        ensures
            team_index(self@, *team) < self@.len() ==> r == Some(self@[team_index(self@, *team)].1),
            team_index(self@, *team) == self@.len() ==> r is None,
    {
        let i = self.find(team);
        if i < self.scores.len() {
            Some(self.scores[i].1)
        } else {
            None
        }
    }

    /// Adds `points` to the score of `team`.
    pub fn add_points(&mut self, team: &Team, points: i32) -> (r: SusResult<()>)
        requires
            team_index(old(self)@, *team) < old(self)@.len() ==> i32::MIN <= old(self)@[team_index(
                old(self)@,
                *team,
            )].1 + points <= i32::MAX,
        ensures
            team_index(old(self)@, *team) < old(self)@.len() ==> r is Ok && final(self)@ == old(
                self,
            )@.update(
                team_index(old(self)@, *team),
                (*team, (old(self)@[team_index(old(self)@, *team)].1 + points) as i32),
            ),
            team_index(old(self)@, *team) == old(self)@.len() ==> r == Err::<(), SechsUndSechzigError>(
                SechsUndSechzigError::InvaildTeam,
            ) && final(self)@ == old(self)@,
    {
        let i = self.find(team);
        if i == self.scores.len() {
            return Err(SechsUndSechzigError::InvaildTeam);
        }
        proof {
            lemma_team_index(self@, *team);
        }
        let current = self.scores[i].1;
        self.scores.set(i, (*team, current + points));
        Ok(())
    }

    /// The team with the greatest score, once some team has reached
    /// `MAX_POINTS`.
    pub fn winner(&self) -> (r: Option<&Team>)
        ensures
            match spec_winner(self@) {
                Some(t) => r matches Some(w) && *w == t,
                None => r is None,
            },
    {
        if self.scores.len() == 0 {
            return None;
        }
        let mut best: usize = 0;
        let mut i: usize = 1;
        while i < self.scores.len()
            invariant
                1 <= i <= self@.len(),
                best < i,
                best == best_index(self@.take(i as int)),
            decreases self@.len() - i,
        {
            assert(self@.take(i + 1).drop_last() =~= self@.take(i as int));
            if self.scores[i].1 > self.scores[best].1 {
                best = i;
            }
            i += 1;
        }
        assert(self@.take(self@.len() as int) =~= self@);
        if self.scores[best].1 >= Score::MAX_POINTS {
            Some(&self.scores[best].0)
        } else {
            None
        }
    }
}

} // verus!
