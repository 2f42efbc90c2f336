use sechsundsechzig::error::SechsUndSechzigError;
use sechsundsechzig::score::Score;
use sechsundsechzig::team::Team;
use sechsundsechzig::variant::Variant;

#[test]
fn empty_returns_correct_score_for_three_players() {
    let variant = Variant::ThreePlayers;
    let empty_scores = Score::empty(variant);
    assert_eq!(3, empty_scores.len());
    for team in Team::teams(variant) {
        assert!(empty_scores.contains_key(&team));
        assert_eq!(Some(0), empty_scores.get(&team));
    }
}

#[test]
fn empty_returns_correct_score_for_four_players() {
    let variant = Variant::FourPlayers;
    let empty_scores = Score::empty(variant);
    assert_eq!(2, empty_scores.len());
    for team in Team::teams(variant) {
        assert!(empty_scores.contains_key(&team));
        assert_eq!(Some(0), empty_scores.get(&team));
    }
}

#[test]
fn returns_winner() {
    let mut scores = Score::empty(Variant::ThreePlayers);
    let winner = Team::teams(Variant::ThreePlayers)[0];
    scores.add_points(&winner, Score::MAX_POINTS).unwrap();

    assert_eq!(Some(&winner), scores.winner());
}

#[test]
fn returns_winner_with_greater_score() {
    let mut scores = Score::empty(Variant::ThreePlayers);
    let almost_winner = Team::teams(Variant::ThreePlayers)[0];
    let winner = Team::teams(Variant::ThreePlayers)[0];
    scores.add_points(&almost_winner, Score::MAX_POINTS).unwrap();
    scores.add_points(&winner, Score::MAX_POINTS + 1).unwrap();

    assert_eq!(Some(&winner), scores.winner());
}

#[test]
fn does_not_return_winner_when_no_one_won() {
    let scores = Score::empty(Variant::ThreePlayers);

    assert_eq!(None, scores.winner());
}

#[test]
fn strictly_greatest_of_two_winning_teams_wins() {
    let mut scores = Score::empty(Variant::ThreePlayers);
    let teams = Team::teams(Variant::ThreePlayers);
    scores.add_points(&teams[0], 70).unwrap();
    scores.add_points(&teams[1], 21).unwrap();
    scores.add_points(&teams[2], 75).unwrap();
    assert_eq!(Some(&teams[2]), scores.winner());
    assert_eq!(Some(75), scores.get(&teams[2]));
}

#[test]
fn below_the_winning_points_nobody_wins() {
    let mut scores = Score::empty(Variant::FourPlayers);
    let teams = Team::teams(Variant::FourPlayers);
    scores.add_points(&teams[0], 65).unwrap();
    scores.add_points(&teams[1], 40).unwrap();
    assert_eq!(None, scores.winner());
}

#[test]
fn points_for_an_unknown_team_are_refused() {
    let mut scores = Score::empty(Variant::FourPlayers);
    let r = scores.add_points(&Team(2, Variant::FourPlayers), 5);
    assert_eq!(Err(SechsUndSechzigError::InvaildTeam), r);
    assert!(!scores.contains_key(&Team(2, Variant::FourPlayers)));
    assert_eq!(None, scores.get(&Team(0, Variant::ThreePlayers)));
}
