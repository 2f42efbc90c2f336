use sechsundsechzig::error::SechsUndSechzigError;
use sechsundsechzig::team::Team;
use sechsundsechzig::variant::Variant;

#[test]
fn correctly_displays_teams_for_three_players_variant() {
    let three_players_teams: Vec<_> = Team::teams(Variant::ThreePlayers);
    assert_eq!("Team 0 [players: 0]", three_players_teams[0].to_string());
    assert_eq!("Team 1 [players: 1]", three_players_teams[1].to_string());
    assert_eq!("Team 2 [players: 2]", three_players_teams[2].to_string());
}

#[test]
fn correctly_displays_teams_for_four_players_variant() {
    let four_players_teams: Vec<_> = Team::teams(Variant::FourPlayers);
    assert_eq!("Team 0 [players: 0, 2]", four_players_teams[0].to_string());
    assert_eq!("Team 1 [players: 1, 3]", four_players_teams[1].to_string());
}

#[test]
fn displays_an_unknown_team() {
    assert_eq!("Team 12 [players: Invaild team]", Team(12, Variant::FourPlayers).to_string());
}

#[test]
fn unknown_team_has_no_players() {
    assert_eq!(Err(SechsUndSechzigError::InvaildTeam), Team(2, Variant::FourPlayers).players());
    assert_eq!(Ok(vec![1, 3]), Team(1, Variant::FourPlayers).players());
}

#[test]
fn teams_of_players_are_listed_once() {
    assert_eq!(vec![Team(1, Variant::FourPlayers)], Team::for_players(vec![1, 3], Variant::FourPlayers));
    assert_eq!(
        vec![Team(0, Variant::FourPlayers), Team(1, Variant::FourPlayers)],
        Team::for_players(vec![2, 1, 0], Variant::FourPlayers)
    );
    assert_eq!(vec![Team(2, Variant::ThreePlayers)], Team::for_players(vec![2], Variant::ThreePlayers));
}
