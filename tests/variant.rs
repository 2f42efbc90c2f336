use sechsundsechzig::variant::Variant;

#[test]
fn returns_correct_number_of_players_for_variant() {
    assert_eq!(3, Variant::ThreePlayers.number_of_players());
    assert_eq!(4, Variant::FourPlayers.number_of_players());
}

#[test]
fn returns_correct_number_of_cards_per_player_for_variant() {
    assert_eq!(8, Variant::ThreePlayers.cards_per_player());
    assert_eq!(6, Variant::FourPlayers.cards_per_player());
}

#[test]
fn next_player_wraps_around() {
    assert_eq!(1, Variant::ThreePlayers.next_player(0));
    assert_eq!(0, Variant::ThreePlayers.next_player(2));
    assert_eq!(0, Variant::FourPlayers.next_player(3));
    assert_eq!(0, Variant::FourPlayers.next_player(u32::MAX));
}
