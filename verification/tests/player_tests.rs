use poker_server::models::player::Player;

#[test]
fn test_player_creation() {
    let player = Player::new(1, "test_user".to_string(), "hash123".to_string(), 100);
    assert_eq!(player.chips, 100);
    assert_eq!(player.hands_played, 0);
    assert_eq!(player.hands_won, 0);
}

#[test]
fn test_top_up() {
    let mut player = Player::new(1, "test".to_string(), "hash".to_string(), 100);
    player.chips = 50;
    let threshold = 100;

    assert!(player.can_top_up(threshold));
    assert!(player.top_up(100, threshold).is_ok());
    assert_eq!(player.chips, 150);

    assert!(!player.can_top_up(threshold));
    assert!(player.top_up(100, threshold).is_err());
    assert_eq!(player.chips, 150);
}

#[test]
fn test_chip_operations() {
    let mut player = Player::new(1, "test".to_string(), "hash".to_string(), 100);

    assert!(player.deduct_chips(50).is_ok());
    assert_eq!(player.chips, 50);

    assert!(player.deduct_chips(100).is_err());
    assert_eq!(player.chips, 50);

    assert!(player.add_chips(75).is_ok());
    assert_eq!(player.chips, 125);
}
