use poker_server::models::game::{GameStage, GameState, PlayerGameState};

#[test]
fn test_game_state_creation() {
    let game = GameState::new(1, 50, 100);
    assert_eq!(game.stage, GameStage::WaitingForPlayers);
    assert_eq!(game.small_blind, 50);
    assert_eq!(game.big_blind, 100);
    assert_eq!(game.pot, 0);
}

#[test]
fn test_add_players() {
    let mut game = GameState::new(1, 50, 100);
    game.add_player(1, "player1".to_string(), 100).unwrap();
    game.add_player(2, "player2".to_string(), 100).unwrap();

    assert_eq!(game.players.len(), 2);
    assert!(game.is_ready_to_start());
    assert!(game.players[0].is_dealer);
    assert!(!game.players[1].is_dealer);
}

#[test]
fn test_add_too_many_players() {
    let mut game = GameState::new(1, 50, 100);
    game.add_player(1, "player1".to_string(), 100).unwrap();
    game.add_player(2, "player2".to_string(), 100).unwrap();
    assert!(game.add_player(3, "player3".to_string(), 100).is_err());
}

#[test]
fn test_player_game_state_reset() {
    let mut player = PlayerGameState::new(1, "test".to_string(), 100, true);
    player.total_bet = 50;
    player.is_folded = true;

    player.reset_for_new_hand(false);
    assert_eq!(player.total_bet, 0);
    assert!(!player.is_folded);
    assert!(!player.is_dealer);
}

#[test]
fn test_player_can_act() {
    let player = PlayerGameState::new(1, "test".to_string(), 100, true);
    assert!(player.can_act());

    let mut folded = player.clone();
    folded.is_folded = true;
    assert!(!folded.can_act());

    let mut all_in = player.clone();
    all_in.is_all_in = true;
    assert!(!all_in.can_act());

    let mut disconnected = player.clone();
    disconnected.is_disconnected = true;
    assert!(!disconnected.can_act());

    let mut no_chips = player.clone();
    no_chips.chips = 0;
    assert!(!no_chips.can_act());
}
