use poker_server::error::PokerError;
use poker_server::models::messages::{ClientMessage, ServerMessage};
use poker_server::models::player::Player;
use poker_server::models::table::Table;

#[test]
fn deduct_undoes_add() {
    let mut player = Player::new(1, "p".to_string(), "h".to_string(), 40);
    player.add_chips(25).unwrap();
    assert_eq!(player.chips, 65);
    player.deduct_chips(25).unwrap();
    assert_eq!(player.chips, 40);
}

#[test]
fn chip_errors() {
    let mut player = Player::new(1, "p".to_string(), "h".to_string(), 40);
    assert_eq!(
        player.add_chips(-1).unwrap_err().to_string(),
        "Game logic error: Cannot add negative amount"
    );
    assert_eq!(
        player.deduct_chips(-1).unwrap_err().to_string(),
        "Game logic error: Cannot deduct negative amount"
    );
    assert_eq!(
        player.deduct_chips(41).unwrap_err().to_string(),
        "Game logic error: Insufficient chips"
    );
    player.chips = i64::MAX - 1;
    assert_eq!(
        player.add_chips(2).unwrap_err().to_string(),
        "Game logic error: Chip overflow"
    );
    assert_eq!(player.chips, i64::MAX - 1);
    assert_eq!(
        player.top_up(1, 100).unwrap_err().to_string(),
        "Game logic error: Player already has enough chips to top up"
    );
}

#[test]
fn table_rules() {
    assert_eq!(
        Table::new(1, "t".to_string(), 0, 100).unwrap_err().to_string(),
        "Game logic error: Small blind must be positive"
    );
    assert_eq!(
        Table::new(1, "t".to_string(), 50, 0).unwrap_err().to_string(),
        "Game logic error: Big blind must be positive"
    );
    assert_eq!(
        Table::new(1, "t".to_string(), 50, 40).unwrap_err().to_string(),
        "Game logic error: Big blind must be >= small blind"
    );
    assert_eq!(
        Table::with_max_players(1, "t".to_string(), 50, 100, 1).unwrap_err().to_string(),
        "Game logic error: Max players must be at least 2"
    );
    let table = Table::new(1, "t".to_string(), 50, 100).unwrap();
    assert!(table.validate_buyin(2000, 20, 100).is_ok());
    assert!(table.validate_buyin(10000, 20, 100).is_ok());
    assert_eq!(
        table.validate_buyin(-1, 20, 100).unwrap_err().to_string(),
        "Game logic error: Buy-in cannot be negative"
    );
    assert_eq!(
        table.validate_buyin(1999, 20, 100).unwrap_err().to_string(),
        "Game logic error: Buy-in must be at least 20 big blinds"
    );
    assert_eq!(
        table.validate_buyin(10001, 20, 100).unwrap_err().to_string(),
        "Game logic error: Buy-in cannot exceed 100 big blinds"
    );
}

#[test]
fn error_texts() {
    assert_eq!(PokerError::network("down".to_string()).to_string(), "Network error: down");
    assert_eq!(
        PokerError::game_validation("buyin".to_string(), "-1".to_string()).to_string(),
        "Game validation failed for 'buyin': -1"
    );
    assert_eq!(PokerError::auth("no".to_string()).to_string(), "Authentication error: no");
    assert_eq!(
        PokerError::invalid_action("late".to_string()).to_string(),
        "Invalid action: late"
    );
    assert_eq!(
        PokerError::password_hash("salt".to_string()).to_string(),
        "Password hashing error: salt"
    );
    assert_eq!(PokerError::websocket("closed".to_string()).to_string(), "WebSocket error: closed");
    assert_eq!(
        PokerError::invalid_player_index(3, 1).to_string(),
        "Invalid player index 3 (max 1)"
    );
}

#[test]
fn message_shapes() {
    let m = ClientMessage::JoinTable { table_id: 3, buyin: 2000 };
    assert!(matches!(m, ClientMessage::JoinTable { table_id: 3, buyin: 2000 }));
    let s = ServerMessage::TopUpResponse {
        success: true,
        new_balance: Some(150),
        message: "ok".to_string(),
    };
    assert!(matches!(s.clone(), ServerMessage::TopUpResponse { new_balance: Some(150), .. }));
}
