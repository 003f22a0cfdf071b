use poker_server::accounts::{
    account_insert_error, check_new_account, check_password, check_player_by_id,
    check_player_by_username, check_stat_deltas, chip_update_outcome, hash_password,
    validate_username,
};
use poker_server::error::PokerError;
use poker_server::models::player::Player;
use poker_server::password_policy::{validate_password, PasswordError};

fn text(r: Result<(), PokerError>) -> String {
    r.unwrap_err().to_string()
}

#[test]
fn username_rules() {
    assert!(validate_username("alice_01").is_ok());
    assert!(validate_username("Émile").is_ok());
    assert_eq!(
        text(validate_username("")),
        "Game logic error: Username must be between 3 and 20 characters"
    );
    assert_eq!(
        text(validate_username("ab")),
        "Game logic error: Username must be between 3 and 20 characters"
    );
    assert_eq!(
        text(validate_username("abcdefghijklmnopqrstu")),
        "Game logic error: Username must be between 3 and 20 characters"
    );
    assert_eq!(
        text(validate_username("123user")),
        "Game logic error: Username must start with a letter"
    );
    assert_eq!(
        text(validate_username("_user")),
        "Game logic error: Username must start with a letter"
    );
    assert_eq!(
        text(validate_username("bad name")),
        "Game logic error: Username can only contain letters, numbers, and underscores"
    );
    assert_eq!(
        text(validate_username("bad\u{200B}name")),
        "Game logic error: Username can only contain letters, numbers, and underscores"
    );
}

#[test]
fn new_account_checks_both() {
    assert!(check_new_account("testuser", "Password123").is_ok());
    assert_eq!(
        text(check_new_account("123user", "Password123")),
        "Game logic error: Username must start with a letter"
    );
    assert_eq!(
        text(check_new_account("testuser", "short")),
        "Game logic error: Password validation failed: Password length must be between 8 and 128 characters"
    );
    assert_eq!(
        text(check_new_account("testuser", "password123")),
        "Game logic error: Password validation failed: Password must contain at least one uppercase letter"
    );
}

#[test]
fn hashed_password_verifies() {
    let hash = hash_password("CorrectPass123").unwrap();
    assert!(hash.starts_with("$argon2"));
    let other = hash_password("CorrectPass123").unwrap();
    assert_ne!(hash, other);
    let player = Player::new(1, "user1".to_string(), hash, 100);
    let found = check_password(player.clone(), "CorrectPass123").unwrap();
    assert_eq!(found.map(|p| p.id), Some(1));
    assert!(check_password(player, "wrongpass").unwrap().is_none());
}

#[test]
fn malformed_hash_is_an_auth_error() {
    let player = Player::new(1, "user1".to_string(), "not a hash".to_string(), 100);
    let err = check_password(player, "whatever").unwrap_err();
    match err {
        PokerError::Auth { reason } => assert!(reason.starts_with("Invalid password hash format: ")),
        other => panic!("unexpected error {:?}", other),
    }
}

#[test]
fn insert_errors() {
    assert_eq!(
        account_insert_error("bob", true, "ignored").to_string(),
        "Game logic error: Username 'bob' is already taken"
    );
    assert_eq!(
        account_insert_error("bob", false, "disk full").to_string(),
        "Game logic error: Failed to create player: disk full"
    );
}

#[test]
fn stored_rows_are_checked() {
    let good = Player::new(4, "dana".to_string(), "h".to_string(), 20);
    assert_eq!(check_player_by_id(4, Some(good.clone())).unwrap().map(|p| p.chips), Some(20));
    assert!(check_player_by_username("dana", None).unwrap().is_none());
    let mut bad = good.clone();
    bad.chips = -3;
    assert_eq!(
        check_player_by_username("dana", Some(bad.clone())).unwrap_err().to_string(),
        "Game logic error: Data corruption: player 'dana' has negative chips: -3"
    );
    assert_eq!(
        check_player_by_id(4, Some(bad)).unwrap_err().to_string(),
        "Game logic error: Data corruption: player ID 4 has negative chips: -3"
    );
}

#[test]
fn update_outcomes() {
    assert!(chip_update_outcome(1).is_ok());
    assert_eq!(
        text(chip_update_outcome(0)),
        "Game logic error: Insufficient chips or player not found"
    );
    assert!(check_stat_deltas(5, 2).is_ok());
    assert_eq!(
        text(check_stat_deltas(-1, 0)),
        "Game logic error: Stat deltas cannot be negative"
    );
    assert_eq!(
        text(check_stat_deltas(0, -1)),
        "Game logic error: Stat deltas cannot be negative"
    );
}

#[test]
fn unicode_letters_count() {
    assert!(validate_password("ÄÖÜäöü12").is_ok());
    assert_eq!(validate_password("ÄÖÜÄÖÜ12"), Err(PasswordError::MissingLowercase));
    assert_eq!(
        PasswordError::InvalidLength { min: 8, max: 128 }.to_string(),
        "Password length must be between 8 and 128 characters"
    );
    assert_eq!(PasswordError::TooWeak.to_string(), "Password is too weak");
    assert_eq!(
        validate_password("短1Aa"),
        Err(PasswordError::InvalidLength { min: 8, max: 128 })
    );
    assert!(validate_password("ab1Aéééé").is_ok());
}

#[test]
fn lengths_count_characters() {
    assert_eq!(
        validate_password("€€€"),
        Err(PasswordError::InvalidLength { min: 8, max: 128 })
    );
    assert!(validate_password("Ab1€€€€€").is_ok());
    let long = "é".repeat(129);
    assert_eq!(
        validate_password(&long),
        Err(PasswordError::InvalidLength { min: 8, max: 128 })
    );
    assert!(validate_username(&"é".repeat(11)).is_ok());
    assert!(validate_username(&"é".repeat(20)).is_ok());
    assert_eq!(
        text(validate_username(&"é".repeat(21))),
        "Game logic error: Username must be between 3 and 20 characters"
    );
    assert_eq!(
        text(validate_username("é\u{7f}e")),
        "Game logic error: Username can only contain letters, numbers, and underscores"
    );
}

#[test]
fn new_account_hash_verifies() {
    let hash = poker_server::accounts::prepare_new_account("newuser", "Password123").unwrap();
    assert!(hash.starts_with("$argon2id$v=19$"));
    let player = Player::new(9, "newuser".to_string(), hash, 100);
    assert!(check_password(player, "Password123").unwrap().is_some());
}
