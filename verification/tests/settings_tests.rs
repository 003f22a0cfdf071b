use poker_server::config::{Config, ConfigError};
use poker_server::error::PokerError;
use poker_server::text::{parse_int, IntErrorKind};

fn env(pairs: &[(&str, &str)]) -> Vec<(String, String)> {
    pairs.iter().map(|(k, v)| (k.to_string(), v.to_string())).collect()
}

fn game_message(e: PokerError) -> String {
    match e {
        PokerError::Game { message } => message,
        other => panic!("unexpected error {:?}", other),
    }
}

#[test]
fn defaults_are_valid() {
    assert!(Config::default().validate().is_ok());
}

#[test]
fn empty_environment_gives_defaults() {
    let config = Config::from_env(&env(&[("PATH", "/usr/bin"), ("HOME", "/root")])).unwrap();
    let default = Config::default();
    assert_eq!(config.server_host, default.server_host);
    assert_eq!(config.server_port, default.server_port);
    assert_eq!(config.database_url, default.database_url);
    assert_eq!(config.max_tables, 5);
    assert_eq!(config.disconnect_grace_period_secs, 30);
    assert_eq!(config.small_blind, 50);
    assert_eq!(config.big_blind, 100);
    assert_eq!(config.min_buyin_bb, 20);
    assert_eq!(config.max_buyin_bb, 100);
    assert_eq!(config.faucet_amount, 100);
    assert_eq!(config.starting_chips, 100);
    assert_eq!(config.db_max_connections, 10);
    assert_eq!(config.db_timeout_secs, 30);
}

#[test]
fn environment_values_are_read() {
    let config = Config::from_env(&env(&[
        ("POKER_SERVER_HOST", "0.0.0.0"),
        ("POKER_SERVER_PORT", "9000"),
        ("POKER_DATABASE_URL", "sqlite:other.db"),
        ("POKER_SMALL_BLIND", "+25"),
        ("POKER_BIG_BLIND", "50"),
        ("POKER_MAX_TABLES", "007"),
    ]))
    .unwrap();
    assert_eq!(config.server_host, "0.0.0.0");
    assert_eq!(config.server_port, 9000);
    assert_eq!(config.database_url, "sqlite:other.db");
    assert_eq!(config.small_blind, 25);
    assert_eq!(config.big_blind, 50);
    assert_eq!(config.max_tables, 7);
}

#[test]
fn first_pair_of_a_name_wins() {
    let config = Config::from_env(&env(&[
        ("POKER_SERVER_PORT", "9001"),
        ("POKER_SERVER_PORT", "9002"),
    ]))
    .unwrap();
    assert_eq!(config.server_port, 9001);
}

#[test]
fn unparsable_value_is_reported() {
    let err = Config::from_env(&env(&[("POKER_SERVER_PORT", "80a")])).unwrap_err();
    assert_eq!(
        game_message(err),
        "Parse error for POKER_SERVER_PORT: Failed to parse '80a': invalid digit found in string"
    );
}

#[test]
fn out_of_range_value_is_reported() {
    let err = Config::from_env(&env(&[("POKER_SERVER_PORT", "80")])).unwrap_err();
    assert_eq!(
        game_message(err),
        "Out of range for POKER_SERVER_PORT: 80 is below minimum 1024"
    );
    let err = Config::from_env(&env(&[("POKER_MAX_TABLES", "101")])).unwrap_err();
    assert_eq!(
        game_message(err),
        "Out of range for POKER_MAX_TABLES: 101 exceeds maximum 100"
    );
    let err = Config::from_env(&env(&[("POKER_SMALL_BLIND", "-5")])).unwrap_err();
    assert_eq!(
        game_message(err),
        "Out of range for POKER_SMALL_BLIND: -5 is below minimum 1"
    );
}

#[test]
fn inconsistent_values_are_reported() {
    let err = Config::from_env(&env(&[("POKER_BIG_BLIND", "10")])).unwrap_err();
    assert_eq!(
        game_message(err),
        "Validation error: POKER_BIG_BLIND (10) must be >= POKER_SMALL_BLIND (50)"
    );
    let err = Config::from_env(&env(&[("POKER_MIN_BUYIN_BB", "200")])).unwrap_err();
    assert_eq!(
        game_message(err),
        "Validation error: POKER_MAX_BUYIN_BB (100) must be >= POKER_MIN_BUYIN_BB (200)"
    );
}

#[test]
fn validation_messages() {
    let config = Config {
        big_blind: i64::MAX / 2,
        min_buyin_bb: 1,
        max_buyin_bb: 3,
        ..Default::default()
    };
    assert_eq!(
        config.validate().unwrap_err().to_string(),
        format!(
            "Validation error: POKER_BIG_BLIND ({}) * POKER_MAX_BUYIN_BB (3) would overflow i64",
            i64::MAX / 2
        )
    );
    let config = Config {
        server_port: 0,
        ..Default::default()
    };
    assert_eq!(
        config.validate().unwrap_err().to_string(),
        "Validation error: POKER_SERVER_PORT must be in range 1-65535"
    );
}

#[test]
fn config_error_texts() {
    let e = ConfigError::InvalidValue {
        key: "K".to_string(),
        message: "m".to_string(),
    };
    assert_eq!(e.to_string(), "Invalid value for K: m");
    let e = ConfigError::ParseError {
        key: "K".to_string(),
        message: "m".to_string(),
    };
    assert_eq!(e.to_string(), "Parse error for K: m");
    let e = ConfigError::OutOfRange {
        key: "K".to_string(),
        message: "m".to_string(),
    };
    assert_eq!(e.to_string(), "Out of range for K: m");
    let e = ConfigError::ValidationError("m".to_string());
    assert_eq!(e.to_string(), "Validation error: m");
}

fn same_as_std_u16(s: &str) {
    let mine = parse_int(s, 0, u16::MAX as i128);
    match s.parse::<u16>() {
        Ok(v) => assert_eq!(mine, Ok(v as i128), "{s:?}"),
        Err(e) => assert_eq!(mine.unwrap_err().description(), e.to_string(), "{s:?}"),
    }
}

fn same_as_std_i64(s: &str) {
    let mine = parse_int(s, i64::MIN as i128, i64::MAX as i128);
    match s.parse::<i64>() {
        Ok(v) => assert_eq!(mine, Ok(v as i128), "{s:?}"),
        Err(e) => assert_eq!(mine.unwrap_err().description(), e.to_string(), "{s:?}"),
    }
}

#[test]
fn integer_reading_agrees_with_std() {
    let samples = [
        "", "+", "-", "0", "-0", "+7", "-7", "007", "65535", "65536", "99999x", "x99999", " 1",
        "1 ", "1_000", "12a", "6554x", "6553x", "65536x", "٣", "-9223372036854775808", "-9223372036854775809",
        "9223372036854775807", "9223372036854775808", "++1", "-+1",
    ];
    for s in samples {
        same_as_std_u16(s);
        same_as_std_i64(s);
    }
}

#[test]
fn integer_error_kinds() {
    assert_eq!(parse_int("", 0, 10), Err(IntErrorKind::Empty));
    assert_eq!(parse_int("-1", 0, 10), Err(IntErrorKind::InvalidDigit));
    assert_eq!(parse_int("11", 0, 10), Err(IntErrorKind::PosOverflow));
    assert_eq!(parse_int("-11", -10, 10), Err(IntErrorKind::NegOverflow));
    assert_eq!(parse_int("-10", -10, 10), Ok(-10));
}
