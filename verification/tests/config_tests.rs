use poker_server::config::Config;

#[test]
fn test_default_config() {
    let config = Config::default();
    assert_eq!(config.server_host, "127.0.0.1");
    assert_eq!(config.server_port, 8080);
    assert_eq!(config.small_blind, 50);
    assert_eq!(config.big_blind, 100);
}

#[test]
fn test_valid_config_passes_validation() {
    let config = Config {
        server_host: "0.0.0.0".to_string(),
        server_port: 9000,
        database_url: "sqlite:test.db".to_string(),
        max_tables: 10,
        disconnect_grace_period_secs: 60,
        small_blind: 25,
        big_blind: 50,
        min_buyin_bb: 20,
        max_buyin_bb: 200,
        faucet_amount: 500,
        starting_chips: 1000,
        db_max_connections: 20,
        db_timeout_secs: 60,
    };
    assert!(config.validate().is_ok());
}

#[test]
fn test_invalid_port_zero() {
    let config = Config {
        server_port: 0,
        ..Default::default()
    };
    assert!(config.validate().is_err());
}

#[test]
fn test_invalid_max_tables_zero() {
    let config = Config {
        max_tables: 0,
        ..Default::default()
    };
    assert!(config.validate().is_err());
}

#[test]
fn test_negative_small_blind() {
    let config = Config {
        small_blind: -10,
        ..Default::default()
    };
    assert!(config.validate().is_err());
}

#[test]
fn test_negative_big_blind() {
    let config = Config {
        big_blind: -10,
        ..Default::default()
    };
    assert!(config.validate().is_err());
}

#[test]
fn test_big_blind_less_than_small_blind() {
    let config = Config {
        big_blind: 25,
        small_blind: 50,
        ..Default::default()
    };
    assert!(config.validate().is_err());
}

#[test]
fn test_max_buyin_less_than_min_buyin() {
    let config = Config {
        min_buyin_bb: 100,
        max_buyin_bb: 50,
        ..Default::default()
    };
    assert!(config.validate().is_err());
}

#[test]
fn test_negative_faucet_amount() {
    let config = Config {
        faucet_amount: -100,
        ..Default::default()
    };
    assert!(config.validate().is_err());
}

#[test]
fn test_negative_starting_chips() {
    let config = Config {
        starting_chips: -500,
        ..Default::default()
    };
    assert!(config.validate().is_err());
}

#[test]
fn test_overflow_detection() {
    let config = Config {
        big_blind: i64::MAX / 2,
        max_buyin_bb: 3,
        ..Default::default()
    };
    assert!(config.validate().is_err());
}

#[test]
fn test_zero_disconnect_grace_period() {
    let config = Config {
        disconnect_grace_period_secs: 0,
        ..Default::default()
    };
    assert!(config.validate().is_err());
}

#[test]
fn test_zero_db_connections() {
    let config = Config {
        db_max_connections: 0,
        ..Default::default()
    };
    assert!(config.validate().is_err());
}

#[test]
fn test_zero_db_timeout() {
    let config = Config {
        db_timeout_secs: 0,
        ..Default::default()
    };
    assert!(config.validate().is_err());
}
