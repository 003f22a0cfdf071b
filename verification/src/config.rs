//! Server configuration: defaults, reading settings from the environment's
//! values, and the consistency rules a configuration must meet.

use vstd::prelude::*;

use crate::error::{ErrorView, PokerError};
use crate::text::{decimal, int_error_text, int_to_string, parse_int, parse_int_spec};

verus! {

/// Server configuration.
#[derive(Debug, Clone)]
pub struct Config {
    /// Server listening address
    pub server_host: String,
    /// Server listening port
    pub server_port: u16,
    /// Database connection URL
    pub database_url: String,
    /// Maximum number of concurrent tables
    pub max_tables: usize,
    /// Grace period in seconds before auto-fold on disconnect
    pub disconnect_grace_period_secs: u64,
    /// Small blind amount in chips
    pub small_blind: i64,
    /// Big blind amount in chips
    pub big_blind: i64,
    /// Minimum buy-in in big blinds
    pub min_buyin_bb: u32,
    /// Maximum buy-in in big blinds
    pub max_buyin_bb: u32,
    /// Amount to top-up when using the faucet
    pub faucet_amount: i64,
    /// Starting chips for new players
    pub starting_chips: i64,
    /// Maximum database connections in pool
    pub db_max_connections: u32,
    /// Database connection timeout in seconds
    pub db_timeout_secs: u64,
}

/// The mathematical content of a `Config`: its texts and its numbers.
#[verifier::ext_equal]
pub struct ConfigView {
    pub server_host: Seq<char>,
    pub database_url: Seq<char>,
    pub server_port: int,
    pub max_tables: int,
    pub disconnect_grace_period_secs: int,
    pub small_blind: int,
    pub big_blind: int,
    pub min_buyin_bb: int,
    pub max_buyin_bb: int,
    pub faucet_amount: int,
    pub starting_chips: int,
    pub db_max_connections: int,
    pub db_timeout_secs: int,
}

impl View for Config {
    type V = ConfigView;

    open spec fn view(&self) -> ConfigView {
        ConfigView {
            server_host: self.server_host@,
            database_url: self.database_url@,
            server_port: self.server_port as int,
            max_tables: self.max_tables as int,
            disconnect_grace_period_secs: self.disconnect_grace_period_secs as int,
            small_blind: self.small_blind as int,
            big_blind: self.big_blind as int,
            min_buyin_bb: self.min_buyin_bb as int,
            max_buyin_bb: self.max_buyin_bb as int,
            faucet_amount: self.faucet_amount as int,
            starting_chips: self.starting_chips as int,
            db_max_connections: self.db_max_connections as int,
            db_timeout_secs: self.db_timeout_secs as int,
        }
    }
}

/// Configuration errors.
#[derive(Debug)]
pub enum ConfigError {
    InvalidValue { key: String, message: String },
    ParseError { key: String, message: String },
    OutOfRange { key: String, message: String },
    ValidationError(String),
}

/// The mathematical content of a `ConfigError`.
pub enum ConfigErrorView {
    InvalidValue(Seq<char>, Seq<char>),
    ParseError(Seq<char>, Seq<char>),
    OutOfRange(Seq<char>, Seq<char>),
    ValidationError(Seq<char>),
}

impl View for ConfigError {
    type V = ConfigErrorView;

    open spec fn view(&self) -> ConfigErrorView {
        match self {
            ConfigError::InvalidValue { key, message } => ConfigErrorView::InvalidValue(
                key@,
                message@,
            ),
            ConfigError::ParseError { key, message } => ConfigErrorView::ParseError(
                key@,
                message@,
            ),
            ConfigError::OutOfRange { key, message } => ConfigErrorView::OutOfRange(
                key@,
                message@,
            ),
            ConfigError::ValidationError(message) => ConfigErrorView::ValidationError(message@),
        }
    }
}

/// The displayed text of a configuration error.
pub open spec fn config_error_text(e: ConfigErrorView) -> Seq<char> {
    match e {
        ConfigErrorView::InvalidValue(key, message) => "Invalid value for "@ + key + ": "@
            + message,
        ConfigErrorView::ParseError(key, message) => "Parse error for "@ + key + ": "@ + message,
        ConfigErrorView::OutOfRange(key, message) => "Out of range for "@ + key + ": "@ + message,
        ConfigErrorView::ValidationError(message) => "Validation error: "@ + message,
    }
}

impl ConfigError {
    fn parse_owned(key: &str, message: String) -> (e: Self)
        ensures
            e@ == ConfigErrorView::ParseError(key@, message@),
    {
        ConfigError::ParseError { key: String::from_str(key), message }
    }

    fn out_of_range_owned(key: &str, message: String) -> (e: Self)
        ensures
            e@ == ConfigErrorView::OutOfRange(key@, message@),
    {
        ConfigError::OutOfRange { key: String::from_str(key), message }
    }

    fn validation(message: &str) -> (e: Self)
        ensures
            e@ == ConfigErrorView::ValidationError(message@),
    {
        ConfigError::ValidationError(String::from_str(message))
    }

    fn validation_owned(message: String) -> (e: Self)
        ensures
            e@ == ConfigErrorView::ValidationError(message@),
    {
        ConfigError::ValidationError(message)
    }

    /// The displayed text of this error.
    pub fn to_string(&self) -> (s: String)
        ensures
            s@ == config_error_text(self@),
    {
        let (mut text, key, message) = match self {
            ConfigError::InvalidValue { key, message } => (
                String::from_str("Invalid value for "),
                key,
                message,
            ),
            ConfigError::ParseError { key, message } => (
                String::from_str("Parse error for "),
                key,
                message,
            ),
            ConfigError::OutOfRange { key, message } => (
                String::from_str("Out of range for "),
                key,
                message,
            ),
            ConfigError::ValidationError(message) => {
                let mut text = String::from_str("Validation error: ");
                text.append(message.as_str());
                return text;
            },
        };
        text.append(key.as_str());
        text.append(": ");
        text.append(message.as_str());
        text
    }
}

/// The configuration used where the environment sets nothing.
pub open spec fn default_config() -> ConfigView {
    ConfigView {
        server_host: "127.0.0.1"@,
        database_url: "sqlite:poker.db"@,
        server_port: 8080,
        max_tables: 5,
        disconnect_grace_period_secs: 30,
        small_blind: 50,
        big_blind: 100,
        min_buyin_bb: 20,
        max_buyin_bb: 100,
        faucet_amount: 100,
        starting_chips: 100,
        db_max_connections: 10,
        db_timeout_secs: 30,
    }
}

impl Default for Config {
    fn default() -> (c: Self)
        ensures
            c@ == default_config(),
    {
        Config {
            server_host: String::from_str("127.0.0.1"),
            server_port: 8080,
            database_url: String::from_str("sqlite:poker.db"),
            max_tables: 5,
            disconnect_grace_period_secs: 30,
            small_blind: 50,
            big_blind: 100,
            min_buyin_bb: 20,
            max_buyin_bb: 100,
            faucet_amount: 100,
            starting_chips: 100,
            db_max_connections: 10,
            db_timeout_secs: 30,
        }
    }
}

/// The value the environment gives `key`: the first pair named `key`.
pub open spec fn env_lookup(vars: Seq<(String, String)>, key: Seq<char>) -> Option<Seq<char>>
    decreases vars.len(),
{
    if vars.len() == 0 {
        None
    } else if vars[0].0@ == key {
        Some(vars[0].1@)
    } else {
        env_lookup(vars.drop_first(), key)
    }
}

/// A numeric setting of an integer type whose values are `type_lo..=type_hi`:
/// `default` where the environment leaves it unset, else its parsed value,
/// which must lie in `min..=max`.
pub open spec fn setting_spec(
    value: Option<Seq<char>>,
    key: Seq<char>,
    default: int,
    type_lo: int,
    type_hi: int,
    min: int,
    max: int,
) -> Result<int, ConfigErrorView> {
    match value {
        None => Ok(default),
        Some(text) => match parse_int_spec(text, type_lo, type_hi) {
            Err(kind) => Err(
                ConfigErrorView::ParseError(
                    key,
                    "Failed to parse '"@ + text + "': "@ + int_error_text(kind),
                ),
            ),
            Ok(v) => if v < min {
                Err(
                    ConfigErrorView::OutOfRange(
                        key,
                        decimal(v) + " is below minimum "@ + decimal(min),
                    ),
                )
            } else if v > max {
                Err(ConfigErrorView::OutOfRange(key, decimal(v) + " exceeds maximum "@ + decimal(max)))
            } else {
                Ok(v)
            },
        },
    }
}

/// The configuration that the environment's values describe, before the
/// consistency rules: each setting in turn, the first failing one reported.
pub open spec fn env_config(vars: Seq<(String, String)>) -> Result<ConfigView, ConfigErrorView> {
    let server_port = setting_spec(
        env_lookup(vars, "POKER_SERVER_PORT"@),
        "POKER_SERVER_PORT"@,
        8080,
        0 as int,
        u16::MAX as int,
        1024,
        65535,
    );
    let max_tables = setting_spec(
        env_lookup(vars, "POKER_MAX_TABLES"@),
        "POKER_MAX_TABLES"@,
        5,
        0 as int,
        usize::MAX as int,
        1,
        100,
    );
    let disconnect_grace_period_secs = setting_spec(
        env_lookup(vars, "POKER_DISCONNECT_GRACE_SECS"@),
        "POKER_DISCONNECT_GRACE_SECS"@,
        30,
        0 as int,
        u64::MAX as int,
        1,
        3600,
    );
    let small_blind = setting_spec(
        env_lookup(vars, "POKER_SMALL_BLIND"@),
        "POKER_SMALL_BLIND"@,
        50,
        i64::MIN as int,
        i64::MAX as int,
        1,
        10000,
    );
    let big_blind = setting_spec(
        env_lookup(vars, "POKER_BIG_BLIND"@),
        "POKER_BIG_BLIND"@,
        100,
        i64::MIN as int,
        i64::MAX as int,
        1,
        10000,
    );
    let min_buyin_bb = setting_spec(
        env_lookup(vars, "POKER_MIN_BUYIN_BB"@),
        "POKER_MIN_BUYIN_BB"@,
        20,
        0 as int,
        u32::MAX as int,
        1,
        1000,
    );
    let max_buyin_bb = setting_spec(
        env_lookup(vars, "POKER_MAX_BUYIN_BB"@),
        "POKER_MAX_BUYIN_BB"@,
        100,
        0 as int,
        u32::MAX as int,
        1,
        1000,
    );
    let faucet_amount = setting_spec(
        env_lookup(vars, "POKER_FAUCET_AMOUNT"@),
        "POKER_FAUCET_AMOUNT"@,
        100,
        i64::MIN as int,
        i64::MAX as int,
        1,
        100_000,
    );
    let starting_chips = setting_spec(
        env_lookup(vars, "POKER_STARTING_CHIPS"@),
        "POKER_STARTING_CHIPS"@,
        100,
        i64::MIN as int,
        i64::MAX as int,
        1,
        100_000,
    );
    let db_max_connections = setting_spec(
        env_lookup(vars, "POKER_DB_MAX_CONNECTIONS"@),
        "POKER_DB_MAX_CONNECTIONS"@,
        10,
        0 as int,
        u32::MAX as int,
        1,
        100,
    );
    let db_timeout_secs = setting_spec(
        env_lookup(vars, "POKER_DB_TIMEOUT_SECS"@),
        "POKER_DB_TIMEOUT_SECS"@,
        30,
        0 as int,
        u64::MAX as int,
        1,
        300,
    );
    if server_port is Err {
        Err(server_port->Err_0)
    } else if max_tables is Err {
        Err(max_tables->Err_0)
    } else if disconnect_grace_period_secs is Err {
        Err(disconnect_grace_period_secs->Err_0)
    } else if small_blind is Err {
        Err(small_blind->Err_0)
    } else if big_blind is Err {
        Err(big_blind->Err_0)
    } else if min_buyin_bb is Err {
        Err(min_buyin_bb->Err_0)
    } else if max_buyin_bb is Err {
        Err(max_buyin_bb->Err_0)
    } else if faucet_amount is Err {
        Err(faucet_amount->Err_0)
    } else if starting_chips is Err {
        Err(starting_chips->Err_0)
    } else if db_max_connections is Err {
        Err(db_max_connections->Err_0)
    } else if db_timeout_secs is Err {
        Err(db_timeout_secs->Err_0)
    } else {
        Ok(
            ConfigView {
                server_host: match env_lookup(vars, "POKER_SERVER_HOST"@) {
                    Some(v) => v,
                    None => "127.0.0.1"@,
                },
                database_url: match env_lookup(vars, "POKER_DATABASE_URL"@) {
                    Some(v) => v,
                    None => "sqlite:poker.db"@,
                },
                server_port: server_port->Ok_0,
                max_tables: max_tables->Ok_0,
                disconnect_grace_period_secs: disconnect_grace_period_secs->Ok_0,
                small_blind: small_blind->Ok_0,
                big_blind: big_blind->Ok_0,
                min_buyin_bb: min_buyin_bb->Ok_0,
                max_buyin_bb: max_buyin_bb->Ok_0,
                faucet_amount: faucet_amount->Ok_0,
                starting_chips: starting_chips->Ok_0,
                db_max_connections: db_max_connections->Ok_0,
                db_timeout_secs: db_timeout_secs->Ok_0,
            },
        )
    }
}

/// The consistency rules of a configuration, checked in order; the first
/// one broken is reported.
pub open spec fn validate_spec(c: ConfigView) -> Result<(), ConfigErrorView> {
    if c.server_port == 0 {
        Err(ConfigErrorView::ValidationError("POKER_SERVER_PORT must be in range 1-65535"@))
    } else if c.max_tables == 0 {
        Err(ConfigErrorView::ValidationError("POKER_MAX_TABLES must be at least 1"@))
    } else if c.small_blind <= 0 {
        Err(ConfigErrorView::ValidationError("POKER_SMALL_BLIND must be a positive number"@))
    } else if c.big_blind <= 0 {
        Err(ConfigErrorView::ValidationError("POKER_BIG_BLIND must be a positive number"@))
    } else if c.big_blind < c.small_blind {
        Err(
            ConfigErrorView::ValidationError(
                "POKER_BIG_BLIND ("@ + decimal(c.big_blind) + ") must be >= POKER_SMALL_BLIND ("@
                    + decimal(c.small_blind) + ")"@,
            ),
        )
    } else if c.min_buyin_bb == 0 {
        Err(ConfigErrorView::ValidationError("POKER_MIN_BUYIN_BB must be at least 1 big blind"@))
    } else if c.max_buyin_bb < c.min_buyin_bb {
        Err(
            ConfigErrorView::ValidationError(
                "POKER_MAX_BUYIN_BB ("@ + decimal(c.max_buyin_bb) + ") must be >= POKER_MIN_BUYIN_BB ("@
                    + decimal(c.min_buyin_bb) + ")"@,
            ),
        )
    } else if c.faucet_amount <= 0 {
        Err(ConfigErrorView::ValidationError("POKER_FAUCET_AMOUNT must be a positive number"@))
    } else if c.starting_chips <= 0 {
        Err(ConfigErrorView::ValidationError("POKER_STARTING_CHIPS must be a positive number"@))
    } else if c.disconnect_grace_period_secs == 0 {
        Err(
            ConfigErrorView::ValidationError(
                "POKER_DISCONNECT_GRACE_SECS must be at least 1 second"@,
            ),
        )
    } else if c.db_max_connections == 0 {
        Err(ConfigErrorView::ValidationError("POKER_DB_MAX_CONNECTIONS must be at least 1"@))
    } else if c.db_timeout_secs == 0 {
        Err(ConfigErrorView::ValidationError("POKER_DB_TIMEOUT_SECS must be at least 1 second"@))
    } else if c.big_blind * c.max_buyin_bb > i64::MAX {
        Err(
            ConfigErrorView::ValidationError(
                "POKER_BIG_BLIND ("@ + decimal(c.big_blind) + ") * POKER_MAX_BUYIN_BB ("@ + decimal(
                    c.max_buyin_bb,
                ) + ") would overflow i64"@,
            ),
        )
    } else {
        Ok(())
    }
}

/// The view of a `validate` result.
pub open spec fn validation_view(r: Result<(), ConfigError>) -> Result<(), ConfigErrorView> {
    match r {
        Ok(_) => Ok(()),
        Err(e) => Err(e@),
    }
}

/// The view of a numeric setting's result.
pub open spec fn setting_view(r: Result<i128, ConfigError>) -> Result<int, ConfigErrorView> {
    match r {
        Ok(v) => Ok(v as int),
        Err(e) => Err(e@),
    }
}

impl Config {
    /// Builds the configuration from the environment's `(name, value)` pairs
    /// and checks it with `validate`.
    ///
    /// Settings and defaults:
    ///
    /// - `POKER_SERVER_HOST` - Server address (default: "127.0.0.1")
    /// - `POKER_SERVER_PORT` - Server port, 1024..=65535 (default: 8080)
    /// - `POKER_DATABASE_URL` - Database connection string (default: "sqlite:poker.db")
    /// - `POKER_MAX_TABLES` - Maximum concurrent tables, 1..=100 (default: 5)
    /// - `POKER_DISCONNECT_GRACE_SECS` - Disconnect grace period, 1..=3600 (default: 30)
    /// - `POKER_SMALL_BLIND` - Small blind amount, 1..=10000 (default: 50)
    /// - `POKER_BIG_BLIND` - Big blind amount, 1..=10000 (default: 100)
    /// - `POKER_MIN_BUYIN_BB` - Minimum buy-in in big blinds, 1..=1000 (default: 20)
    /// - `POKER_MAX_BUYIN_BB` - Maximum buy-in in big blinds, 1..=1000 (default: 100)
    /// - `POKER_FAUCET_AMOUNT` - Top-up amount, 1..=100000 (default: 100)
    /// - `POKER_STARTING_CHIPS` - Starting chips for new players, 1..=100000 (default: 100)
    /// - `POKER_DB_MAX_CONNECTIONS` - Database pool size, 1..=100 (default: 10)
    /// - `POKER_DB_TIMEOUT_SECS` - Database timeout, 1..=300 (default: 30)
    ///
    /// Every failure is a `PokerError::Game` carrying the configuration
    /// error's text.
    pub fn from_env(vars: &Vec<(String, String)>) -> (r: Result<Self, PokerError>)
        ensures
            match env_config(vars@) {
                Err(e) => r matches Err(pe) && pe@ == ErrorView::Game(config_error_text(e)),
                Ok(c) => match validate_spec(c) {
                    Err(e) => r matches Err(pe) && pe@ == ErrorView::Game(config_error_text(e)),
                    Ok(_) => r matches Ok(cfg) && cfg@ == c,
                },
            },
            r matches Ok(cfg) ==> validate_spec(cfg@) is Ok,
    {
        let server_host = Self::get_env_string(vars, "POKER_SERVER_HOST", "127.0.0.1");
        let server_port: u16 = match Self::get_env(
            vars,
            "POKER_SERVER_PORT",
            8080,
            0 as i128,
            u16::MAX as i128,
            1024,
            65535,
        ) {
            Ok(v) => v as u16,
            Err(e) => return Err(PokerError::game(e.to_string())),
        };
        let database_url = Self::get_env_string(vars, "POKER_DATABASE_URL", "sqlite:poker.db");
        let max_tables: usize = match Self::get_env(
            vars,
            "POKER_MAX_TABLES",
            5,
            0 as i128,
            usize::MAX as i128,
            1,
            100,
        ) {
            Ok(v) => v as usize,
            Err(e) => return Err(PokerError::game(e.to_string())),
        };
        let disconnect_grace_period_secs: u64 = match Self::get_env(
            vars,
            "POKER_DISCONNECT_GRACE_SECS",
            30,
            0 as i128,
            u64::MAX as i128,
            1,
            3600,
        ) {
            Ok(v) => v as u64,
            Err(e) => return Err(PokerError::game(e.to_string())),
        };
        let small_blind: i64 = match Self::get_env(
            vars,
            "POKER_SMALL_BLIND",
            50,
            i64::MIN as i128,
            i64::MAX as i128,
            1,
            10000,
        ) {
            Ok(v) => v as i64,
            Err(e) => return Err(PokerError::game(e.to_string())),
        };
        let big_blind: i64 = match Self::get_env(
            vars,
            "POKER_BIG_BLIND",
            100,
            i64::MIN as i128,
            i64::MAX as i128,
            1,
            10000,
        ) {
            Ok(v) => v as i64,
            Err(e) => return Err(PokerError::game(e.to_string())),
        };
        let min_buyin_bb: u32 = match Self::get_env(
            vars,
            "POKER_MIN_BUYIN_BB",
            20,
            0 as i128,
            u32::MAX as i128,
            1,
            1000,
        ) {
            Ok(v) => v as u32,
            Err(e) => return Err(PokerError::game(e.to_string())),
        };
        let max_buyin_bb: u32 = match Self::get_env(
            vars,
            "POKER_MAX_BUYIN_BB",
            100,
            0 as i128,
            u32::MAX as i128,
            1,
            1000,
        ) {
            Ok(v) => v as u32,
            Err(e) => return Err(PokerError::game(e.to_string())),
        };
        let faucet_amount: i64 = match Self::get_env(
            vars,
            "POKER_FAUCET_AMOUNT",
            100,
            i64::MIN as i128,
            i64::MAX as i128,
            1,
            100_000,
        ) {
            Ok(v) => v as i64,
            Err(e) => return Err(PokerError::game(e.to_string())),
        };
        let starting_chips: i64 = match Self::get_env(
            vars,
            "POKER_STARTING_CHIPS",
            100,
            i64::MIN as i128,
            i64::MAX as i128,
            1,
            100_000,
        ) {
            Ok(v) => v as i64,
            Err(e) => return Err(PokerError::game(e.to_string())),
        };
        let db_max_connections: u32 = match Self::get_env(
            vars,
            "POKER_DB_MAX_CONNECTIONS",
            10,
            0 as i128,
            u32::MAX as i128,
            1,
            100,
        ) {
            Ok(v) => v as u32,
            Err(e) => return Err(PokerError::game(e.to_string())),
        };
        let db_timeout_secs: u64 = match Self::get_env(
            vars,
            "POKER_DB_TIMEOUT_SECS",
            30,
            0 as i128,
            u64::MAX as i128,
            1,
            300,
        ) {
            Ok(v) => v as u64,
            Err(e) => return Err(PokerError::game(e.to_string())),
        };
        let config = Config {
            server_host,
            server_port,
            database_url,
            max_tables,
            disconnect_grace_period_secs,
            small_blind,
            big_blind,
            min_buyin_bb,
            max_buyin_bb,
            faucet_amount,
            starting_chips,
            db_max_connections,
            db_timeout_secs,
        };
        match config.validate() {
            Ok(()) => Ok(config),
            Err(e) => Err(PokerError::game(e.to_string())),
        }
    }

    /// The value the environment gives `key`, or `default`.
    fn get_env_string(vars: &Vec<(String, String)>, key: &str, default: &str) -> (s: String)
        ensures
            s@ == match env_lookup(vars@, key@) {
                Some(v) => v,
                None => default@,
            },
    {
        match Self::lookup(vars, key) {
            Some(i) => vars[i].1.clone(),
            None => String::from_str(default),
        }
    }

    /// The index of the first pair named `key`, if any.
    fn lookup(vars: &Vec<(String, String)>, key: &str) -> (found: Option<usize>)
        ensures
            match found {
                Some(i) => i < vars.len() && env_lookup(vars@, key@) == Some(vars@[i as int].1@),
                None => env_lookup(vars@, key@) is None,
            },
    {
        let wanted = String::from_str(key);
        let mut i: usize = 0;
        proof {
            assert(vars@.subrange(0, vars.len() as int) =~= vars@);
        }
        while i < vars.len()
            invariant
                i <= vars.len(),
                wanted@ == key@,
                env_lookup(vars@, key@) == env_lookup(vars@.subrange(i as int, vars.len() as int), key@),
            decreases vars.len() - i,
        {
            let ghost rest = vars@.subrange(i as int, vars.len() as int);
            proof {
                assert(rest.drop_first() =~= vars@.subrange(i + 1, vars.len() as int));
            }
            if vars[i].0 == wanted {
                return Some(i);
            }
            i = i + 1;
        }
        None
    }

    /// A numeric setting of an integer type whose values are
    /// `type_lo..=type_hi`, with its default and its allowed range.
    fn get_env(
        vars: &Vec<(String, String)>,
        key: &str,
        default: i128,
        type_lo: i128,
        type_hi: i128,
        min: i128,
        max: i128,
    ) -> (r: Result<i128, ConfigError>)
        requires
            i64::MIN <= type_lo <= 0,
            0 <= type_hi <= u64::MAX,
            i64::MIN <= min,
            max <= u64::MAX,
        ensures
            setting_view(r) == setting_spec(
                env_lookup(vars@, key@),
                key@,
                default as int,
                type_lo as int,
                type_hi as int,
                min as int,
                max as int,
            ),
    {
        match Self::lookup(vars, key) {
            None => Ok(default),
            Some(i) => {
                let text = &vars[i].1;
                match parse_int(text.as_str(), type_lo, type_hi) {
                    Err(kind) => {
                        let mut message = String::from_str("Failed to parse '");
                        message.append(text.as_str());
                        message.append("': ");
                        message.append(kind.description().as_str());
                        Err(ConfigError::parse_owned(key, message))
                    },
                    Ok(value) => {
                        if value < min {
                            let mut message = int_to_string(value);
                            message.append(" is below minimum ");
                            message.append(int_to_string(min).as_str());
                            return Err(ConfigError::out_of_range_owned(key, message));
                        }
                        if value > max {
                            let mut message = int_to_string(value);
                            message.append(" exceeds maximum ");
                            message.append(int_to_string(max).as_str());
                            return Err(ConfigError::out_of_range_owned(key, message));
                        }
                        Ok(value)
                    },
                }
            },
        }
    }

    /// Checks the configuration for consistency: a non-zero port and table
    /// limit, positive blinds with the big blind at least the small one, a
    /// buy-in range of at least one big blind with its maximum at least its
    /// minimum, positive faucet and starting amounts, non-zero grace period,
    /// pool size and timeout, and a maximum buy-in in chips that fits `i64`.
    pub fn validate(&self) -> (r: Result<(), ConfigError>)
        ensures
            validation_view(r) == validate_spec(self@),
    {
        if self.server_port == 0 {
            return Err(ConfigError::validation("POKER_SERVER_PORT must be in range 1-65535"));
        }
        if self.max_tables == 0 {
            return Err(ConfigError::validation("POKER_MAX_TABLES must be at least 1"));
        }
        if self.small_blind <= 0 {
            return Err(ConfigError::validation("POKER_SMALL_BLIND must be a positive number"));
        }
        if self.big_blind <= 0 {
            return Err(ConfigError::validation("POKER_BIG_BLIND must be a positive number"));
        }
        if self.big_blind < self.small_blind {
            let mut message = String::from_str("POKER_BIG_BLIND (");
            message.append(int_to_string(self.big_blind as i128).as_str());
            message.append(") must be >= POKER_SMALL_BLIND (");
            message.append(int_to_string(self.small_blind as i128).as_str());
            message.append(")");
            return Err(ConfigError::validation_owned(message));
        }
        if self.min_buyin_bb == 0 {
            return Err(ConfigError::validation("POKER_MIN_BUYIN_BB must be at least 1 big blind"));
        }
        if self.max_buyin_bb < self.min_buyin_bb {
            let mut message = String::from_str("POKER_MAX_BUYIN_BB (");
            message.append(int_to_string(self.max_buyin_bb as i128).as_str());
            message.append(") must be >= POKER_MIN_BUYIN_BB (");
            message.append(int_to_string(self.min_buyin_bb as i128).as_str());
            message.append(")");
            return Err(ConfigError::validation_owned(message));
        }
        if self.faucet_amount <= 0 {
            return Err(ConfigError::validation("POKER_FAUCET_AMOUNT must be a positive number"));
        }
        if self.starting_chips <= 0 {
            return Err(ConfigError::validation("POKER_STARTING_CHIPS must be a positive number"));
        }
        if self.disconnect_grace_period_secs == 0 {
            return Err(
                ConfigError::validation("POKER_DISCONNECT_GRACE_SECS must be at least 1 second"),
            );
        }
        if self.db_max_connections == 0 {
            return Err(ConfigError::validation("POKER_DB_MAX_CONNECTIONS must be at least 1"));
        }
        if self.db_timeout_secs == 0 {
            return Err(ConfigError::validation("POKER_DB_TIMEOUT_SECS must be at least 1 second"));
        }
        if self.big_blind.checked_mul(self.max_buyin_bb as i64).is_none() {
            let mut message = String::from_str("POKER_BIG_BLIND (");
            message.append(int_to_string(self.big_blind as i128).as_str());
            message.append(") * POKER_MAX_BUYIN_BB (");
            message.append(int_to_string(self.max_buyin_bb as i128).as_str());
            message.append(") would overflow i64");
            return Err(ConfigError::validation_owned(message));
        }
        Ok(())
    }
}

/// The names of the settings that `Config::from_env` reads.
pub open spec fn config_keys() -> Seq<Seq<char>> {
    seq![
        "POKER_SERVER_HOST"@,
        "POKER_DATABASE_URL"@,
        "POKER_SERVER_PORT"@,
        "POKER_MAX_TABLES"@,
        "POKER_DISCONNECT_GRACE_SECS"@,
        "POKER_SMALL_BLIND"@,
        "POKER_BIG_BLIND"@,
        "POKER_MIN_BUYIN_BB"@,
        "POKER_MAX_BUYIN_BB"@,
        "POKER_FAUCET_AMOUNT"@,
        "POKER_STARTING_CHIPS"@,
        "POKER_DB_MAX_CONNECTIONS"@,
        "POKER_DB_TIMEOUT_SECS"@,
    ]
}

/// A name that no pair of `vars` carries is unset.
proof fn lemma_absent_key_unset(vars: Seq<(String, String)>, key: Seq<char>)
    requires
        forall|i: int| 0 <= i < vars.len() ==> vars[i].0@ != key,
    ensures
        env_lookup(vars, key) is None,
    decreases vars.len(),
{
    if vars.len() > 0 {
        assert(vars[0].0@ != key);
        lemma_absent_key_unset(vars.drop_first(), key);
    }
}

/// The defaults are a consistent configuration.
pub proof fn lemma_default_config_is_valid()
    ensures
        validate_spec(default_config()) is Ok,
{
}

/// An environment that sets none of the configuration's names describes
/// exactly the default configuration.
pub proof fn lemma_unset_env_gives_defaults(vars: Seq<(String, String)>)
    requires
        forall|i: int| 0 <= i < vars.len() ==> !config_keys().contains(#[trigger] vars[i].0@),
    ensures
        env_config(vars) == Ok::<ConfigView, ConfigErrorView>(default_config()),
{
    assert forall|k: int| 0 <= k < config_keys().len() implies env_lookup(
        vars,
        #[trigger] config_keys()[k],
    ) is None by {
        assert forall|i: int| 0 <= i < vars.len() implies vars[i].0@ != config_keys()[k] by {
            if vars[i].0@ == config_keys()[k] {
                assert(config_keys().contains(vars[i].0@));
            }
        }
        lemma_absent_key_unset(vars, config_keys()[k]);
    }
    assert(env_lookup(vars, config_keys()[0]) is None);
    assert(env_lookup(vars, config_keys()[1]) is None);
    assert(env_lookup(vars, config_keys()[2]) is None);
    assert(env_lookup(vars, config_keys()[3]) is None);
    assert(env_lookup(vars, config_keys()[4]) is None);
    assert(env_lookup(vars, config_keys()[5]) is None);
    assert(env_lookup(vars, config_keys()[6]) is None);
    assert(env_lookup(vars, config_keys()[7]) is None);
    assert(env_lookup(vars, config_keys()[8]) is None);
    assert(env_lookup(vars, config_keys()[9]) is None);
    assert(env_lookup(vars, config_keys()[10]) is None);
    assert(env_lookup(vars, config_keys()[11]) is None);
    assert(env_lookup(vars, config_keys()[12]) is None);
    assert(env_config(vars) =~= Ok::<ConfigView, ConfigErrorView>(default_config()));
}

} // verus!
