//! Heads-up No Limit Texas Hold'em: the rules engine of a poker server.
//!
//! The library holds the verified core of the server: cards and decks,
//! the hand evaluator, the dealer and betting rules, the player, table and
//! game models, configuration and password/username policies.  Networking,
//! persistence and logging live in the application around it.

pub mod accounts;
pub mod config;
pub mod error;
pub mod game_logic;
pub mod models;
pub mod password_policy;
pub mod text;

pub use config::Config;
pub use error::PokerError;
