//! Core data models: cards, players, tables and game states.

pub mod card;
pub mod game;
pub mod messages;
pub mod player;
pub mod table;

pub use card::{Card, Deck, Rank, Suit};
pub use game::{GameStage, GameState, PlayerAction, PlayerGameState};
pub use messages::{ClientMessage, ServerMessage};
pub use player::{Player, PlayerSession};
pub use table::Table;
