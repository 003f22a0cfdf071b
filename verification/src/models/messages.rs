//! The messages exchanged between a client and the server.
//!
//! These are the plain shapes of the protocol; their wire encoding belongs
//! to the application that carries them.

use vstd::prelude::*;

use crate::models::card::Card;
use crate::models::game::{GameStage, PlayerAction, PlayerGameState};

verus! {

/// A request sent by a client.
#[derive(Debug, Clone)]
pub enum ClientMessage {
    Signup { username: String, password: String },
    Login { username: String, password: String },
    CreateTable { name: String },
    JoinTable { table_id: i64, buyin: i64 },
    LeaveTable,
    GameAction { action: PlayerAction },
    TopUp,
    Ping,
}

/// A message sent by the server to a client.
#[derive(Debug, Clone)]
pub enum ServerMessage {
    SignupResponse { success: bool, message: String, player_id: Option<i64> },
    LoginResponse { success: bool, message: String, player_id: Option<i64>, chips: Option<i64> },
    TableCreated { table_id: i64, name: String },
    TableJoined { table_id: i64, seat_index: usize },
    TableLeft { table_id: i64 },
    GameStarted { hand_number: u64 },
    GameStateUpdate {
        stage: GameStage,
        players: Vec<PlayerGameState>,
        community_cards: Vec<Card>,
        pot: i64,
        current_bet: i64,
        current_player_index: Option<usize>,
    },
    HoleCards { cards: Vec<Card> },
    ActionRequired { valid_actions: Vec<String>, min_raise: Option<i64>, max_raise: Option<i64> },
    PlayerAction { player_id: i64, username: String, action: PlayerAction },
    HandResult { winner_id: i64, winner_username: String, winning_hand: String, pot_won: i64 },
    TopUpResponse { success: bool, new_balance: Option<i64>, message: String },
    OpponentDisconnected { grace_period_secs: u64 },
    OpponentReconnected,
    Error { message: String },
    Pong,
}

} // verus!
