//! Errors of the poker library.

use vstd::prelude::*;

use crate::text::{decimal, int_to_string};

verus! {

/// An error raised by the poker rules, the models or the account policies.
#[derive(Debug)]
pub enum PokerError {
    Network { message: String },
    Game { message: String },
    GameValidation { field: String, value: String },
    Auth { reason: String },
    InvalidAction { reason: String },
    PasswordHash { reason: String },
    WebSocket { reason: String },
    InvalidPlayerIndex { index: usize, max: usize },
}

/// The mathematical content of a `PokerError`: its variant and its text.
pub enum ErrorView {
    Network(Seq<char>),
    Game(Seq<char>),
    GameValidation(Seq<char>, Seq<char>),
    Auth(Seq<char>),
    InvalidAction(Seq<char>),
    PasswordHash(Seq<char>),
    WebSocket(Seq<char>),
    InvalidPlayerIndex(usize, usize),
}

impl View for PokerError {
    type V = ErrorView;

    open spec fn view(&self) -> ErrorView {
        match self {
            PokerError::Network { message } => ErrorView::Network(message@),
            PokerError::Game { message } => ErrorView::Game(message@),
            PokerError::GameValidation { field, value } => ErrorView::GameValidation(
                field@,
                value@,
            ),
            PokerError::Auth { reason } => ErrorView::Auth(reason@),
            PokerError::InvalidAction { reason } => ErrorView::InvalidAction(reason@),
            PokerError::PasswordHash { reason } => ErrorView::PasswordHash(reason@),
            PokerError::WebSocket { reason } => ErrorView::WebSocket(reason@),
            PokerError::InvalidPlayerIndex { index, max } => ErrorView::InvalidPlayerIndex(
                *index,
                *max,
            ),
        }
    }
}

/// The view of a `Result` whose error is a `PokerError`.
pub open spec fn result_view<T>(r: Result<T, PokerError>) -> Result<T, ErrorView> {
    match r {
        Ok(v) => Ok(v),
        Err(e) => Err(e@),
    }
}

/// The displayed text of an error.
pub open spec fn error_text(e: ErrorView) -> Seq<char> {
    match e {
        ErrorView::Network(message) => "Network error: "@ + message,
        ErrorView::Game(message) => "Game logic error: "@ + message,
        ErrorView::GameValidation(field, value) => "Game validation failed for '"@ + field + "': "@
            + value,
        ErrorView::Auth(reason) => "Authentication error: "@ + reason,
        ErrorView::InvalidAction(reason) => "Invalid action: "@ + reason,
        ErrorView::PasswordHash(reason) => "Password hashing error: "@ + reason,
        ErrorView::WebSocket(reason) => "WebSocket error: "@ + reason,
        ErrorView::InvalidPlayerIndex(index, max) => "Invalid player index "@ + decimal(
            index as int,
        ) + " (max "@ + decimal(max as int) + ")"@,
    }
}

impl PokerError {
    /// The displayed text of this error.
    pub fn to_string(&self) -> (s: String)
        ensures
            s@ == error_text(self@),
    {
        match self {
            PokerError::Network { message } => {
                let mut s = String::from_str("Network error: ");
                s.append(message.as_str());
                s
            },
            PokerError::Game { message } => {
                let mut s = String::from_str("Game logic error: ");
                s.append(message.as_str());
                s
            },
            PokerError::GameValidation { field, value } => {
                let mut s = String::from_str("Game validation failed for '");
                s.append(field.as_str());
                s.append("': ");
                s.append(value.as_str());
                s
            },
            PokerError::Auth { reason } => {
                let mut s = String::from_str("Authentication error: ");
                s.append(reason.as_str());
                s
            },
            PokerError::InvalidAction { reason } => {
                let mut s = String::from_str("Invalid action: ");
                s.append(reason.as_str());
                s
            },
            PokerError::PasswordHash { reason } => {
                let mut s = String::from_str("Password hashing error: ");
                s.append(reason.as_str());
                s
            },
            PokerError::WebSocket { reason } => {
                let mut s = String::from_str("WebSocket error: ");
                s.append(reason.as_str());
                s
            },
            PokerError::InvalidPlayerIndex { index, max } => {
                let mut s = String::from_str("Invalid player index ");
                s.append(int_to_string(*index as i128).as_str());
                s.append(" (max ");
                s.append(int_to_string(*max as i128).as_str());
                s.append(")");
                s
            },
        }
    }

    /// A network error with the given message.
    pub fn network(message: String) -> (e: Self)
        ensures
            e@ == ErrorView::Network(message@),
    {
        PokerError::Network { message }
    }

    /// A game-logic error with the given message.
    pub fn game(message: String) -> (e: Self)
        ensures
            e@ == ErrorView::Game(message@),
    {
        PokerError::Game { message }
    }

    /// A validation error naming the field and its offending value.
    pub fn game_validation(field: String, value: String) -> (e: Self)
        ensures
            e@ == ErrorView::GameValidation(field@, value@),
    {
        PokerError::GameValidation { field, value }
    }

    /// An authentication error with the given reason.
    pub fn auth(reason: String) -> (e: Self)
        ensures
            e@ == ErrorView::Auth(reason@),
    {
        PokerError::Auth { reason }
    }

    /// An invalid-action error with the given reason.
    pub fn invalid_action(reason: String) -> (e: Self)
        ensures
            e@ == ErrorView::InvalidAction(reason@),
    {
        PokerError::InvalidAction { reason }
    }

    /// A password-hashing error with the given reason.
    pub fn password_hash(reason: String) -> (e: Self)
        ensures
            e@ == ErrorView::PasswordHash(reason@),
    {
        PokerError::PasswordHash { reason }
    }

    /// A WebSocket error with the given reason.
    pub fn websocket(reason: String) -> (e: Self)
        ensures
            e@ == ErrorView::WebSocket(reason@),
    {
        PokerError::WebSocket { reason }
    }

    /// An error for a player index beyond the seated players.
    pub fn invalid_player_index(index: usize, max: usize) -> (e: Self)
        ensures
            e@ == ErrorView::InvalidPlayerIndex(index, max),
    {
        PokerError::InvalidPlayerIndex { index, max }
    }
}

/// A game-logic error built from a message literal.
pub fn game_error(message: &str) -> (e: PokerError)
    ensures
        e@ == ErrorView::Game(message@),
{
    PokerError::Game { message: String::from_str(message) }
}

/// An invalid-action error built from a reason literal.
pub fn invalid_action_error(reason: &str) -> (e: PokerError)
    ensures
        e@ == ErrorView::InvalidAction(reason@),
{
    PokerError::InvalidAction { reason: String::from_str(reason) }
}

} // verus!
