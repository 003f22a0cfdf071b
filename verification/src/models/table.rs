//! Poker tables: blinds, seats and buy-in rules.

use vstd::prelude::*;

use crate::error::{game_error, ErrorView, PokerError};
use crate::text::{decimal, int_to_string};

verus! {

/// A poker table.
#[derive(Debug, Clone)]
pub struct Table {
    pub id: i64,
    pub name: String,
    pub small_blind: i64,
    pub big_blind: i64,
    pub max_players: i32,
    pub current_players: usize,
}

/// Why a table with these blinds and seats cannot be created, if it cannot.
pub open spec fn table_params_error(small_blind: i64, big_blind: i64, max_players: i32) -> Option<
    Seq<char>,
> {
    if small_blind <= 0 {
        Some("Small blind must be positive"@)
    } else if big_blind <= 0 {
        Some("Big blind must be positive"@)
    } else if big_blind < small_blind {
        Some("Big blind must be >= small blind"@)
    } else if max_players < 2 {
        Some("Max players must be at least 2"@)
    } else {
        None
    }
}

/// Why a buy-in is refused at a table with this big blind, if it is.
pub open spec fn buyin_error(big_blind: i64, buyin: i64, min_buyin_bb: u32, max_buyin_bb: u32) -> Option<
    Seq<char>,
> {
    if buyin < 0 {
        Some("Buy-in cannot be negative"@)
    } else if buyin < big_blind * min_buyin_bb {
        Some("Buy-in must be at least "@ + decimal(min_buyin_bb as int) + " big blinds"@)
    } else if buyin > big_blind * max_buyin_bb {
        Some("Buy-in cannot exceed "@ + decimal(max_buyin_bb as int) + " big blinds"@)
    } else {
        None
    }
}

impl Table {
    /// A heads-up table (two seats) with the given blinds.
    ///
    /// Errors: as for `with_max_players`.
    pub fn new(id: i64, name: String, small_blind: i64, big_blind: i64) -> (r: Result<Self, PokerError>)
        ensures
            match table_params_error(small_blind, big_blind, 2) {
                Some(m) => r matches Err(e) && e@ == ErrorView::Game(m),
                None => r matches Ok(t) && t.id == id && t.name@ == name@ && t.small_blind
                    == small_blind && t.big_blind == big_blind && t.max_players == 2
                    && t.current_players == 0,
            },
    {
        Self::with_max_players(id, name, small_blind, big_blind, 2)
    }

    /// A table with the given blinds and number of seats, empty.
    ///
    /// Errors: a non-positive blind, a big blind below the small blind, or
    /// fewer than two seats.
    pub fn with_max_players(
        id: i64,
        name: String,
        small_blind: i64,
        big_blind: i64,
        max_players: i32,
    ) -> (r: Result<Self, PokerError>)
        ensures
            match table_params_error(small_blind, big_blind, max_players) {
                Some(m) => r matches Err(e) && e@ == ErrorView::Game(m),
                None => r matches Ok(t) && t.id == id && t.name@ == name@ && t.small_blind
                    == small_blind && t.big_blind == big_blind && t.max_players == max_players
                    && t.current_players == 0,
            },
    {
        if small_blind <= 0 {
            return Err(game_error("Small blind must be positive"));
        }
        if big_blind <= 0 {
            return Err(game_error("Big blind must be positive"));
        }
        if big_blind < small_blind {
            return Err(game_error("Big blind must be >= small blind"));
        }
        if max_players < 2 {
            return Err(game_error("Max players must be at least 2"));
        }
        Ok(Table { id, name, small_blind, big_blind, max_players, current_players: 0 })
    }

    /// Whether every seat is taken.
    pub fn is_full(&self) -> (b: bool)
        ensures
            b == (self.current_players >= self.max_players as usize),
    {
        self.current_players >= self.max_players as usize
    }

    /// Whether a player can sit down: the table is not full.
    pub fn can_join(&self) -> (b: bool)
        ensures
            b == !(self.current_players >= self.max_players as usize),
    {
        !self.is_full()
    }

    /// Checks a buy-in against the table's range of `min_buyin_bb` to
    /// `max_buyin_bb` big blinds.
    ///
    /// Errors: a negative buy-in, or one outside the range.
    pub fn validate_buyin(&self, buyin: i64, min_buyin_bb: u32, max_buyin_bb: u32) -> (r: Result<
        (),
        PokerError,
    >)
        requires
            buyin >= 0 ==> i64::MIN <= self.big_blind * min_buyin_bb <= i64::MAX,
            buyin >= 0 ==> i64::MIN <= self.big_blind * max_buyin_bb <= i64::MAX,
        ensures
            match buyin_error(self.big_blind, buyin, min_buyin_bb, max_buyin_bb) {
                Some(m) => r matches Err(e) && e@ == ErrorView::Game(m),
                None => r is Ok,
            },
    {
        if buyin < 0 {
            return Err(game_error("Buy-in cannot be negative"));
        }
        let min_buyin = self.big_blind * (min_buyin_bb as i64);
        let max_buyin = self.big_blind * (max_buyin_bb as i64);
        if buyin < min_buyin {
            let mut message = String::from_str("Buy-in must be at least ");
            let n = int_to_string(min_buyin_bb as i128);
            message.append(n.as_str());
            message.append(" big blinds");
            return Err(PokerError::Game { message });
        }
        if buyin > max_buyin {
            let mut message = String::from_str("Buy-in cannot exceed ");
            let n = int_to_string(max_buyin_bb as i128);
            message.append(n.as_str());
            message.append(" big blinds");
            return Err(PokerError::Game { message });
        }
        Ok(())
    }
}

} // verus!
