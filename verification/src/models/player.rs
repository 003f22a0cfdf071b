//! Player accounts and sessions.

use vstd::prelude::*;

use crate::error::{game_error, ErrorView, PokerError};

verus! {

/// A player account.
#[derive(Debug, Clone)]
pub struct Player {
    pub id: i64,
    pub username: String,
    pub password_hash: String,
    pub chips: i64,
    pub hands_played: i64,
    pub hands_won: i64,
}

impl Player {
    /// A new account with `starting_chips` and no hands played.
    pub fn new(id: i64, username: String, password_hash: String, starting_chips: i64) -> (p: Self)
        ensures
            p.id == id,
            p.username@ == username@,
            p.password_hash@ == password_hash@,
            p.chips == starting_chips,
            p.hands_played == 0,
            p.hands_won == 0,
    {
        Player { id, username, password_hash, chips: starting_chips, hands_played: 0, hands_won: 0 }
    }

    /// Whether the play-money faucet applies: the stack is below `threshold`.
    pub fn can_top_up(&self, threshold: i64) -> (b: bool)
        ensures
            b == (self.chips < threshold),
    {
        self.chips < threshold
    }

    /// Adds `faucet_amount` chips when the stack is below `threshold`.
    ///
    /// Errors: a stack at or above the threshold, then those of `add_chips`.
    pub fn top_up(&mut self, faucet_amount: i64, threshold: i64) -> (r: Result<(), PokerError>)
        ensures
            old(self).chips >= threshold ==> (r matches Err(e) && e@ == ErrorView::Game(
                "Player already has enough chips to top up"@,
            )),
            old(self).chips < threshold && faucet_amount < 0 ==> (r matches Err(e) && e@
                == ErrorView::Game("Cannot add negative amount"@)),
            old(self).chips < threshold && faucet_amount >= 0 && stack_after_add(
                old(self).chips as int,
                faucet_amount as int,
            ) is None ==> (r matches Err(e) && e@ == ErrorView::Game("Chip overflow"@)),
            r is Ok <==> old(self).chips < threshold && stack_after_add(
                old(self).chips as int,
                faucet_amount as int,
            ) is Some,
            r is Ok ==> final(self).chips == stack_after_add(
                old(self).chips as int,
                faucet_amount as int,
            )->0,
            r is Err ==> final(self).chips == old(self).chips,
            final(self).id == old(self).id,
            final(self).username == old(self).username,
            final(self).password_hash == old(self).password_hash,
            final(self).hands_played == old(self).hands_played,
            final(self).hands_won == old(self).hands_won,
    {
        if !self.can_top_up(threshold) {
            return Err(game_error("Player already has enough chips to top up"));
        }
        self.add_chips(faucet_amount)
    }

    /// Removes `amount` chips from the stack.
    ///
    /// Errors: a negative amount, or more than the stack holds.
    pub fn deduct_chips(&mut self, amount: i64) -> (r: Result<(), PokerError>)
        ensures
            amount < 0 ==> (r matches Err(e) && e@ == ErrorView::Game(
                "Cannot deduct negative amount"@,
            )),
            amount >= 0 && amount > old(self).chips ==> (r matches Err(e) && e@ == ErrorView::Game(
                "Insufficient chips"@,
            )),
            r is Ok <==> stack_after_deduct(old(self).chips as int, amount as int) is Some,
            r is Ok ==> final(self).chips == stack_after_deduct(
                old(self).chips as int,
                amount as int,
            )->0,
            r is Err ==> final(self).chips == old(self).chips,
            final(self).id == old(self).id,
            final(self).username == old(self).username,
            final(self).password_hash == old(self).password_hash,
            final(self).hands_played == old(self).hands_played,
            final(self).hands_won == old(self).hands_won,
    {
        if amount < 0 {
            return Err(game_error("Cannot deduct negative amount"));
        }
        if amount > self.chips {
            return Err(game_error("Insufficient chips"));
        }
        match self.chips.checked_sub(amount) {
            Some(new_chips) => {
                self.chips = new_chips;
                Ok(())
            },
            None => Err(game_error("Insufficient chips")),
        }
    }

    /// Adds `amount` chips to the stack.
    ///
    /// Errors: a negative amount, or a stack that would overflow.
    pub fn add_chips(&mut self, amount: i64) -> (r: Result<(), PokerError>)
        ensures
            amount < 0 ==> (r matches Err(e) && e@ == ErrorView::Game("Cannot add negative amount"@)),
            amount >= 0 && stack_after_add(old(self).chips as int, amount as int) is None ==> (r matches Err(
                e,
            ) && e@ == ErrorView::Game("Chip overflow"@)),
            r is Ok <==> stack_after_add(old(self).chips as int, amount as int) is Some,
            r is Ok ==> final(self).chips == stack_after_add(
                old(self).chips as int,
                amount as int,
            )->0,
            r is Err ==> final(self).chips == old(self).chips,
            final(self).id == old(self).id,
            final(self).username == old(self).username,
            final(self).password_hash == old(self).password_hash,
            final(self).hands_played == old(self).hands_played,
            final(self).hands_won == old(self).hands_won,
    {
        if amount < 0 {
            return Err(game_error("Cannot add negative amount"));
        }
        match self.chips.checked_add(amount) {
            Some(new_chips) => {
                self.chips = new_chips;
                Ok(())
            },
            None => Err(game_error("Chip overflow")),
        }
    }
}

/// The stack after adding `amount` chips to `chips`, or `None` where
/// `add_chips` refuses (a negative amount, or an overflowing stack).
pub open spec fn stack_after_add(chips: int, amount: int) -> Option<int> {
    if amount < 0 || chips + amount > i64::MAX {
        None
    } else {
        Some(chips + amount)
    }
}

/// The stack after removing `amount` chips from `chips`, or `None` where
/// `deduct_chips` refuses (a negative amount, or more than the stack).
pub open spec fn stack_after_deduct(chips: int, amount: int) -> Option<int> {
    if amount < 0 || amount > chips {
        None
    } else {
        Some(chips - amount)
    }
}

/// Taking chips back out undoes adding them: when `add_chips(amount)`
/// succeeds on a non-negative stack, `deduct_chips(amount)` then succeeds
/// and gives back the stack the player started with.
pub proof fn lemma_deduct_undoes_add(chips: int, amount: int)
    requires
        chips >= 0,
        stack_after_add(chips, amount) is Some,
    ensures
        stack_after_deduct(stack_after_add(chips, amount)->0, amount) == Some(chips),
{
}

/// A player's connection state: who they are and where they sit.
#[derive(Debug, Clone)]
pub struct PlayerSession {
    pub player_id: i64,
    pub username: String,
    pub table_id: Option<i64>,
    pub seat_index: Option<usize>,
}

} // verus!
