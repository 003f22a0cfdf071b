//! Game state: stages, actions, per-player state and the table's game.

use vstd::prelude::*;

use crate::error::{ErrorView, PokerError};
use crate::models::card::{standard_deck, Card, Deck};
use crate::text::{decimal, int_to_string};

verus! {

/// Heads-up: at most two players at a table.
pub const MAX_PLAYERS: usize = 2;

/// Cards in a standard deck.
pub const CARDS_IN_DECK: usize = 52;

/// Hole cards dealt to each player.
pub const HOLE_CARDS: usize = 2;

/// Community cards on a full board.
pub const COMMUNITY_CARDS: usize = 5;

/// Shortest allowed username (in characters).
pub const MIN_USERNAME_LEN: usize = 3;

/// Longest allowed username (in characters).
pub const MAX_USERNAME_LEN: usize = 20;

/// The stages of a hand.
#[derive(Debug, Clone, Copy, PartialEq, Eq, Structural)]
#[non_exhaustive]
pub enum GameStage {
    WaitingForPlayers,
    PreFlop,
    Flop,
    Turn,
    River,
    Showdown,
    Finished,
}

/// An action a player takes; `Raise(n)` raises the player's bet to `n`.
#[derive(Debug, Clone, Copy, PartialEq, Eq, Structural)]
#[non_exhaustive]
pub enum PlayerAction {
    Fold,
    Check,
    Call,
    Raise(i64),
    AllIn,
}

/// The text shown for an action.
pub open spec fn action_text(a: PlayerAction) -> Seq<char> {
    match a {
        PlayerAction::Fold => "Fold"@,
        PlayerAction::Check => "Check"@,
        PlayerAction::Call => "Call"@,
        PlayerAction::Raise(amount) => "Raise to "@ + decimal(amount as int),
        PlayerAction::AllIn => "All-In"@,
    }
}

fn action_string(a: PlayerAction) -> (s: String)
    ensures
        s@ == action_text(a),
{
    match a {
        PlayerAction::Fold => String::from_str("Fold"),
        PlayerAction::Check => String::from_str("Check"),
        PlayerAction::Call => String::from_str("Call"),
        PlayerAction::Raise(amount) => {
            let mut s = String::from_str("Raise to ");
            let n = int_to_string(amount as i128);
            s.append(n.as_str());
            s
        },
        PlayerAction::AllIn => String::from_str("All-In"),
    }
}

impl PlayerAction {
    /// The text of the action: "Fold", "Check", "Call", "Raise to <n>" or "All-In".
    pub fn to_string(&self) -> (s: String)
        ensures
            s@ == action_text(*self),
    {
        action_string(*self)
    }
}

/// A valid action a player can take in the current game state.
///
/// `min_raise` and `max_raise` bound the raise target for Raise actions and
/// are None otherwise.
#[derive(Debug, Clone, Copy, PartialEq, Eq, Structural)]
pub struct ValidAction {
    pub action: PlayerAction,
    pub min_raise: Option<i64>,
    pub max_raise: Option<i64>,
}

impl ValidAction {
    /// The text of the action, as for `PlayerAction::to_string`.
    pub fn to_string(&self) -> (s: String)
        ensures
            s@ == action_text(self.action),
    {
        action_string(self.action)
    }
}

/// A player's state within the current hand.
#[derive(Debug, Clone)]
pub struct PlayerGameState {
    pub player_id: i64,
    pub username: String,
    pub chips: i64,
    pub bet_this_round: i64,
    pub total_bet: i64,
    pub hole_cards: Vec<Card>,
    pub is_folded: bool,
    pub is_all_in: bool,
    pub is_dealer: bool,
    pub is_small_blind: bool,
    pub is_big_blind: bool,
    pub is_disconnected: bool,
}

/// The mathematical content of a `PlayerGameState`.
#[verifier::ext_equal]
pub struct PlayerView {
    pub player_id: i64,
    pub username: Seq<char>,
    pub chips: i64,
    pub bet_this_round: i64,
    pub total_bet: i64,
    pub hole_cards: Seq<Card>,
    pub is_folded: bool,
    pub is_all_in: bool,
    pub is_dealer: bool,
    pub is_small_blind: bool,
    pub is_big_blind: bool,
    pub is_disconnected: bool,
}

impl View for PlayerGameState {
    type V = PlayerView;

    open spec fn view(&self) -> PlayerView {
        PlayerView {
            player_id: self.player_id,
            username: self.username@,
            chips: self.chips,
            bet_this_round: self.bet_this_round,
            total_bet: self.total_bet,
            hole_cards: self.hole_cards@,
            is_folded: self.is_folded,
            is_all_in: self.is_all_in,
            is_dealer: self.is_dealer,
            is_small_blind: self.is_small_blind,
            is_big_blind: self.is_big_blind,
            is_disconnected: self.is_disconnected,
        }
    }
}

/// A player's state at the start of a new hand: no bets, no cards, not
/// folded or all-in; the dealer posts the small blind, the other the big one.
pub open spec fn reset_for_new_hand_spec(p: PlayerView, is_dealer: bool) -> PlayerView {
    PlayerView {
        bet_this_round: 0,
        total_bet: 0,
        hole_cards: Seq::empty(),
        is_folded: false,
        is_all_in: false,
        is_dealer: is_dealer,
        is_small_blind: is_dealer,
        is_big_blind: !is_dealer,
        ..p
    }
}

/// A player can act when still in the hand, connected and holding chips.
pub open spec fn can_act_spec(p: PlayerView) -> bool {
    !p.is_folded && !p.is_all_in && !p.is_disconnected && p.chips > 0
}

impl PlayerGameState {
    /// A newly seated player: `chips` in front, nothing bet, no cards; the
    /// dealer is the small blind, the other player the big blind.
    pub fn new(player_id: i64, username: String, chips: i64, is_dealer: bool) -> (p: Self)
        ensures
            p@ == (PlayerView {
                player_id,
                username: username@,
                chips,
                bet_this_round: 0,
                total_bet: 0,
                hole_cards: Seq::empty(),
                is_folded: false,
                is_all_in: false,
                is_dealer,
                is_small_blind: is_dealer,
                is_big_blind: !is_dealer,
                is_disconnected: false,
            }),
    {
        PlayerGameState {
            player_id,
            username,
            chips,
            bet_this_round: 0,
            total_bet: 0,
            hole_cards: Vec::new(),
            is_folded: false,
            is_all_in: false,
            is_dealer,
            is_small_blind: is_dealer,
            is_big_blind: !is_dealer,
            is_disconnected: false,
        }
    }

    /// Clears the player's bets, cards and folded/all-in flags for a new hand
    /// and sets the dealer and blind flags.
    pub fn reset_for_new_hand(&mut self, is_dealer: bool)
        ensures
            final(self)@ == reset_for_new_hand_spec(old(self)@, is_dealer),
    {
        self.bet_this_round = 0;
        self.total_bet = 0;
        self.hole_cards.clear();
        self.is_folded = false;
        self.is_all_in = false;
        self.is_dealer = is_dealer;
        self.is_small_blind = is_dealer;
        self.is_big_blind = !is_dealer;
        assert(self@ =~= reset_for_new_hand_spec(old(self)@, is_dealer));
    }

    /// Clears the player's bet for a new betting round.
    pub fn reset_round_bet(&mut self)
        ensures
            final(self)@ == (PlayerView { bet_this_round: 0, ..old(self)@ }),
    {
        self.bet_this_round = 0;
        assert(self@ =~= (PlayerView { bet_this_round: 0, ..old(self)@ }));
    }

    /// Whether the player can act: not folded, not all-in, connected, and with chips.
    pub fn can_act(&self) -> (b: bool)
        ensures
            b == can_act_spec(self@),
    {
        !self.is_folded && !self.is_all_in && !self.is_disconnected && self.chips > 0
    }
}

/// A side pot: an amount and the players who can win it.
#[derive(Debug, Clone, PartialEq)]
pub struct SidePot {
    pub amount: i64,
    pub eligible_players: Vec<usize>,
}

/// The mathematical content of a `SidePot`.
#[verifier::ext_equal]
pub struct SidePotView {
    pub amount: i64,
    pub eligible_players: Seq<usize>,
}

impl View for SidePot {
    type V = SidePotView;

    open spec fn view(&self) -> SidePotView {
        SidePotView { amount: self.amount, eligible_players: self.eligible_players@ }
    }
}

/// The state of the game at a table.
#[derive(Debug, Clone)]
pub struct GameState {
    pub table_id: i64,
    pub stage: GameStage,
    pub players: Vec<PlayerGameState>,
    pub community_cards: Vec<Card>,
    pub pot: i64,
    pub current_bet: i64,
    pub last_raise_amount: i64,
    pub dealer_index: usize,
    pub current_player_index: Option<usize>,
    pub small_blind: i64,
    pub big_blind: i64,
    pub deck: Deck,
    pub hand_number: u64,
    pub side_pots: Vec<SidePot>,
}

/// The mathematical content of a `GameState`.
#[verifier::ext_equal]
pub struct GameView {
    pub table_id: i64,
    pub stage: GameStage,
    pub players: Seq<PlayerView>,
    pub community_cards: Seq<Card>,
    pub pot: i64,
    pub current_bet: i64,
    pub last_raise_amount: i64,
    pub dealer_index: usize,
    pub current_player_index: Option<usize>,
    pub small_blind: i64,
    pub big_blind: i64,
    pub deck: Seq<Card>,
    pub hand_number: u64,
    pub side_pots: Seq<SidePotView>,
}

/// The views of a sequence of players.
pub open spec fn players_view(ps: Seq<PlayerGameState>) -> Seq<PlayerView> {
    ps.map_values(|p: PlayerGameState| p@)
}

impl View for GameState {
    type V = GameView;

    open spec fn view(&self) -> GameView {
        GameView {
            table_id: self.table_id,
            stage: self.stage,
            players: players_view(self.players@),
            community_cards: self.community_cards@,
            pot: self.pot,
            current_bet: self.current_bet,
            last_raise_amount: self.last_raise_amount,
            dealer_index: self.dealer_index,
            current_player_index: self.current_player_index,
            small_blind: self.small_blind,
            big_blind: self.big_blind,
            deck: self.deck@,
            hand_number: self.hand_number,
            side_pots: self.side_pots@.map_values(|sp: SidePot| sp@),
        }
    }
}

/// A player is active when neither folded nor disconnected.
pub open spec fn is_active(p: PlayerView) -> bool {
    !p.is_folded && !p.is_disconnected
}

/// The error text for a third player joining a heads-up table.
pub open spec fn table_full_message() -> Seq<char> {
    "Cannot add more than 2 players in heads-up poker"@
}

impl GameState {
    /// A new game at a table: waiting for players, no cards out, an empty
    /// pot, the dealer button at seat 0 and a freshly shuffled deck.
    pub fn new(table_id: i64, small_blind: i64, big_blind: i64) -> (g: Self)
        ensures
            g@.table_id == table_id,
            g@.stage == GameStage::WaitingForPlayers,
            g@.players.len() == 0,
            g@.community_cards.len() == 0,
            g@.pot == 0,
            g@.current_bet == 0,
            g@.last_raise_amount == big_blind,
            g@.dealer_index == 0,
            g@.current_player_index == None::<usize>,
            g@.small_blind == small_blind,
            g@.big_blind == big_blind,
            g@.deck.to_multiset() == standard_deck().to_multiset(),
            g@.deck.len() == 52,
            g@.hand_number == 0,
            g@.side_pots.len() == 0,
    {
        GameState {
            table_id,
            stage: GameStage::WaitingForPlayers,
            players: Vec::new(),
            community_cards: Vec::new(),
            pot: 0,
            current_bet: 0,
            last_raise_amount: big_blind,
            dealer_index: 0,
            current_player_index: None,
            small_blind,
            big_blind,
            deck: Deck::new(),
            hand_number: 0,
            side_pots: Vec::new(),
        }
    }

    /// Seats a player with `buyin` chips. The first player becomes the
    /// dealer, the second does not.
    ///
    /// Errors: a non-positive buy-in, or a table that already seats two players.
    pub fn add_player(&mut self, player_id: i64, username: String, buyin: i64) -> (r: Result<
        (),
        PokerError,
    >)
        ensures
            buyin <= 0 ==> (r matches Err(e) && e@ == ErrorView::Game("Buy-in must be positive"@))
                && final(self)@ == old(self)@,
            buyin > 0 && old(self)@.players.len() >= MAX_PLAYERS ==> (r matches Err(e) && e@
                == ErrorView::Game(table_full_message())) && final(self)@ == old(self)@,
            buyin > 0 && old(self)@.players.len() < MAX_PLAYERS ==> r is Ok && final(self)@ == (
            GameView {
                players: old(self)@.players.push(
                    PlayerView {
                        player_id,
                        username: username@,
                        chips: buyin,
                        bet_this_round: 0,
                        total_bet: 0,
                        hole_cards: Seq::empty(),
                        is_folded: false,
                        is_all_in: false,
                        is_dealer: old(self)@.players.len() == 0,
                        is_small_blind: old(self)@.players.len() == 0,
                        is_big_blind: old(self)@.players.len() != 0,
                        is_disconnected: false,
                    },
                ),
                ..old(self)@
            }),
    {
        if buyin <= 0 {
            return Err(crate::error::game_error("Buy-in must be positive"));
        }
        if self.players.len() >= MAX_PLAYERS {
            return Err(crate::error::game_error("Cannot add more than 2 players in heads-up poker"));
        }
        let is_dealer = self.players.len() == 0;
        let p = PlayerGameState::new(player_id, username, buyin, is_dealer);
        self.players.push(p);
        assert(players_view(self.players@) =~= players_view(old(self).players@).push(p@));
        Ok(())
    }

    /// The game can start when both seats are taken and it waits for players.
    pub fn is_ready_to_start(&self) -> (b: bool)
        ensures
            b == (self@.players.len() == MAX_PLAYERS && self@.stage == GameStage::WaitingForPlayers),
    {
        self.players.len() == MAX_PLAYERS && self.stage == GameStage::WaitingForPlayers
    }

    /// The players still in the hand: neither folded nor disconnected, in seat order.
    pub fn active_players(&self) -> (r: Vec<&PlayerGameState>)
        ensures
            r@.map_values(|p: &PlayerGameState| p@) == self@.players.filter(
                |p: PlayerView| is_active(p),
            ),
    {
        let mut r: Vec<&PlayerGameState> = Vec::new();
        let mut i: usize = 0;
        while i < self.players.len()
            invariant
                i <= self.players@.len(),
                r@.map_values(|p: &PlayerGameState| p@) == players_view(
                    self.players@,
                ).take(i as int).filter(|p: PlayerView| is_active(p)),
            decreases self.players@.len() - i,
        {
            let p = &self.players[i];
            let ghost all = players_view(self.players@);
            proof {
                assert(all.take(i + 1).drop_last() =~= all.take(i as int));
                reveal_with_fuel(Seq::filter, 1);
            }
            if !p.is_folded && !p.is_disconnected {
                r.push(p);
            }
            assert(r@.map_values(|p: &PlayerGameState| p@) =~= all.take(i + 1).filter(
                |p: PlayerView| is_active(p),
            ));
            i = i + 1;
        }
        assert(players_view(self.players@).take(self.players@.len() as int) =~= players_view(
            self.players@,
        ));
        r
    }

    /// Moves the dealer button to the next seat.
    ///
    /// Errors: a table with no players.
    pub fn next_dealer(&mut self) -> (r: Result<(), PokerError>)
        requires
            old(self)@.players.len() == 0 || old(self)@.dealer_index < usize::MAX,
        ensures
            old(self)@.players.len() == 0 ==> (r matches Err(e) && e@ == ErrorView::Game(
                "Cannot rotate dealer with no players"@,
            )) && final(self)@ == old(self)@,
            old(self)@.players.len() > 0 ==> r is Ok && final(self)@ == (GameView {
                dealer_index: ((old(self)@.dealer_index + 1) % (old(self)@.players.len() as int)) as usize,
                ..old(self)@
            }),
    {
        if self.players.len() == 0 {
            return Err(crate::error::game_error("Cannot rotate dealer with no players"));
        }
        self.dealer_index = (self.dealer_index + 1) % self.players.len();
        assert(self@ =~= (GameView {
            dealer_index: ((old(self)@.dealer_index + 1) % (old(self)@.players.len() as int)) as usize,
            ..old(self)@
        }));
        Ok(())
    }
}

} // verus!
