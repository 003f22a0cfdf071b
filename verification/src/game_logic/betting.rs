//! Betting rules: which actions are legal and what they do to the game.

use vstd::prelude::*;

use crate::error::{game_error, invalid_action_error, result_view, ErrorView, PokerError};
use crate::models::game::{GameState, GameView, PlayerAction, PlayerGameState, PlayerView, ValidAction};
use crate::text::{decimal, int_to_string};

verus! {

/// The value is representable as an `i64`.
pub open spec fn fits_i64(x: int) -> bool {
    i64::MIN <= x <= i64::MAX
}

/// The smallest amount a raise must reach: twice the big blind when the bet
/// is still the big blind, otherwise twice the current bet.
pub open spec fn min_raise_target(current_bet: i64, big_blind: i64) -> int {
    if current_bet == big_blind {
        current_bet + big_blind
    } else {
        current_bet * 2
    }
}

/// The error text for a raise below the minimum.
pub open spec fn min_raise_message(min_raise: int) -> Seq<char> {
    "Minimum raise is "@ + decimal(min_raise)
}

/// Whether a raise of player `p` to `raise_to` is legal, and if not, why.
pub open spec fn raise_check(g: GameView, p: PlayerView, raise_to: i64) -> Result<(), ErrorView> {
    let needed = raise_to - p.bet_this_round;
    let min_raise = min_raise_target(g.current_bet, g.big_blind);
    if raise_to <= 0 {
        Err(ErrorView::InvalidAction("Raise amount must be positive"@))
    } else if !fits_i64(needed) {
        Err(ErrorView::InvalidAction("Invalid raise calculation"@))
    } else if raise_to <= g.current_bet {
        Err(ErrorView::InvalidAction("Raise amount must be greater than current bet"@))
    } else if !fits_i64(min_raise) {
        Err(ErrorView::Game("Overflow in min raise calculation"@))
    } else if raise_to < min_raise && needed < p.chips {
        Err(ErrorView::InvalidAction(min_raise_message(min_raise)))
    } else if needed > p.chips {
        Err(ErrorView::InvalidAction("Insufficient chips for this raise (go all-in instead)"@))
    } else {
        Ok(())
    }
}

/// Whether action `a` of player `i` is legal in game `g`, and if not, why.
pub open spec fn validate_spec(g: GameView, i: int, a: PlayerAction) -> Result<(), ErrorView> {
    let p = g.players[i];
    if p.is_folded {
        Err(ErrorView::InvalidAction("Player has folded"@))
    } else if p.is_all_in {
        Err(ErrorView::InvalidAction("Player is all-in"@))
    } else {
        match a {
            PlayerAction::Fold => Ok(()),
            PlayerAction::Check => if p.bet_this_round < g.current_bet {
                Err(ErrorView::InvalidAction("Cannot check when facing a bet"@))
            } else {
                Ok(())
            },
            PlayerAction::Call => if p.bet_this_round >= g.current_bet {
                Err(ErrorView::InvalidAction("No bet to call (should check instead)"@))
            } else if g.current_bet - p.bet_this_round > p.chips {
                Err(ErrorView::InvalidAction("Insufficient chips to call (go all-in instead)"@))
            } else {
                Ok(())
            },
            PlayerAction::Raise(raise_to) => raise_check(g, p, raise_to),
            PlayerAction::AllIn => if p.chips == 0 {
                Err(ErrorView::InvalidAction("No chips to go all-in with"@))
            } else {
                Ok(())
            },
        }
    }
}

/// The amount a player facing a bet must add to call fits in an `i64`.
pub open spec fn call_amount_fits(g: GameView, i: int) -> bool {
    let p = g.players[i];
    p.bet_this_round < g.current_bet ==> fits_i64(g.current_bet - p.bet_this_round)
}

/// What validating action `a` of player `i` needs: a seated player, and a
/// call amount that fits in an `i64` when a call is checked.
pub open spec fn validate_requires(g: GameView, i: int, a: PlayerAction) -> bool {
    &&& 0 <= i < g.players.len()
    &&& (a is Call && !g.players[i].is_folded && !g.players[i].is_all_in) ==> call_amount_fits(g, i)
}

/// The game with player `i` replaced by `p`.
pub open spec fn with_player(g: GameView, i: int, p: PlayerView) -> GameView {
    GameView { players: g.players.update(i, p), ..g }
}

/// The effect of a call by player `i` (already validated).
pub open spec fn call_effect(g: GameView, i: int) -> (GameView, Result<(), ErrorView>) {
    let p = g.players[i];
    let amount = g.current_bet - p.bet_this_round;
    let p1 = PlayerView {
        chips: (p.chips - amount) as i64,
        bet_this_round: (p.bet_this_round + amount) as i64,
        ..p
    };
    if !fits_i64(p.total_bet + amount) {
        (with_player(g, i, p1), Err(ErrorView::Game("Overflow in total bet"@)))
    } else {
        let p2 = PlayerView { total_bet: (p.total_bet + amount) as i64, ..p1 };
        if !fits_i64(g.pot + amount) {
            (with_player(g, i, p2), Err(ErrorView::Game("Overflow in pot"@)))
        } else {
            let p3 = PlayerView { is_all_in: p2.is_all_in || p2.chips == 0, ..p2 };
            (GameView { pot: (g.pot + amount) as i64, ..with_player(g, i, p3) }, Ok(()))
        }
    }
}

/// The effect of a raise to `raise_to` by player `i` (already validated).
pub open spec fn raise_effect(g: GameView, i: int, raise_to: i64) -> (GameView, Result<
    (),
    ErrorView,
>) {
    let p = g.players[i];
    let amount = raise_to - p.bet_this_round;
    if !fits_i64(p.chips - amount) {
        (g, Err(ErrorView::Game("Insufficient chips for raise"@)))
    } else {
        let p1 = PlayerView {
            chips: (p.chips - amount) as i64,
            bet_this_round: raise_to,
            ..p
        };
        if !fits_i64(p.total_bet + amount) {
            (with_player(g, i, p1), Err(ErrorView::Game("Overflow in total bet"@)))
        } else {
            let p2 = PlayerView { total_bet: (p.total_bet + amount) as i64, ..p1 };
            if !fits_i64(g.pot + amount) {
                (with_player(g, i, p2), Err(ErrorView::Game("Overflow in pot"@)))
            } else {
                let p3 = PlayerView { is_all_in: p2.is_all_in || p2.chips == 0, ..p2 };
                (
                    GameView {
                        pot: (g.pot + amount) as i64,
                        current_bet: raise_to,
                        ..with_player(g, i, p3)
                    },
                    Ok(()),
                )
            }
        }
    }
}

/// The effect of player `i` going all-in (already validated).
pub open spec fn all_in_effect(g: GameView, i: int) -> (GameView, Result<(), ErrorView>) {
    let p = g.players[i];
    let amount = p.chips;
    let p0 = PlayerView { chips: 0, ..p };
    if !fits_i64(p.bet_this_round + amount) {
        (with_player(g, i, p0), Err(ErrorView::Game("Overflow in bet calculation"@)))
    } else {
        let p1 = PlayerView { bet_this_round: (p.bet_this_round + amount) as i64, ..p0 };
        if !fits_i64(p.total_bet + amount) {
            (with_player(g, i, p1), Err(ErrorView::Game("Overflow in total bet"@)))
        } else {
            let p2 = PlayerView { total_bet: (p.total_bet + amount) as i64, ..p1 };
            if !fits_i64(g.pot + amount) {
                (with_player(g, i, p2), Err(ErrorView::Game("Overflow in pot"@)))
            } else {
                let p3 = PlayerView { is_all_in: true, ..p2 };
                let g3 = GameView { pot: (g.pot + amount) as i64, ..with_player(g, i, p3) };
                if p3.bet_this_round > g.current_bet {
                    (GameView { current_bet: p3.bet_this_round, ..g3 }, Ok(()))
                } else {
                    (g3, Ok(()))
                }
            }
        }
    }
}

/// The game after player `i` takes action `a`, and the outcome.
///
/// An unknown player or an illegal action leaves the game unchanged. A legal
/// action moves chips from the player to the pot; an arithmetic overflow
/// stops it part-way with an error.
pub open spec fn apply_spec(g: GameView, i: int, a: PlayerAction) -> (GameView, Result<
    (),
    ErrorView,
>) {
    if !(0 <= i < g.players.len()) {
        (g, Err(ErrorView::Game("Invalid player index"@)))
    } else if validate_spec(g, i, a) is Err {
        (g, validate_spec(g, i, a))
    } else {
        match a {
            PlayerAction::Fold => (
                with_player(g, i, PlayerView { is_folded: true, ..g.players[i] }),
                Ok(()),
            ),
            PlayerAction::Check => (g, Ok(())),
            PlayerAction::Call => call_effect(g, i),
            PlayerAction::Raise(raise_to) => raise_effect(g, i, raise_to),
            PlayerAction::AllIn => all_in_effect(g, i),
        }
    }
}

/// The betting round is over: only one player is left in the hand, or every
/// player still in it is all-in or has matched the current bet.
pub open spec fn round_complete_spec(g: GameView) -> bool {
    let active = g.players.filter(|p: PlayerView| !p.is_folded);
    active.len() == 1 || forall|k: int|
        0 <= k < active.len() ==> (#[trigger] active[k]).is_all_in || active[k].bet_this_round
            == g.current_bet
}

/// The smallest raise target offered: the minimum raise, or `i64::MAX` when
/// that does not fit.
pub open spec fn offered_min_raise(g: GameView) -> i64 {
    let m = min_raise_target(g.current_bet, g.big_blind);
    if fits_i64(m) {
        m as i64
    } else {
        i64::MAX
    }
}

/// The largest raise target offered: the player's chips plus bet, or
/// `i64::MAX` when that does not fit.
pub open spec fn offered_max_raise(p: PlayerView) -> i64 {
    if fits_i64(p.chips + p.bet_this_round) {
        (p.chips + p.bet_this_round) as i64
    } else {
        i64::MAX
    }
}

/// A valid action with no raise bounds.
pub open spec fn plain(a: PlayerAction) -> ValidAction {
    ValidAction { action: a, min_raise: None, max_raise: None }
}

/// The actions offered to player `i`: nothing to a folded or all-in player;
/// otherwise Fold, then Check (no bet to face) or Call (if affordable),
/// then, with chips left, a Raise with its bounds and All-In.
pub open spec fn valid_actions_spec(g: GameView, i: int) -> Seq<ValidAction> {
    let p = g.players[i];
    if p.is_folded || p.is_all_in {
        Seq::empty()
    } else {
        let second = if p.bet_this_round >= g.current_bet {
            seq![plain(PlayerAction::Check)]
        } else if g.current_bet - p.bet_this_round <= p.chips {
            seq![plain(PlayerAction::Call)]
        } else {
            Seq::empty()
        };
        let raising = if p.chips > 0 {
            seq![
                ValidAction {
                    action: PlayerAction::Raise(0),
                    min_raise: Some(offered_min_raise(g)),
                    max_raise: Some(offered_max_raise(p)),
                },
                plain(PlayerAction::AllIn),
            ]
        } else {
            Seq::empty()
        };
        seq![plain(PlayerAction::Fold)] + second + raising
    }
}

/// The chips in the players' stacks.
pub open spec fn sum_chips(ps: Seq<PlayerView>) -> int
    decreases ps.len(),
{
    if ps.len() == 0 {
        0
    } else {
        sum_chips(ps.drop_last()) + ps.last().chips
    }
}

/// The chips the players have put in during the hand.
pub open spec fn sum_total_bets(ps: Seq<PlayerView>) -> int
    decreases ps.len(),
{
    if ps.len() == 0 {
        0
    } else {
        sum_total_bets(ps.drop_last()) + ps.last().total_bet
    }
}

/// The chips in play at the table: the stacks plus the pot.
pub open spec fn chips_in_play(g: GameView) -> int {
    sum_chips(g.players) + g.pot
}

/// Replacing one player changes the sums of stacks and of total bets by the difference.
pub proof fn lemma_sums_update(ps: Seq<PlayerView>, i: int, p: PlayerView)
    requires
        0 <= i < ps.len(),
    ensures
        sum_chips(ps.update(i, p)) == sum_chips(ps) - ps[i].chips + p.chips,
        sum_total_bets(ps.update(i, p)) == sum_total_bets(ps) - ps[i].total_bet + p.total_bet,
    decreases ps.len(),
{
    let u = ps.update(i, p);
    if i == ps.len() - 1 {
        assert(u.drop_last() =~= ps.drop_last());
    } else {
        lemma_sums_update(ps.drop_last(), i, p);
        assert(u.drop_last() =~= ps.drop_last().update(i, p));
    }
}

/// A successful action never creates or destroys chips: what leaves a
/// player's stack enters the pot, and the pot grows by exactly what the
/// players add to their total bets.
pub proof fn lemma_apply_conserves_chips(g: GameView, i: int, a: PlayerAction)
    requires
        apply_spec(g, i, a).1 is Ok,
    ensures
        chips_in_play(apply_spec(g, i, a).0) == chips_in_play(g),
        apply_spec(g, i, a).0.pot - g.pot == sum_total_bets(apply_spec(g, i, a).0.players)
            - sum_total_bets(g.players),
        apply_spec(g, i, a).0.players.len() == g.players.len(),
{
    let after = apply_spec(g, i, a).0;
    match a {
        PlayerAction::Fold => {
            lemma_sums_update(g.players, i, PlayerView { is_folded: true, ..g.players[i] });
        },
        PlayerAction::Check => {},
        PlayerAction::Call | PlayerAction::Raise(_) | PlayerAction::AllIn => {
            lemma_sums_update(g.players, i, after.players[i]);
            assert(after.players =~= g.players.update(i, after.players[i]));
        },
    }
}

/// An action that validation refuses is refused by `apply_action` with the
/// same error, and the game is left unchanged.
pub proof fn lemma_refused_action_changes_nothing(g: GameView, i: int, a: PlayerAction)
    requires
        0 <= i < g.players.len(),
        validate_spec(g, i, a) is Err,
    ensures
        apply_spec(g, i, a) == (g, validate_spec(g, i, a)),
{
}

/// Heads-up, a fold ends the betting round: once one of the two players
/// still in the hand folds, the round is complete.
pub proof fn lemma_fold_ends_heads_up_round(g: GameView, i: int)
    requires
        g.players.len() == 2,
        0 <= i < 2,
        !g.players[0].is_folded,
        !g.players[1].is_folded,
        !g.players[i].is_all_in,
    ensures
        apply_spec(g, i, PlayerAction::Fold).1 is Ok,
        round_complete_spec(apply_spec(g, i, PlayerAction::Fold).0),
{
    let after = apply_spec(g, i, PlayerAction::Fold).0;
    let ps = after.players;
    let still_in = |p: PlayerView| !p.is_folded;
    assert(ps[i].is_folded);
    assert(!ps[1 - i].is_folded);
    reveal_with_fuel(Seq::filter, 3);
    assert(ps =~= seq![ps[0], ps[1]]);
    assert(ps.drop_last() =~= seq![ps[0]]);
    assert(seq![ps[0]].drop_last() =~= Seq::<PlayerView>::empty());
    assert(ps.filter(still_in) =~= seq![ps[1 - i]]);
}

/// The betting round is over once every player still in the hand is
/// all-in or has matched the current bet: a player all-in for less owes
/// nothing more.
pub proof fn lemma_round_complete_when_settled(g: GameView)
    requires
        forall|k: int|
            0 <= k < g.players.len() && !g.players[k].is_folded ==> (#[trigger] g.players[k]).is_all_in
                || g.players[k].bet_this_round == g.current_bet,
    ensures
        round_complete_spec(g),
{
    let pred = |p: PlayerView| !p.is_folded;
    let active = g.players.filter(pred);
    assert forall|k: int| 0 <= k < active.len() implies (#[trigger] active[k]).is_all_in
        || active[k].bet_this_round == g.current_bet by {
        g.players.lemma_filter_pred(pred, k);
        assert(active.contains(active[k]));
        g.players.lemma_filter_contains_rev(pred, active[k]);
        let m = choose|m: int| 0 <= m < g.players.len() && g.players[m] == active[k];
        assert(!g.players[m].is_folded);
    }
}

/// The minimum raise: a legal raise goes above the current bet and, unless
/// it puts the player's whole stack in, reaches twice the big blind when the
/// bet is still the big blind, and twice the current bet otherwise. It never
/// costs more than the player's stack.
pub proof fn lemma_raise_minimum(g: GameView, i: int, raise_to: i64)
    requires
        0 <= i < g.players.len(),
        validate_spec(g, i, PlayerAction::Raise(raise_to)) is Ok,
    ensures
        raise_to > g.current_bet,
        raise_to - g.players[i].bet_this_round <= g.players[i].chips,
        raise_to - g.players[i].bet_this_round < g.players[i].chips ==> {
            &&& g.current_bet == g.big_blind ==> raise_to >= 2 * g.big_blind
            &&& g.current_bet != g.big_blind ==> raise_to >= 2 * g.current_bet
        },
{
}

/// The smallest raise offered is twice the big blind while the bet is the
/// big blind, and twice the current bet otherwise (as long as it fits).
pub proof fn lemma_offered_min_raise_doubles(g: GameView)
    ensures
        g.current_bet == g.big_blind && fits_i64(2 * g.big_blind) ==> offered_min_raise(g) == 2
            * g.big_blind,
        g.current_bet != g.big_blind && fits_i64(2 * g.current_bet) ==> offered_min_raise(g) == 2
            * g.current_bet,
{
}

/// The offered actions match validation: Fold, Check, Call and All-In are
/// offered exactly when they are legal (for a player whose stack is not
/// negative), and a Raise is offered exactly when the player can act and has chips.
pub proof fn lemma_valid_actions_match_validation(g: GameView, i: int)
    requires
        0 <= i < g.players.len(),
        g.players[i].chips >= 0,
    ensures
        valid_actions_spec(g, i).contains(plain(PlayerAction::Fold)) <==> validate_spec(
            g,
            i,
            PlayerAction::Fold,
        ) is Ok,
        valid_actions_spec(g, i).contains(plain(PlayerAction::Check)) <==> validate_spec(
            g,
            i,
            PlayerAction::Check,
        ) is Ok,
        valid_actions_spec(g, i).contains(plain(PlayerAction::Call)) <==> validate_spec(
            g,
            i,
            PlayerAction::Call,
        ) is Ok,
        valid_actions_spec(g, i).contains(plain(PlayerAction::AllIn)) <==> validate_spec(
            g,
            i,
            PlayerAction::AllIn,
        ) is Ok,
        (exists|k: int|
            0 <= k < valid_actions_spec(g, i).len() && (#[trigger] valid_actions_spec(g, i)[k]).action
                is Raise) <==> (!g.players[i].is_folded && !g.players[i].is_all_in
            && g.players[i].chips > 0),
{
    let v = valid_actions_spec(g, i);
    let p = g.players[i];
    if !p.is_folded && !p.is_all_in {
        let fold = plain(PlayerAction::Fold);
        assert(v[0] == fold);
        if p.chips > 0 {
            assert(v[v.len() - 1] == plain(PlayerAction::AllIn));
            assert(v[v.len() - 2].action is Raise);
        } else {
            assert forall|k: int| 0 <= k < v.len() implies (#[trigger] v[k]).action !is Raise by {}
            assert(!v.contains(plain(PlayerAction::AllIn)));
        }
        if p.bet_this_round >= g.current_bet {
            assert(v[1] == plain(PlayerAction::Check));
            assert(!v.contains(plain(PlayerAction::Call)));
        } else if g.current_bet - p.bet_this_round <= p.chips {
            assert(v[1] == plain(PlayerAction::Call));
            assert(!v.contains(plain(PlayerAction::Check)));
        } else {
            assert(!v.contains(plain(PlayerAction::Call)));
            assert(!v.contains(plain(PlayerAction::Check)));
        }
    } else {
        assert(v.len() == 0);
        assert(!v.contains(plain(PlayerAction::Fold)));
    }
}

/// Every raise target between the offered bounds is legal, for a player
/// with a non-negative bet facing a positive current bet with a positive
/// big blind, when the minimum raise fits in an `i64`.
pub proof fn lemma_offered_raise_is_legal(g: GameView, i: int, raise_to: i64)
    requires
        0 <= i < g.players.len(),
        !g.players[i].is_folded,
        !g.players[i].is_all_in,
        g.players[i].chips > 0,
        g.players[i].bet_this_round >= 0,
        g.current_bet > 0,
        g.big_blind > 0,
        fits_i64(min_raise_target(g.current_bet, g.big_blind)),
        offered_min_raise(g) <= raise_to <= offered_max_raise(g.players[i]),
    ensures
        validate_spec(g, i, PlayerAction::Raise(raise_to)) is Ok,
{
}

/// Betting rules of No Limit Hold'em.
pub struct BettingRules;

impl BettingRules {
    /// Validates whether an action is legal for player `player_idx`.
    pub fn validate_action(game: &GameState, player_idx: usize, action: &PlayerAction) -> (r: Result<
        (),
        PokerError,
    >)
        requires
            validate_requires(game@, player_idx as int, *action),
        ensures
            result_view(r) == validate_spec(game@, player_idx as int, *action),
    {
        let player = &game.players[player_idx];
        assert(player@ == game@.players[player_idx as int]);
        if player.is_folded {
            return Err(invalid_action_error("Player has folded"));
        }
        if player.is_all_in {
            return Err(invalid_action_error("Player is all-in"));
        }
        match action {
            PlayerAction::Fold => Ok(()),
            PlayerAction::Check => Self::validate_check(game, player),
            PlayerAction::Call => Self::validate_call(game, player),
            PlayerAction::Raise(amount) => Self::validate_raise(game, player, *amount),
            PlayerAction::AllIn => Self::validate_all_in(game, player),
        }
    }

    /// Applies an action of player `player_idx` to the game.
    ///
    /// An unknown player or an illegal action is refused and leaves the game
    /// unchanged. Fold marks the player folded; Check changes nothing; Call,
    /// Raise and All-In move chips from the player's stack to the pot (a
    /// raise also sets the current bet, and an all-in above the current bet
    /// raises it); a player left with no chips is all-in.
    pub fn apply_action(game: &mut GameState, player_idx: usize, action: PlayerAction) -> (r: Result<
        (),
        PokerError,
    >)
        requires
            (player_idx < old(game)@.players.len()) ==> validate_requires(
                old(game)@,
                player_idx as int,
                action,
            ),
        ensures
            (final(game)@, result_view(r)) == apply_spec(old(game)@, player_idx as int, action),
    {
        if player_idx >= game.players.len() {
            return Err(game_error("Invalid player index"));
        }
        match Self::validate_action(game, player_idx, &action) {
            Ok(()) => {},
            Err(e) => {
                return Err(e);
            },
        }
        let ghost g = game@;
        let ghost i = player_idx as int;
        assert(game.players@[i]@ == g.players[i]);
        match action {
            PlayerAction::Fold => {
                game.players[player_idx].is_folded = true;
                assert(game@ =~= with_player(g, i, PlayerView { is_folded: true, ..g.players[i] }));
            },
            PlayerAction::Check => {},
            PlayerAction::Call => {
                return Self::apply_call(game, player_idx);
            },
            PlayerAction::Raise(raise_to) => {
                return Self::apply_raise(game, player_idx, raise_to);
            },
            PlayerAction::AllIn => {
                return Self::apply_all_in(game, player_idx);
            },
        }
        Ok(())
    }

    fn apply_call(game: &mut GameState, player_idx: usize) -> (r: Result<(), PokerError>)
        requires
            player_idx < old(game)@.players.len(),
            validate_spec(old(game)@, player_idx as int, PlayerAction::Call) is Ok,
            call_amount_fits(old(game)@, player_idx as int),
        ensures
            (final(game)@, result_view(r)) == call_effect(old(game)@, player_idx as int),
    {
        let ghost g = game@;
        let ghost i = player_idx as int;
        assert(game.players@[i]@ == g.players[i]);
        let call_amount = game.current_bet - game.players[player_idx].bet_this_round;
        match game.players[player_idx].chips.checked_sub(call_amount) {
            Some(c) => {
                game.players[player_idx].chips = c;
            },
            None => {
                return Err(game_error("Insufficient chips for call"));
            },
        }
        match game.players[player_idx].bet_this_round.checked_add(call_amount) {
            Some(b) => {
                game.players[player_idx].bet_this_round = b;
            },
            None => {
                return Err(game_error("Overflow in bet calculation"));
            },
        }
        match game.players[player_idx].total_bet.checked_add(call_amount) {
            Some(t) => {
                game.players[player_idx].total_bet = t;
            },
            None => {
                assert(game@ =~= call_effect(g, i).0);
                return Err(game_error("Overflow in total bet"));
            },
        }
        match game.pot.checked_add(call_amount) {
            Some(p) => {
                game.pot = p;
            },
            None => {
                assert(game@ =~= call_effect(g, i).0);
                return Err(game_error("Overflow in pot"));
            },
        }
        if game.players[player_idx].chips == 0 {
            game.players[player_idx].is_all_in = true;
        }
        assert(game@ =~= call_effect(g, i).0);
        Ok(())
    }

    fn apply_raise(game: &mut GameState, player_idx: usize, raise_to: i64) -> (r: Result<
        (),
        PokerError,
    >)
        requires
            player_idx < old(game)@.players.len(),
            validate_spec(old(game)@, player_idx as int, PlayerAction::Raise(raise_to)) is Ok,
        ensures
            (final(game)@, result_view(r)) == raise_effect(old(game)@, player_idx as int, raise_to),
    {
        let ghost g = game@;
        let ghost i = player_idx as int;
        assert(game.players@[i]@ == g.players[i]);
        let amount_to_add = raise_to - game.players[player_idx].bet_this_round;
        match game.players[player_idx].chips.checked_sub(amount_to_add) {
            Some(c) => {
                game.players[player_idx].chips = c;
            },
            None => {
                return Err(game_error("Insufficient chips for raise"));
            },
        }
        game.players[player_idx].bet_this_round = raise_to;
        match game.players[player_idx].total_bet.checked_add(amount_to_add) {
            Some(t) => {
                game.players[player_idx].total_bet = t;
            },
            None => {
                assert(game@ =~= raise_effect(g, i, raise_to).0);
                return Err(game_error("Overflow in total bet"));
            },
        }
        match game.pot.checked_add(amount_to_add) {
            Some(p) => {
                game.pot = p;
            },
            None => {
                assert(game@ =~= raise_effect(g, i, raise_to).0);
                return Err(game_error("Overflow in pot"));
            },
        }
        game.current_bet = raise_to;
        if game.players[player_idx].chips == 0 {
            game.players[player_idx].is_all_in = true;
        }
        assert(game@ =~= raise_effect(g, i, raise_to).0);
        Ok(())
    }

    fn apply_all_in(game: &mut GameState, player_idx: usize) -> (r: Result<(), PokerError>)
        requires
            player_idx < old(game)@.players.len(),
        ensures
            (final(game)@, result_view(r)) == all_in_effect(old(game)@, player_idx as int),
    {
        let ghost g = game@;
        let ghost i = player_idx as int;
        assert(game.players@[i]@ == g.players[i]);
        let all_in_amount = game.players[player_idx].chips;
        game.players[player_idx].chips = 0;
        match game.players[player_idx].bet_this_round.checked_add(all_in_amount) {
            Some(b) => {
                game.players[player_idx].bet_this_round = b;
            },
            None => {
                assert(game@ =~= all_in_effect(g, i).0);
                return Err(game_error("Overflow in bet calculation"));
            },
        }
        match game.players[player_idx].total_bet.checked_add(all_in_amount) {
            Some(t) => {
                game.players[player_idx].total_bet = t;
            },
            None => {
                assert(game@ =~= all_in_effect(g, i).0);
                return Err(game_error("Overflow in total bet"));
            },
        }
        match game.pot.checked_add(all_in_amount) {
            Some(p) => {
                game.pot = p;
            },
            None => {
                assert(game@ =~= all_in_effect(g, i).0);
                return Err(game_error("Overflow in pot"));
            },
        }
        game.players[player_idx].is_all_in = true;
        if game.players[player_idx].bet_this_round > game.current_bet {
            game.current_bet = game.players[player_idx].bet_this_round;
        }
        assert(game@ =~= all_in_effect(g, i).0);
        Ok(())
    }

    /// Whether the betting round is over: one player left in the hand, or
    /// every player still in it is all-in or has matched the current bet.
    pub fn is_round_complete(game: &GameState) -> (b: bool)
        ensures
            b == round_complete_spec(game@),
    {
        let ghost all = game@.players;
        let ghost pred = |p: PlayerView| !p.is_folded;
        let mut active_count: usize = 0;
        let mut all_matched = true;
        let mut i: usize = 0;
        while i < game.players.len()
            invariant
                i <= game.players@.len(),
                all == game@.players,
                pred == (|p: PlayerView| !p.is_folded),
                active_count == all.take(i as int).filter(pred).len(),
                active_count <= i,
                all_matched == (forall|k: int|
                    0 <= k < all.take(i as int).filter(pred).len() ==> (#[trigger] all.take(
                        i as int,
                    ).filter(pred)[k]).is_all_in || all.take(i as int).filter(pred)[k].bet_this_round
                        == game@.current_bet),
            decreases game.players@.len() - i,
        {
            let p = &game.players[i];
            proof {
                assert(all.take(i + 1).drop_last() =~= all.take(i as int));
                assert(all.take(i + 1).last() == p@);
                reveal_with_fuel(Seq::filter, 1);
            }
            if !p.is_folded {
                active_count = active_count + 1;
                if !(p.is_all_in || p.bet_this_round == game.current_bet) {
                    all_matched = false;
                }
            }
            proof {
                let old_f = all.take(i as int).filter(pred);
                let new_f = all.take(i + 1).filter(pred);
                if pred(p@) {
                    assert(new_f =~= old_f.push(p@));
                    if all_matched {
                        assert forall|k: int| 0 <= k < new_f.len() implies (#[trigger] new_f[k]).is_all_in
                            || new_f[k].bet_this_round == game@.current_bet by {
                            if k < old_f.len() {
                                assert(new_f[k] == old_f[k]);
                            }
                        }
                    } else {
                        if p.is_all_in || p.bet_this_round == game.current_bet {
                            let k = choose|k: int|
                                0 <= k < old_f.len() && !((#[trigger] old_f[k]).is_all_in
                                    || old_f[k].bet_this_round == game@.current_bet);
                            assert(new_f[k] == old_f[k]);
                        } else {
                            assert(new_f[old_f.len() as int] == p@);
                        }
                    }
                } else {
                    assert(new_f =~= old_f);
                }
            }
            i = i + 1;
        }
        assert(all.take(all.len() as int) =~= all);
        if active_count == 1 {
            return true;
        }
        all_matched
    }

    /// The actions player `player_idx` may take, with the raise bounds.
    pub fn get_valid_actions(game: &GameState, player_idx: usize) -> (r: Vec<ValidAction>)
        requires
            player_idx < game@.players.len(),
            !game@.players[player_idx as int].is_folded && !game@.players[player_idx as int].is_all_in
                ==> call_amount_fits(game@, player_idx as int),
        ensures
            r@ == valid_actions_spec(game@, player_idx as int),
    {
        let player = &game.players[player_idx];
        assert(player@ == game@.players[player_idx as int]);
        let mut actions: Vec<ValidAction> = Vec::new();
        if player.is_folded || player.is_all_in {
            assert(actions@ =~= valid_actions_spec(game@, player_idx as int));
            return actions;
        }
        actions.push(ValidAction { action: PlayerAction::Fold, min_raise: None, max_raise: None });
        if player.bet_this_round >= game.current_bet {
            actions.push(ValidAction { action: PlayerAction::Check, min_raise: None, max_raise: None });
        } else {
            let call_amount = game.current_bet - player.bet_this_round;
            if call_amount <= player.chips {
                actions.push(
                    ValidAction { action: PlayerAction::Call, min_raise: None, max_raise: None },
                );
            }
        }
        if player.chips > 0 {
            let min_raise = if game.current_bet == game.big_blind {
                match game.current_bet.checked_add(game.big_blind) {
                    Some(m) => m,
                    None => i64::MAX,
                }
            } else {
                match game.current_bet.checked_mul(2) {
                    Some(m) => m,
                    None => i64::MAX,
                }
            };
            let max_raise = match player.chips.checked_add(player.bet_this_round) {
                Some(m) => m,
                None => i64::MAX,
            };
            actions.push(
                ValidAction {
                    action: PlayerAction::Raise(0),
                    min_raise: Some(min_raise),
                    max_raise: Some(max_raise),
                },
            );
        }
        if player.chips > 0 {
            actions.push(ValidAction { action: PlayerAction::AllIn, min_raise: None, max_raise: None });
        }
        assert(actions@ =~= valid_actions_spec(game@, player_idx as int));
        actions
    }

    fn validate_check(game: &GameState, player: &PlayerGameState) -> (r: Result<(), PokerError>)
        ensures
            result_view(r) == (if player.bet_this_round < game.current_bet {
                Err(ErrorView::InvalidAction("Cannot check when facing a bet"@))
            } else {
                Ok(())
            }),
    {
        if player.bet_this_round < game.current_bet {
            return Err(invalid_action_error("Cannot check when facing a bet"));
        }
        Ok(())
    }

    fn validate_call(game: &GameState, player: &PlayerGameState) -> (r: Result<(), PokerError>)
        requires
            player.bet_this_round < game.current_bet ==> fits_i64(
                game.current_bet - player.bet_this_round,
            ),
        ensures
            result_view(r) == (if player.bet_this_round >= game.current_bet {
                Err(ErrorView::InvalidAction("No bet to call (should check instead)"@))
            } else if game.current_bet - player.bet_this_round > player.chips {
                Err(ErrorView::InvalidAction("Insufficient chips to call (go all-in instead)"@))
            } else {
                Ok(())
            }),
    {
        if player.bet_this_round >= game.current_bet {
            return Err(invalid_action_error("No bet to call (should check instead)"));
        }
        let call_amount = game.current_bet - player.bet_this_round;
        if call_amount > player.chips {
            return Err(invalid_action_error("Insufficient chips to call (go all-in instead)"));
        }
        Ok(())
    }

    fn validate_raise(game: &GameState, player: &PlayerGameState, raise_to: i64) -> (r: Result<
        (),
        PokerError,
    >)
        ensures
            result_view(r) == raise_check(game@, player@, raise_to),
    {
        if raise_to <= 0 {
            return Err(invalid_action_error("Raise amount must be positive"));
        }
        let total_needed = match raise_to.checked_sub(player.bet_this_round) {
            Some(t) => t,
            None => {
                return Err(invalid_action_error("Invalid raise calculation"));
            },
        };
        if raise_to <= game.current_bet {
            return Err(invalid_action_error("Raise amount must be greater than current bet"));
        }
        let min_raise = if game.current_bet == game.big_blind {
            match game.current_bet.checked_add(game.big_blind) {
                Some(m) => m,
                None => {
                    return Err(game_error("Overflow in min raise calculation"));
                },
            }
        } else {
            match game.current_bet.checked_mul(2) {
                Some(m) => m,
                None => {
                    return Err(game_error("Overflow in min raise calculation"));
                },
            }
        };
        if raise_to < min_raise && total_needed < player.chips {
            let mut reason = String::from_str("Minimum raise is ");
            let n = int_to_string(min_raise as i128);
            reason.append(n.as_str());
            return Err(PokerError::InvalidAction { reason });
        }
        if total_needed > player.chips {
            return Err(invalid_action_error("Insufficient chips for this raise (go all-in instead)"));
        }
        Ok(())
    }

    fn validate_all_in(_game: &GameState, player: &PlayerGameState) -> (r: Result<(), PokerError>)
        ensures
            result_view(r) == (if player.chips == 0 {
                Err(ErrorView::InvalidAction("No chips to go all-in with"@))
            } else {
                Ok(())
            }),
    {
        if player.chips == 0 {
            return Err(invalid_action_error("No chips to go all-in with"));
        }
        Ok(())
    }
}

} // verus!
