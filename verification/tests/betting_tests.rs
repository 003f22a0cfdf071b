use poker_server::game_logic::betting::BettingRules;
use poker_server::game_logic::dealer::Dealer;
use poker_server::models::game::{GameState, PlayerAction};

fn heads_up(chips: i64) -> GameState {
    let mut game = GameState::new(1, 50, 100);
    game.add_player(1, "player1".to_string(), chips).unwrap();
    game.add_player(2, "player2".to_string(), chips).unwrap();
    Dealer::start_new_hand(&mut game).unwrap();
    game
}

#[test]
fn test_validate_check() {
    let game = heads_up(100);
    assert!(BettingRules::validate_action(&game, 0, &PlayerAction::Check).is_err());
}

#[test]
fn test_validate_call() {
    let game = heads_up(100);
    assert!(BettingRules::validate_action(&game, 0, &PlayerAction::Call).is_ok());
}

#[test]
fn test_apply_call() {
    let mut game = heads_up(100);
    let initial_chips = game.players[0].chips;
    BettingRules::apply_action(&mut game, 0, PlayerAction::Call).unwrap();
    assert!(game.players[0].chips < initial_chips);
}

#[test]
fn test_apply_raise() {
    let mut game = heads_up(10000);
    BettingRules::apply_action(&mut game, 0, PlayerAction::Raise(200)).unwrap();
    assert_eq!(game.current_bet, 200);
    assert_eq!(game.players[0].bet_this_round, 200);
}

#[test]
fn test_apply_fold() {
    let mut game = heads_up(100);
    BettingRules::apply_action(&mut game, 0, PlayerAction::Fold).unwrap();
    assert!(game.players[0].is_folded);
}

#[test]
fn test_apply_all_in() {
    let mut game = heads_up(5000);
    BettingRules::apply_action(&mut game, 0, PlayerAction::AllIn).unwrap();
    assert_eq!(game.players[0].chips, 0);
    assert!(game.players[0].is_all_in);
}

#[test]
fn test_round_complete_one_fold() {
    let mut game = heads_up(100);
    game.players[0].is_folded = true;
    assert!(BettingRules::is_round_complete(&game));
}

#[test]
fn test_round_complete_bets_matched() {
    let mut game = heads_up(10000);
    game.players[0].bet_this_round = game.big_blind;
    game.players[1].bet_this_round = game.big_blind;
    assert!(BettingRules::is_round_complete(&game));
}

#[test]
fn test_get_valid_actions() {
    let game = heads_up(100);
    let actions = BettingRules::get_valid_actions(&game, 0);
    assert!(actions.iter().any(|a| matches!(a.action, PlayerAction::Fold)));
    assert!(actions.iter().any(|a| matches!(a.action, PlayerAction::Call)));
    assert!(actions.iter().any(|a| matches!(a.action, PlayerAction::Raise(_))));
    assert!(actions.iter().any(|a| matches!(a.action, PlayerAction::AllIn)));
}
