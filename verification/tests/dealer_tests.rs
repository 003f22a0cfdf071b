use poker_server::game_logic::dealer::Dealer;
use poker_server::models::game::{GameStage, GameState};

fn seated(chips: i64) -> GameState {
    let mut game = GameState::new(1, 50, 100);
    game.add_player(1, "player1".to_string(), chips).unwrap();
    game.add_player(2, "player2".to_string(), chips).unwrap();
    game
}

#[test]
fn test_start_new_hand() {
    let mut game = seated(100);
    Dealer::start_new_hand(&mut game).unwrap();
    assert_eq!(game.stage, GameStage::PreFlop);
    assert_eq!(game.hand_number, 1);
    assert_eq!(game.players[0].hole_cards.len(), 2);
    assert_eq!(game.players[1].hole_cards.len(), 2);
    assert!(game.pot > 0);
}

#[test]
fn test_blinds_posted() {
    let mut game = seated(10000);
    Dealer::start_new_hand(&mut game).unwrap();
    assert_eq!(game.pot, 150);
}

#[test]
fn test_deal_flop() {
    let mut game = seated(100);
    Dealer::start_new_hand(&mut game).unwrap();
    Dealer::deal_flop(&mut game).unwrap();
    assert_eq!(game.stage, GameStage::Flop);
    assert_eq!(game.community_cards.len(), 3);
}

#[test]
fn test_deal_turn() {
    let mut game = seated(100);
    Dealer::start_new_hand(&mut game).unwrap();
    Dealer::deal_flop(&mut game).unwrap();
    Dealer::deal_turn(&mut game).unwrap();
    assert_eq!(game.stage, GameStage::Turn);
    assert_eq!(game.community_cards.len(), 4);
}

#[test]
fn test_deal_river() {
    let mut game = seated(100);
    Dealer::start_new_hand(&mut game).unwrap();
    Dealer::deal_flop(&mut game).unwrap();
    Dealer::deal_turn(&mut game).unwrap();
    Dealer::deal_river(&mut game).unwrap();
    assert_eq!(game.stage, GameStage::River);
    assert_eq!(game.community_cards.len(), 5);
}
