use std::collections::HashSet;

use poker_server::error::PokerError;
use poker_server::game_logic::betting::BettingRules;
use poker_server::game_logic::dealer::Dealer;
use poker_server::game_logic::hand_evaluator::{compare_hands, evaluate_hand, HandRank};
use poker_server::models::card::{Card, Rank, Suit};
use poker_server::models::game::{GameStage, GameState, PlayerAction};

fn started(chips_a: i64, chips_b: i64) -> GameState {
    let mut game = GameState::new(7, 50, 100);
    game.add_player(1, "alice".to_string(), chips_a).unwrap();
    game.add_player(2, "bob".to_string(), chips_b).unwrap();
    Dealer::start_new_hand(&mut game).unwrap();
    game
}

fn chips_in_play(game: &GameState) -> i64 {
    game.players.iter().map(|p| p.chips).sum::<i64>() + game.pot
}

fn all_cards(game: &GameState) -> Vec<Card> {
    let mut cards: Vec<Card> = Vec::new();
    for p in &game.players {
        cards.extend(p.hole_cards.iter().copied());
    }
    cards.extend(game.community_cards.iter().copied());
    let mut deck = game.deck.clone();
    while let Some(c) = deck.deal() {
        cards.push(c);
    }
    cards
}

#[test]
fn actions_keep_every_chip() {
    let mut game = started(1000, 1000);
    let before = chips_in_play(&game);
    assert_eq!(before, 2000);
    BettingRules::apply_action(&mut game, 0, PlayerAction::Call).unwrap();
    assert_eq!(chips_in_play(&game), before);
    BettingRules::apply_action(&mut game, 1, PlayerAction::Raise(300)).unwrap();
    assert_eq!(chips_in_play(&game), before);
    assert_eq!(game.current_bet, 300);
    BettingRules::apply_action(&mut game, 0, PlayerAction::AllIn).unwrap();
    assert_eq!(chips_in_play(&game), before);
    assert_eq!(game.players[0].chips, 0);
    assert!(game.players[0].is_all_in);
    assert_eq!(game.current_bet, 1000);
}

#[test]
fn refused_action_leaves_game_unchanged() {
    let mut game = started(1000, 1000);
    let pot = game.pot;
    let chips = game.players[0].chips;
    let bet = game.players[0].bet_this_round;
    let err = BettingRules::apply_action(&mut game, 0, PlayerAction::Check).unwrap_err();
    assert_eq!(err.to_string(), "Invalid action: Cannot check when facing a bet");
    assert_eq!(game.pot, pot);
    assert_eq!(game.players[0].chips, chips);
    assert_eq!(game.players[0].bet_this_round, bet);
    assert!(!game.players[0].is_folded);
}

#[test]
fn apply_action_refuses_unknown_player() {
    let mut game = started(1000, 1000);
    let err = BettingRules::apply_action(&mut game, 5, PlayerAction::Fold).unwrap_err();
    assert!(matches!(err, PokerError::Game { ref message } if message == "Invalid player index"));
}

#[test]
fn raise_errors() {
    let game = started(1000, 1000);
    let below_min = BettingRules::validate_action(&game, 0, &PlayerAction::Raise(150)).unwrap_err();
    assert_eq!(below_min.to_string(), "Invalid action: Minimum raise is 200");
    let not_above = BettingRules::validate_action(&game, 0, &PlayerAction::Raise(100)).unwrap_err();
    assert_eq!(
        not_above.to_string(),
        "Invalid action: Raise amount must be greater than current bet"
    );
    let negative = BettingRules::validate_action(&game, 0, &PlayerAction::Raise(-5)).unwrap_err();
    assert_eq!(negative.to_string(), "Invalid action: Raise amount must be positive");
    let too_big = BettingRules::validate_action(&game, 0, &PlayerAction::Raise(5000)).unwrap_err();
    assert_eq!(
        too_big.to_string(),
        "Invalid action: Insufficient chips for this raise (go all-in instead)"
    );
}

#[test]
fn offered_actions_validate() {
    let game = started(1000, 1000);
    let actions = BettingRules::get_valid_actions(&game, 0);
    assert_eq!(actions.len(), 4);
    for a in &actions {
        match a.action {
            PlayerAction::Raise(_) => {
                let lo = a.min_raise.unwrap();
                let hi = a.max_raise.unwrap();
                assert_eq!(lo, 200);
                assert_eq!(hi, 1000);
                assert!(BettingRules::validate_action(&game, 0, &PlayerAction::Raise(lo)).is_ok());
                assert!(BettingRules::validate_action(&game, 0, &PlayerAction::Raise(hi)).is_ok());
            }
            other => assert!(BettingRules::validate_action(&game, 0, &other).is_ok()),
        }
    }
    assert_eq!(actions[1].to_string(), "Call");
}

#[test]
fn folded_player_is_offered_nothing() {
    let mut game = started(1000, 1000);
    BettingRules::apply_action(&mut game, 0, PlayerAction::Fold).unwrap();
    assert!(BettingRules::get_valid_actions(&game, 0).is_empty());
    let err = BettingRules::validate_action(&game, 0, &PlayerAction::Call).unwrap_err();
    assert_eq!(err.to_string(), "Invalid action: Player has folded");
}

#[test]
fn new_hand_deals_two_each_from_a_full_deck() {
    let game = started(10000, 10000);
    assert_eq!(game.stage, GameStage::PreFlop);
    assert_eq!(game.players[0].hole_cards.len(), 2);
    assert_eq!(game.players[1].hole_cards.len(), 2);
    assert_eq!(game.deck.remaining(), 48);
    assert!(game.community_cards.is_empty());
    assert_eq!(game.pot, 150);
    assert_eq!(game.current_bet, 100);
    let cards = all_cards(&game);
    assert_eq!(cards.len(), 52);
    let unique: HashSet<(Suit, Rank)> = cards.iter().map(|c| (c.suit, c.rank)).collect();
    assert_eq!(unique.len(), 52);
}

#[test]
fn short_stack_posts_what_it_has() {
    let game = started(1000, 30);
    assert_eq!(game.pot, 80);
    assert_eq!(game.players[1].chips, 0);
    assert!(game.players[1].is_all_in);
    assert_eq!(game.current_bet, 50);
}

#[test]
fn streets_burn_one_card_each() {
    let mut game = started(1000, 1000);
    Dealer::deal_flop(&mut game).unwrap();
    assert_eq!(game.deck.remaining(), 44);
    Dealer::deal_turn(&mut game).unwrap();
    assert_eq!(game.deck.remaining(), 42);
    Dealer::deal_river(&mut game).unwrap();
    assert_eq!(game.deck.remaining(), 40);
    assert_eq!(game.community_cards.len(), 5);
    assert_eq!(game.current_bet, 0);
    assert_eq!(all_cards(&game).len(), 49);
    let unique: HashSet<(Suit, Rank)> = all_cards(&game).iter().map(|c| (c.suit, c.rank)).collect();
    assert_eq!(unique.len(), 49);
    Dealer::advance_to_showdown(&mut game);
    assert_eq!(game.stage, GameStage::Showdown);
}

#[test]
fn start_needs_two_players() {
    let mut game = GameState::new(1, 50, 100);
    game.add_player(1, "solo".to_string(), 1000).unwrap();
    let err = Dealer::start_new_hand(&mut game).unwrap_err();
    assert_eq!(err.to_string(), "Game logic error: Need at least 2 players to post blinds");
}

fn c(rank: Rank, suit: Suit) -> Card {
    Card::new(suit, rank)
}

#[test]
fn best_five_of_seven_is_chosen() {
    let cards = vec![
        c(Rank::Nine, Suit::Hearts),
        c(Rank::Eight, Suit::Hearts),
        c(Rank::Seven, Suit::Hearts),
        c(Rank::Six, Suit::Clubs),
        c(Rank::Five, Suit::Hearts),
        c(Rank::Two, Suit::Hearts),
        c(Rank::Ten, Suit::Diamonds),
    ];
    let eval = evaluate_hand(cards).unwrap();
    assert_eq!(eval.hand_rank, HandRank::Flush);
    assert_eq!(eval.rank_values, vec![9, 8, 7, 5, 2]);
    assert_eq!(eval.description, "Nine-high Flush");
}

#[test]
fn descriptions_and_kickers() {
    let full = evaluate_hand(vec![
        c(Rank::Ten, Suit::Hearts),
        c(Rank::Ten, Suit::Diamonds),
        c(Rank::Ten, Suit::Clubs),
        c(Rank::Seven, Suit::Spades),
        c(Rank::Seven, Suit::Hearts),
        c(Rank::Two, Suit::Clubs),
        c(Rank::Three, Suit::Clubs),
    ])
    .unwrap();
    assert_eq!(full.description, "Tens full of Sevens");
    assert_eq!(full.rank_values, vec![10, 7]);

    let wheel = evaluate_hand(vec![
        c(Rank::Ace, Suit::Hearts),
        c(Rank::Five, Suit::Diamonds),
        c(Rank::Four, Suit::Clubs),
        c(Rank::Three, Suit::Spades),
        c(Rank::Two, Suit::Hearts),
        c(Rank::King, Suit::Clubs),
        c(Rank::Queen, Suit::Diamonds),
    ])
    .unwrap();
    assert_eq!(wheel.description, "Five-high Straight");
    assert_eq!(wheel.rank_values, vec![5]);

    let two_pair = evaluate_hand(vec![
        c(Rank::Queen, Suit::Hearts),
        c(Rank::Queen, Suit::Diamonds),
        c(Rank::Seven, Suit::Clubs),
        c(Rank::Seven, Suit::Spades),
        c(Rank::Ace, Suit::Hearts),
        c(Rank::Two, Suit::Clubs),
        c(Rank::Three, Suit::Diamonds),
    ])
    .unwrap();
    assert_eq!(two_pair.description, "Two Pair, Queens and Sevens");
    assert_eq!(two_pair.rank_values, vec![12, 7, 14]);
}

#[test]
fn evaluate_hand_needs_seven_cards() {
    let err = evaluate_hand(vec![c(Rank::Ace, Suit::Hearts)]).unwrap_err();
    assert_eq!(
        err.to_string(),
        "Game logic error: Must have exactly 7 cards (2 hole + 5 community), got 1"
    );
}

#[test]
fn hand_order_is_antisymmetric() {
    let pair = evaluate_hand(vec![
        c(Rank::Eight, Suit::Hearts),
        c(Rank::Eight, Suit::Diamonds),
        c(Rank::Ace, Suit::Clubs),
        c(Rank::King, Suit::Spades),
        c(Rank::Queen, Suit::Hearts),
        c(Rank::Two, Suit::Clubs),
        c(Rank::Three, Suit::Diamonds),
    ])
    .unwrap();
    let better_pair = evaluate_hand(vec![
        c(Rank::Eight, Suit::Spades),
        c(Rank::Eight, Suit::Clubs),
        c(Rank::Ace, Suit::Hearts),
        c(Rank::King, Suit::Hearts),
        c(Rank::Jack, Suit::Hearts),
        c(Rank::Four, Suit::Clubs),
        c(Rank::Queen, Suit::Diamonds),
    ])
    .unwrap();
    assert_eq!(compare_hands(&pair, &better_pair), 0);
    let high = evaluate_hand(vec![
        c(Rank::Ace, Suit::Hearts),
        c(Rank::King, Suit::Diamonds),
        c(Rank::Jack, Suit::Clubs),
        c(Rank::Nine, Suit::Spades),
        c(Rank::Seven, Suit::Hearts),
        c(Rank::Five, Suit::Clubs),
        c(Rank::Three, Suit::Diamonds),
    ])
    .unwrap();
    assert_eq!(compare_hands(&pair, &high), 1);
    assert_eq!(compare_hands(&high, &pair), -1);
    assert!(pair > high);
}

#[test]
fn card_and_action_texts() {
    assert_eq!(c(Rank::Ten, Suit::Diamonds).to_string(), "T♦");
    assert_eq!(c(Rank::Two, Suit::Clubs).to_string(), "2♣");
    assert_eq!(c(Rank::Queen, Suit::Spades).to_string(), "Q♠");
    assert_eq!(PlayerAction::Raise(200).to_string(), "Raise to 200");
    assert_eq!(PlayerAction::AllIn.to_string(), "All-In");
    assert_eq!(PlayerAction::Fold.to_string(), "Fold");
}

#[test]
fn dealer_rotation() {
    let mut game = GameState::new(1, 50, 100);
    assert!(game.next_dealer().is_err());
    game.add_player(1, "a".to_string(), 100).unwrap();
    game.add_player(2, "b".to_string(), 100).unwrap();
    game.next_dealer().unwrap();
    assert_eq!(game.dealer_index, 1);
    game.next_dealer().unwrap();
    assert_eq!(game.dealer_index, 0);
    assert!(game.add_player(3, "c".to_string(), 0).is_err());
    assert_eq!(game.active_players().len(), 2);
}

#[test]
fn evaluation_ignores_card_order() {
    let cards = vec![
        c(Rank::Ace, Suit::Hearts),
        c(Rank::Ace, Suit::Spades),
        c(Rank::King, Suit::Hearts),
        c(Rank::Queen, Suit::Hearts),
        c(Rank::Jack, Suit::Hearts),
        c(Rank::Ten, Suit::Spades),
        c(Rank::Two, Suit::Hearts),
    ];
    let mut reversed = cards.clone();
    reversed.reverse();
    let a = evaluate_hand(cards).unwrap();
    let b = evaluate_hand(reversed).unwrap();
    assert_eq!(a.hand_rank, HandRank::Flush);
    assert_eq!(a.hand_rank, b.hand_rank);
    assert_eq!(a.rank_values, b.rank_values);
    assert_eq!(a.description, b.description);
    assert_eq!(a.description, "Ace-high Flush");
}

#[test]
fn fold_ends_the_round() {
    let mut game = started(1000, 1000);
    assert!(!BettingRules::is_round_complete(&game));
    BettingRules::apply_action(&mut game, 1, PlayerAction::Fold).unwrap();
    assert!(BettingRules::is_round_complete(&game));
}

#[test]
fn wheel_is_the_lowest_straight() {
    let wheel = evaluate_hand(vec![
        c(Rank::Ace, Suit::Hearts),
        c(Rank::Five, Suit::Diamonds),
        c(Rank::Four, Suit::Clubs),
        c(Rank::Three, Suit::Spades),
        c(Rank::Two, Suit::Hearts),
        c(Rank::Nine, Suit::Clubs),
        c(Rank::Jack, Suit::Diamonds),
    ])
    .unwrap();
    let six_high = evaluate_hand(vec![
        c(Rank::Six, Suit::Hearts),
        c(Rank::Five, Suit::Diamonds),
        c(Rank::Four, Suit::Clubs),
        c(Rank::Three, Suit::Spades),
        c(Rank::Two, Suit::Hearts),
        c(Rank::Nine, Suit::Clubs),
        c(Rank::Jack, Suit::Diamonds),
    ])
    .unwrap();
    assert_eq!(wheel.hand_rank, HandRank::Straight);
    assert_eq!(six_high.rank_values, vec![6]);
    assert!(six_high > wheel);
    let steel_wheel = evaluate_hand(vec![
        c(Rank::Ace, Suit::Clubs),
        c(Rank::Five, Suit::Clubs),
        c(Rank::Four, Suit::Clubs),
        c(Rank::Three, Suit::Clubs),
        c(Rank::Two, Suit::Clubs),
        c(Rank::Nine, Suit::Hearts),
        c(Rank::Jack, Suit::Diamonds),
    ])
    .unwrap();
    assert_eq!(steel_wheel.hand_rank, HandRank::StraightFlush);
    assert_eq!(steel_wheel.rank_values, vec![5]);
    assert_eq!(steel_wheel.description, "Five-high Straight Flush");
}

#[test]
fn small_blind_acts_first_pre_flop() {
    let mut game = started(1000, 1000);
    assert_eq!(game.dealer_index, 0);
    assert!(game.players[0].is_small_blind);
    assert_eq!(game.current_player_index, Some(0));
    Dealer::deal_flop(&mut game).unwrap();
    assert_eq!(game.current_player_index, Some(1));
    game.next_dealer().unwrap();
    Dealer::start_new_hand(&mut game).unwrap();
    assert!(game.players[1].is_small_blind);
    assert_eq!(game.current_player_index, Some(1));
}
