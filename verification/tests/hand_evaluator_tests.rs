use poker_server::game_logic::hand_evaluator::{evaluate_hand, HandRank};
use poker_server::models::card::{Card, Rank, Suit};

fn make_card(rank: Rank, suit: Suit) -> Card {
    Card::new(suit, rank)
}

#[test]
fn test_royal_flush() {
    let cards = vec![
        make_card(Rank::Ace, Suit::Hearts),
        make_card(Rank::King, Suit::Hearts),
        make_card(Rank::Queen, Suit::Hearts),
        make_card(Rank::Jack, Suit::Hearts),
        make_card(Rank::Ten, Suit::Hearts),
        make_card(Rank::Two, Suit::Clubs),
        make_card(Rank::Three, Suit::Clubs),
    ];
    let eval = evaluate_hand(cards).unwrap();
    assert_eq!(eval.hand_rank, HandRank::RoyalFlush);
}

#[test]
fn test_straight_flush() {
    let cards = vec![
        make_card(Rank::Nine, Suit::Diamonds),
        make_card(Rank::Eight, Suit::Diamonds),
        make_card(Rank::Seven, Suit::Diamonds),
        make_card(Rank::Six, Suit::Diamonds),
        make_card(Rank::Five, Suit::Diamonds),
        make_card(Rank::Two, Suit::Clubs),
        make_card(Rank::Three, Suit::Clubs),
    ];
    let eval = evaluate_hand(cards).unwrap();
    assert_eq!(eval.hand_rank, HandRank::StraightFlush);
}

#[test]
fn test_four_of_a_kind() {
    let cards = vec![
        make_card(Rank::King, Suit::Hearts),
        make_card(Rank::King, Suit::Diamonds),
        make_card(Rank::King, Suit::Clubs),
        make_card(Rank::King, Suit::Spades),
        make_card(Rank::Ace, Suit::Hearts),
        make_card(Rank::Two, Suit::Clubs),
        make_card(Rank::Three, Suit::Clubs),
    ];
    let eval = evaluate_hand(cards).unwrap();
    assert_eq!(eval.hand_rank, HandRank::FourOfAKind);
}

#[test]
fn test_full_house() {
    let cards = vec![
        make_card(Rank::Ten, Suit::Hearts),
        make_card(Rank::Ten, Suit::Diamonds),
        make_card(Rank::Ten, Suit::Clubs),
        make_card(Rank::Seven, Suit::Spades),
        make_card(Rank::Seven, Suit::Hearts),
        make_card(Rank::Two, Suit::Clubs),
        make_card(Rank::Three, Suit::Clubs),
    ];
    let eval = evaluate_hand(cards).unwrap();
    assert_eq!(eval.hand_rank, HandRank::FullHouse);
}

#[test]
fn test_flush() {
    let cards = vec![
        make_card(Rank::Ace, Suit::Spades),
        make_card(Rank::Jack, Suit::Spades),
        make_card(Rank::Nine, Suit::Spades),
        make_card(Rank::Six, Suit::Spades),
        make_card(Rank::Two, Suit::Spades),
        make_card(Rank::King, Suit::Hearts),
        make_card(Rank::Queen, Suit::Hearts),
    ];
    let eval = evaluate_hand(cards).unwrap();
    assert_eq!(eval.hand_rank, HandRank::Flush);
}

#[test]
fn test_straight() {
    let cards = vec![
        make_card(Rank::Ten, Suit::Hearts),
        make_card(Rank::Nine, Suit::Diamonds),
        make_card(Rank::Eight, Suit::Clubs),
        make_card(Rank::Seven, Suit::Spades),
        make_card(Rank::Six, Suit::Hearts),
        make_card(Rank::Two, Suit::Clubs),
        make_card(Rank::Ace, Suit::Diamonds),
    ];
    let eval = evaluate_hand(cards).unwrap();
    assert_eq!(eval.hand_rank, HandRank::Straight);
}

#[test]
fn test_wheel_straight() {
    let cards = vec![
        make_card(Rank::Ace, Suit::Hearts),
        make_card(Rank::Five, Suit::Diamonds),
        make_card(Rank::Four, Suit::Clubs),
        make_card(Rank::Three, Suit::Spades),
        make_card(Rank::Two, Suit::Hearts),
        make_card(Rank::King, Suit::Clubs),
        make_card(Rank::Queen, Suit::Diamonds),
    ];
    let eval = evaluate_hand(cards).unwrap();
    assert_eq!(eval.hand_rank, HandRank::Straight);
}

#[test]
fn test_three_of_a_kind() {
    let cards = vec![
        make_card(Rank::Jack, Suit::Hearts),
        make_card(Rank::Jack, Suit::Diamonds),
        make_card(Rank::Jack, Suit::Clubs),
        make_card(Rank::King, Suit::Spades),
        make_card(Rank::Nine, Suit::Hearts),
        make_card(Rank::Two, Suit::Clubs),
        make_card(Rank::Three, Suit::Diamonds),
    ];
    let eval = evaluate_hand(cards).unwrap();
    assert_eq!(eval.hand_rank, HandRank::ThreeOfAKind);
}

#[test]
fn test_two_pair() {
    let cards = vec![
        make_card(Rank::Queen, Suit::Hearts),
        make_card(Rank::Queen, Suit::Diamonds),
        make_card(Rank::Seven, Suit::Clubs),
        make_card(Rank::Seven, Suit::Spades),
        make_card(Rank::Ace, Suit::Hearts),
        make_card(Rank::Two, Suit::Clubs),
        make_card(Rank::Three, Suit::Diamonds),
    ];
    let eval = evaluate_hand(cards).unwrap();
    assert_eq!(eval.hand_rank, HandRank::TwoPair);
}

#[test]
fn test_pair() {
    let cards = vec![
        make_card(Rank::Eight, Suit::Hearts),
        make_card(Rank::Eight, Suit::Diamonds),
        make_card(Rank::Ace, Suit::Clubs),
        make_card(Rank::King, Suit::Spades),
        make_card(Rank::Queen, Suit::Hearts),
        make_card(Rank::Two, Suit::Clubs),
        make_card(Rank::Three, Suit::Diamonds),
    ];
    let eval = evaluate_hand(cards).unwrap();
    assert_eq!(eval.hand_rank, HandRank::Pair);
}

#[test]
fn test_high_card() {
    let cards = vec![
        make_card(Rank::Ace, Suit::Hearts),
        make_card(Rank::King, Suit::Diamonds),
        make_card(Rank::Jack, Suit::Clubs),
        make_card(Rank::Nine, Suit::Spades),
        make_card(Rank::Seven, Suit::Hearts),
        make_card(Rank::Five, Suit::Clubs),
        make_card(Rank::Three, Suit::Diamonds),
    ];
    let eval = evaluate_hand(cards).unwrap();
    assert_eq!(eval.hand_rank, HandRank::HighCard);
}

#[test]
fn test_hand_comparison() {
    let flush_cards = vec![
        make_card(Rank::Ace, Suit::Spades),
        make_card(Rank::Jack, Suit::Spades),
        make_card(Rank::Nine, Suit::Spades),
        make_card(Rank::Six, Suit::Spades),
        make_card(Rank::Two, Suit::Spades),
        make_card(Rank::King, Suit::Hearts),
        make_card(Rank::Queen, Suit::Hearts),
    ];
    let straight_cards = vec![
        make_card(Rank::Ten, Suit::Hearts),
        make_card(Rank::Nine, Suit::Diamonds),
        make_card(Rank::Eight, Suit::Clubs),
        make_card(Rank::Seven, Suit::Spades),
        make_card(Rank::Six, Suit::Hearts),
        make_card(Rank::Two, Suit::Clubs),
        make_card(Rank::Ace, Suit::Diamonds),
    ];
    let flush_hand = evaluate_hand(flush_cards).unwrap();
    let straight_hand = evaluate_hand(straight_cards).unwrap();
    assert!(flush_hand > straight_hand);
}
