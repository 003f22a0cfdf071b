use std::collections::HashSet;

use poker_server::models::card::{Card, Deck, Rank, Suit};

#[test]
fn test_deck_creation() {
    let deck = Deck::new();
    assert_eq!(deck.remaining(), 52);
}

#[test]
fn test_deck_shuffle_and_deal() {
    let mut deck = Deck::new();
    deck.shuffle();

    let first_card = deck.deal();
    assert!(first_card.is_some());
    assert_eq!(deck.remaining(), 51);

    for _ in 0..51 {
        deck.deal();
    }

    assert_eq!(deck.remaining(), 0);
    assert!(deck.deal().is_none());
}

#[test]
fn test_rank_ordering() {
    assert!(Rank::Ace > Rank::King);
    assert!(Rank::King > Rank::Queen);
    assert!(Rank::Two < Rank::Three);
}

#[test]
fn test_deck_all_unique() {
    let mut deck = Deck::new();
    let mut seen = HashSet::new();
    while let Some(card) = deck.deal() {
        let key = (card.suit, card.rank);
        assert!(!seen.contains(&key), "Duplicate card found: {:?}", card);
        seen.insert(key);
    }
    assert_eq!(seen.len(), 52);
}

#[test]
fn test_card_display() {
    let card = Card::new(Suit::Hearts, Rank::Ace);
    assert_eq!(card.to_string(), "A♥");
}
