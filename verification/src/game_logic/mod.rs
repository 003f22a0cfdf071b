//! The rules of the game: hand evaluation, dealing and betting.

pub mod betting;
pub mod card_order;
pub mod dealer;
pub mod hand_evaluator;
pub mod tie_breaks;

pub use betting::BettingRules;
pub use dealer::Dealer;
pub use hand_evaluator::{evaluate_hand, EvaluatedHand, HandRank};
