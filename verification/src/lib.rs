//! Poker hand equity: Monte Carlo estimation of each hand's chance to win or
//! tie, driven by a constant-time seven-card strength evaluator built on
//! perfect-hash lookup tables.

pub mod card;
pub mod deck;
pub mod error;
pub mod hand;
pub mod sim;
pub mod tables;

pub use card::rank_value;
pub use card::suit_value;
pub use card::weight;
pub use card::Card;
pub use card::Rank;
pub use card::Suit;
pub use deck::community;
pub use deck::deck;
pub use deck::withdraw;
pub use error::Error;
pub use hand::get_rank;
pub use hand::Hand;
pub use sim::apply;
pub use sim::run;
pub use sim::trial;
pub use tables::Tables;
