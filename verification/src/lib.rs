//! Rules and session state of a multiplayer card game: the cards, one round's
//! engine, the lobbies that players gather in, and the registry that serves
//! client requests against them.

pub mod card;
pub mod error;
pub mod game;
pub mod random;
pub mod server;
pub mod web;

pub use card::{std_deck, Card, Rank, Suit};
pub use error::GameError;
pub use game::{Game, Player};
