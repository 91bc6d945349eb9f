//! A verified engine for the card game War.
//!
//! A standard 52-card deck is shuffled and dealt round-robin to the players.
//! Each round every player reveals the top card of their hand; the highest
//! rank wins all revealed cards, and ties leave them in a shared pot that the
//! next decisive winner claims.  The game ends when at most one player still
//! holds cards.

pub mod card;
pub mod deck;
pub mod game;
pub mod text;
