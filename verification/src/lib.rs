//! A verified core for a single-round house-versus-player card game.
//!
//! The crate models the cards, hands and outcome record (`game_data`), the
//! lossy broadcast channel that observers subscribe to (`event_dispatcher`),
//! and the turn engine that drives a round to its decision (`engine`).

pub mod engine;
pub mod event_dispatcher;
pub mod game_data;
