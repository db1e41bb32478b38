//! Rules engine of the Yonder card-drafting game: card data, the reverse
//! scoring engine, and the round-by-round state machine of a game room.

pub mod cards;
pub mod text;
pub mod game;
pub mod game_spec;
pub mod scoring;
pub mod faraway;
pub mod faraway_spec;
pub mod records;
pub mod laws;
