//! One round of a four-seat tile game: the tiles, the check that a hand is
//! complete, and the turn engine that moves a round from the deal to its end.

pub mod game;
pub mod models;
