pub mod game_state;
pub mod tile;
