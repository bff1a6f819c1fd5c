pub mod game_engine;
pub mod rules;
pub mod win_checker;
