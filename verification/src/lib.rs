pub mod algorithms;
pub mod args;
pub mod bots;
pub mod clock;
pub mod coeff_file;
pub mod constants;
pub mod game;
pub mod handle_capture;
pub mod heuristics;
pub mod player;
pub mod random;
pub mod text;
pub mod training;
pub mod turn;
