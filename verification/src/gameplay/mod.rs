//! The board, the rules, the scores, the recommender and the codec.

pub mod constants;
pub mod encoding;
pub mod game;
pub mod laws;
pub mod position;
pub mod recommender;
pub mod utils;
