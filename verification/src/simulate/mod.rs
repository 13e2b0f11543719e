//! Games that are played and recorded.

pub mod environment;
pub mod game;
pub mod history;
