//! Players that pick their moves themselves.

pub mod rule_based;
pub mod traits;
pub mod utils;
