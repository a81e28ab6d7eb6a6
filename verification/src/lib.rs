pub mod chunks;
pub mod cli;
pub mod error;
pub mod iter;
pub mod lines;
pub mod names;
pub mod utils;
