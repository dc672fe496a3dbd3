pub mod cache;
pub mod conduct;
pub mod handler;
pub mod laws;
pub mod relay;
pub mod state;
pub mod utils;
