//! What every rail that fills the screen shares.

pub mod window;
