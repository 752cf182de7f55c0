//! What the device hands to its host: neutral input actions.

pub mod host;
pub mod input;
