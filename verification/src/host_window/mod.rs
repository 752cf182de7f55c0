//! What the presentation surface and the input devices share: the held keys,
//! the pointer, and when a frame must be presented.

pub mod keyboard;
pub mod pointer;
pub mod present;
