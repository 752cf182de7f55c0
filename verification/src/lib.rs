//! Host side of the Reims virtual GPU's headless display: which DRM connector and
//! mode the display takes, how a published frame and the guest's hardware cursor
//! reach it, and how evdev events become guest input.
//!
//! Everything here is a decision over plain values. Opening devices, issuing
//! ioctls and running threads belong to the program around the library, which
//! performs what these functions decide and hands back what came of it.

pub mod backend;
pub mod bytes;
pub mod host_display;
pub mod host_input;
pub mod host_window;
pub mod observe;
pub mod runtime;
pub mod seqs;
pub mod text;
