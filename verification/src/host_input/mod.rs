//! Host keyboard and mouse straight from evdev.
//!
//! With no window system there is no window to receive input, so the device
//! reads `/dev/input/event*` itself and takes each keyboard and mouse with
//! `EVIOCGRAB`: while the grab holds, neither the Linux console nor any other
//! process sees those events.
//!
//! Keys pass through [`crate::host_window::keyboard::Keyboard`], so every key
//! pressed is eventually released, including when its device disappears. The
//! Ctrl+Alt+Esc chord is consumed; here it only releases the held keys, because
//! there is no window grab to give up.

pub mod devices;
pub mod evdev;
