//! The neutral pointer buttons.

use vstd::prelude::*;

verus! {

/// A pointer button as the guest knows it. Each wheel direction is a button,
/// pressed and released once per notch.
#[derive(Clone, Copy, Debug, PartialEq, Eq, Structural)]
pub enum ReimsVgpuButton {
    Left,
    Right,
    Middle,
    Side,
    Extra,
    WheelUp,
    WheelDown,
    WheelLeft,
    WheelRight,
}

impl ReimsVgpuButton {
    /// Whether this is a wheel direction, which nothing ever holds down.
    pub open spec fn is_wheel(self) -> bool {
        self is WheelUp || self is WheelDown || self is WheelLeft || self is WheelRight
    }
}

} // verus!
