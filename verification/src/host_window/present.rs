//! The published frame, and when it must be presented.

use vstd::prelude::*;

use crate::backend::window::{WindowCpuFrame, WindowResident};

verus! {

/// A frame the device published.
#[derive(Clone, Debug)]
pub struct Frame {
    /// Publish sequence.
    pub seq: u64,
    pub width: u32,
    pub height: u32,
    /// The pixels, or nothing where the readback was elided.
    pub bgra: Vec<u8>,
    /// The GPU-resident copy, where there is one.
    pub resident: Option<WindowResident>,
}

/// Whether there is something to present: a redraw was asked for, or a frame
/// arrived that is not the one last presented.
pub open spec fn must_present(last: Option<u64>, redraw: bool, incoming: Option<u64>) -> bool {
    redraw || (incoming is Some && incoming != last)
}

/// Whether a frame must be presented now.
pub fn needs_present(last: Option<u64>, redraw: bool, incoming: Option<u64>) -> (needed: bool)
    ensures
        needed == must_present(last, redraw, incoming),
{
    if redraw {
        return true;
    }
    match (incoming, last) {
        (Some(seq), Some(shown)) => seq != shown,
        (Some(_), None) => true,
        (None, _) => false,
    }
}

/// A frame's bytes as a presenter takes them.
pub fn window_cpu_frame(frame: &Frame) -> (cpu: WindowCpuFrame<'_>)
    ensures
        cpu.bgra@ == frame.bgra@,
        cpu.width == frame.width,
        cpu.height == frame.height,
        cpu.seq == frame.seq,
{
    WindowCpuFrame {
        bgra: frame.bgra.as_slice(),
        width: frame.width,
        height: frame.height,
        seq: frame.seq,
    }
}

/// A frame other than the one last presented is presented, the same one is not,
/// and nothing is not, unless a redraw is owed.
pub proof fn law_every_new_frame_is_presented(last: u64, incoming: u64)
    ensures
        must_present(None, false, Some(incoming)),
        must_present(Some(last), false, Some(incoming)) <==> last != incoming,
        !must_present(None, false, None),
        !must_present(Some(last), false, None),
        forall|l: Option<u64>, i: Option<u64>| #[trigger] must_present(l, true, i),
{
}

} // verus!
