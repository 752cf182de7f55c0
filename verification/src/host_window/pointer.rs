//! A pointer driven by relative motion (an evdev mouse), held inside the
//! guest frame.

use vstd::prelude::*;

verus! {

/// A position in a `width`x`height` frame.
pub struct Spot {
    pub x: int,
    pub y: int,
    pub width: int,
    pub height: int,
}

/// `v` held between 0 and `dim - 1`.
pub open spec fn held_inside(v: int, dim: int) -> int {
    if v < 0 {
        0
    } else if v > dim - 1 {
        dim - 1
    } else {
        v
    }
}

impl Spot {
    /// The centre of a frame; a frame is at least one pixel each way.
    pub open spec fn centre(width: int, height: int) -> Spot {
        let w = if width < 1 { 1 } else { width };
        let h = if height < 1 { 1 } else { height };
        Spot { x: w / 2, y: h / 2, width: w, height: h }
    }

    /// Moved by `(dx, dy)`, stopping at the edges of the frame.
    pub open spec fn moved(self, dx: int, dy: int) -> Spot {
        Spot {
            x: held_inside(self.x + dx, self.width),
            y: held_inside(self.y + dy, self.height),
            ..self
        }
    }

    /// The position lies inside the frame.
    pub open spec fn inside(self) -> bool {
        0 <= self.x < self.width && 0 <= self.y < self.height
    }
}

/// Absolute pointer position from relative deltas, starting at the centre and
/// clamped to `[0, width-1] x [0, height-1]`. Sums in `i64`, so no delta a
/// device can send overflows it.
#[derive(Clone, Copy, Debug)]
pub struct Pointer {
    x: i64,
    y: i64,
    width: u32,
    height: u32,
}

impl View for Pointer {
    type V = Spot;

    closed spec fn view(&self) -> Spot {
        Spot {
            x: self.x as int,
            y: self.y as int,
            width: self.width as int,
            height: self.height as int,
        }
    }
}

impl Pointer {
    #[verifier::type_invariant]
    closed spec fn in_frame(self) -> bool {
        self@.inside()
    }

    /// A pointer at the centre of a `width`x`height` frame.
    pub fn new(width: u32, height: u32) -> (pointer: Pointer)
        ensures
            pointer@ == Spot::centre(width as int, height as int),
            pointer@.inside(),
    {
        let w: u32 = if width < 1 { 1 } else { width };
        let h: u32 = if height < 1 { 1 } else { height };
        Pointer { x: (w / 2) as i64, y: (h / 2) as i64, width: w, height: h }
    }

    /// Move by `(dx, dy)` and return the new position.
    pub fn moved(&mut self, dx: i32, dy: i32) -> (at: (u32, u32))
        ensures
            final(self)@ == old(self)@.moved(dx as int, dy as int),
            old(self)@.inside(),
            final(self)@.inside(),
            at.0 == final(self)@.x,
            at.1 == final(self)@.y,
    {
        proof {
            use_type_invariant(&*self);
        }
        self.x = clamp_to(self.x + dx as i64, self.width);
        self.y = clamp_to(self.y + dy as i64, self.height);
        (self.x as u32, self.y as u32)
    }

    /// The size of the frame the pointer is held inside.
    pub fn size(&self) -> (size: (u32, u32))
        ensures
            size.0 == self@.width,
            size.1 == self@.height,
    {
        (self.width, self.height)
    }
}

fn clamp_to(v: i64, dim: u32) -> (c: i64)
    requires
        dim >= 1,
    ensures
        c == held_inside(v as int, dim as int),
{
    if v < 0 {
        0
    } else if v > dim as i64 - 1 {
        dim as i64 - 1
    } else {
        v
    }
}

/// However it is moved, a pointer that starts inside its frame stays inside it,
/// and the frame keeps its size.
pub proof fn law_motion_stays_in_frame(start: Spot, moves: Seq<(i32, i32)>)
    requires
        start.inside(),
    ensures
        after_moves(start, moves).inside(),
        after_moves(start, moves).width == start.width,
        after_moves(start, moves).height == start.height,
    decreases moves.len(),
{
    if moves.len() > 0 {
        law_motion_stays_in_frame(start, moves.drop_last());
    }
}

/// Where a run of moves leads.
pub open spec fn after_moves(start: Spot, moves: Seq<(i32, i32)>) -> Spot
    decreases moves.len(),
{
    if moves.len() == 0 {
        start
    } else {
        let (dx, dy) = moves.last();
        after_moves(start, moves.drop_last()).moved(dx as int, dy as int)
    }
}

/// A move goes exactly as far as it says each way, and stops at the edge it would
/// cross; the way back from inside the frame is the same.
pub proof fn law_a_move_is_as_far_as_it_says(spot: Spot, dx: int, dy: int)
    requires
        spot.inside(),
    ensures
        ({
            let to = spot.moved(dx, dy);
            &&& 0 <= spot.x + dx < spot.width ==> to.x == spot.x + dx
            &&& spot.x + dx < 0 ==> to.x == 0
            &&& spot.x + dx >= spot.width ==> to.x == spot.width - 1
            &&& 0 <= spot.y + dy < spot.height ==> to.y == spot.y + dy
            &&& spot.y + dy < 0 ==> to.y == 0
            &&& spot.y + dy >= spot.height ==> to.y == spot.height - 1
            &&& to.width == spot.width && to.height == spot.height
            &&& 0 <= spot.x + dx < spot.width && 0 <= spot.y + dy < spot.height ==> to.moved(
                -dx,
                -dy,
            ) == spot
        }),
{
}

/// The centre is half way each way, inside the frame; a frame is at least one
/// pixel.
pub proof fn law_the_centre_is_half_way(width: int, height: int)
    requires
        width >= 0,
        height >= 0,
    ensures
        ({
            let spot = Spot::centre(width, height);
            &&& spot.inside()
            &&& 2 * spot.x <= spot.width <= 2 * spot.x + 1
            &&& 2 * spot.y <= spot.height <= 2 * spot.y + 1
            &&& spot.width == if width == 0 { 1 } else { width }
            &&& spot.height == if height == 0 { 1 } else { height }
        }),
{
}

} // verus!
