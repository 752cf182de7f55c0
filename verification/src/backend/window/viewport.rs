//! Where a guest frame lands inside the area it is shown in.

use vstd::prelude::*;

verus! {

/// The part of an area a frame is shown in.
#[derive(Clone, Copy, Debug, PartialEq, Eq, Structural)]
pub struct Viewport {
    pub x: u32,
    pub y: u32,
    pub width: u32,
    pub height: u32,
}

/// A dimension, at least one pixel.
pub open spec fn at_least_one(v: int) -> int {
    if v < 1 {
        1
    } else {
        v
    }
}

/// The size of the largest rectangle with a frame's aspect that an area holds,
/// in whole pixels.
pub open spec fn fit_size(frame: (int, int), area: (int, int)) -> (int, int) {
    let (fw, fh) = (at_least_one(frame.0), at_least_one(frame.1));
    if area.0 * fh <= area.1 * fw {
        (area.0, area.0 * fh / fw)
    } else {
        (area.1 * fw / fh, area.1)
    }
}

/// A frame's place in an area: as large as its aspect allows, centred.
pub open spec fn fit(frame: (int, int), area: (int, int)) -> (int, int, int, int) {
    let (w, h) = fit_size(frame, area);
    ((area.0 - w) / 2, (area.1 - h) / 2, w, h)
}

/// The places as plain integers.
pub open spec fn ints(v: (u32, u32)) -> (int, int) {
    (v.0 as int, v.1 as int)
}

proof fn lemma_fit_bounds(frame: (int, int), area: (int, int))
    requires
        area.0 >= 0,
        area.1 >= 0,
    ensures
        0 <= fit_size(frame, area).0 <= area.0,
        0 <= fit_size(frame, area).1 <= area.1,
{
    let (fw, fh) = (at_least_one(frame.0), at_least_one(frame.1));
    let (aw, ah) = area;
    if aw * fh <= ah * fw {
        assert(0 <= aw * fh / fw <= ah) by (nonlinear_arith)
            requires
                aw >= 0,
                fh >= 1,
                fw >= 1,
                aw * fh <= ah * fw,
        ;
    } else {
        assert(0 <= ah * fw / fh <= aw) by (nonlinear_arith)
            requires
                ah >= 0,
                fh >= 1,
                fw >= 1,
                ah * fw < aw * fh,
        ;
    }
}

/// Where a frame is shown in an area: scaled to fit with its aspect kept, and
/// centred.
pub fn aspect_fit(frame: (u32, u32), area: (u32, u32)) -> (vp: Viewport)
    ensures
        (vp.x as int, vp.y as int, vp.width as int, vp.height as int) == fit(
            ints(frame),
            ints(area),
        ),
{
    let fw: u64 = if frame.0 < 1 { 1 } else { frame.0 as u64 };
    let fh: u64 = if frame.1 < 1 { 1 } else { frame.1 as u64 };
    let (aw, ah): (u64, u64) = (area.0 as u64, area.1 as u64);
    proof {
        lemma_fit_bounds(ints(frame), ints(area));
        assert(0 <= aw * fh <= 0xffff_ffff * 0xffff_ffff) by (nonlinear_arith)
            requires
                0 <= aw <= 0xffff_ffff,
                0 <= fh <= 0xffff_ffff,
        ;
        assert(0 <= ah * fw <= 0xffff_ffff * 0xffff_ffff) by (nonlinear_arith)
            requires
                0 <= ah <= 0xffff_ffff,
                0 <= fw <= 0xffff_ffff,
        ;
    }
    let (w, h): (u64, u64) = if aw * fh <= ah * fw {
        (aw, aw * fh / fw)
    } else {
        (ah * fw / fh, ah)
    };
    Viewport {
        x: ((aw - w) / 2) as u32,
        y: ((ah - h) / 2) as u32,
        width: w as u32,
        height: h as u32,
    }
}

/// A fitted frame lies inside its area, spans it one way, is centred to the
/// pixel, and keeps its aspect as nearly as whole pixels allow.
pub proof fn law_fit_is_a_centred_letterbox(frame: (int, int), area: (int, int))
    requires
        frame.0 >= 1,
        frame.1 >= 1,
        area.0 >= 0,
        area.1 >= 0,
    ensures
        ({
            let (x, y, w, h) = fit(frame, area);
            &&& 0 <= x && 0 <= w && x + w <= area.0
            &&& 0 <= y && 0 <= h && y + h <= area.1
            &&& w == area.0 || h == area.1
            &&& 0 <= (area.0 - x - w) - x <= 1
            &&& 0 <= (area.1 - y - h) - y <= 1
            &&& {
                ||| w == area.0 && h * frame.0 <= w * frame.1 < (h + 1) * frame.0
                ||| h == area.1 && w * frame.1 <= h * frame.0 < (w + 1) * frame.1
            }
        }),
{
    lemma_fit_bounds(frame, area);
    let (fw, fh) = frame;
    let (aw, ah) = area;
    assert(aw * fh / fw * fw <= aw * fh < (aw * fh / fw + 1) * fw) by (nonlinear_arith)
        requires
            fw >= 1,
    ;
    assert(ah * fw / fh * fh <= ah * fw < (ah * fw / fh + 1) * fh) by (nonlinear_arith)
        requires
            fh >= 1,
    ;
}

/// A frame of the area's own size is shown unscaled, with no letterbox.
pub proof fn law_same_size_is_unscaled(area: (int, int))
    requires
        area.0 >= 1,
        area.1 >= 1,
    ensures
        fit(area, area) == (0int, 0int, area.0, area.1),
{
    let (aw, ah) = area;
    assert(aw * ah == ah * aw) by (nonlinear_arith);
    assert(aw * ah / aw == ah) by (nonlinear_arith)
        requires
            aw >= 1,
    ;
}

/// A frame that is empty one way counts as one pixel that way.
pub proof fn law_an_empty_frame_is_one_pixel(frame: (int, int), area: (int, int))
    requires
        frame.0 >= 0,
        frame.1 >= 0,
    ensures
        fit(frame, area) == fit(
            (if frame.0 == 0 { 1 } else { frame.0 }, if frame.1 == 0 { 1 } else { frame.1 }),
            area,
        ),
{
}

} // verus!
