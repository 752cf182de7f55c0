//! The guest's hardware cursor on the connector's cursor plane.
//!
//! macOS draws its pointer as a hardware cursor: the glyph and the position
//! travel apart from the frame. On a bare connector nothing draws it unless
//! this does. Each change is published here ([`publish_position`],
//! [`publish_glyph`]); the display loop takes the latest ([`Shared::take`]) and
//! puts it on the CRTC's cursor plane, beside the scanout.

use std::sync::mpsc::SyncSender;
use std::sync::Arc;

use vstd::prelude::*;
use vstd::string::*;

use crate::backend::window::viewport::{aspect_fit, at_least_one, fit, ints, Viewport};
use crate::backend::window::viewport::{law_fit_is_a_centred_letterbox, law_same_size_is_unscaled};
use crate::host_display::select::text_of;
use crate::seqs::lemma_push_distinct;
use crate::text::{position_of, texts};

verus! {

/// One cursor image, as the device holds it: `0xAARRGGBB` rows.
#[derive(Clone, Debug, PartialEq, Eq)]
pub struct Glyph {
    pub width: u16,
    pub height: u16,
    pub hot_x: u16,
    pub hot_y: u16,
    pub pixels: Vec<u32>,
}

/// What changed since the display loop last looked. `glyph` is `Some` only
/// when a new image arrived.
#[derive(Clone, Debug)]
pub struct CursorChange {
    pub x: u16,
    pub y: u16,
    pub show: bool,
    pub glyph: Option<Arc<Glyph>>,
}

/// The sending half of a bounded channel, from `std::sync::mpsc`. It is carried
/// to whoever wakes the display loop, never looked into.
#[verifier::external_type_specification]
#[verifier::external_body]
#[verifier::reject_recursive_types(T)]
pub struct ExSyncSender<T>(SyncSender<T>);

/// Clones an `Arc`: the clone points to the same value.
#[verifier::external_body]
fn another<T>(shared: &Arc<T>) -> (same: Arc<T>)
    ensures
        same == *shared,
{
    Arc::clone(shared)
}

/// The publication point between the drain and the display loop.
pub struct Shared {
    /// A display loop is running; publications before that are dropped.
    active: bool,
    x: u16,
    y: u16,
    show: bool,
    glyph: Option<Arc<Glyph>>,
    moved: bool,
    new_glyph: bool,
    wake: Option<SyncSender<()>>,
}

/// The cursor as published, and what of it has not been taken.
pub struct Publication {
    pub active: bool,
    pub x: u16,
    pub y: u16,
    pub show: bool,
    pub glyph: Option<Arc<Glyph>>,
    pub moved: bool,
    pub new_glyph: bool,
    /// The channel that wakes the display loop.
    pub wake: Option<SyncSender<()>>,
}

impl Publication {
    /// Nothing published, and no loop to take it.
    pub open spec fn idle() -> Publication {
        Publication {
            active: false,
            x: 0,
            y: 0,
            show: false,
            glyph: None,
            moved: false,
            new_glyph: false,
            wake: None,
        }
    }

    /// A display loop starts or stops. One that stops leaves nothing behind.
    pub open spec fn activated(self, active: bool) -> Publication {
        if active {
            Publication { active: true, ..self }
        } else {
            Publication::idle()
        }
    }

    /// Whether a position says something that has not been said and taken.
    pub open spec fn hears(self, x: u16, y: u16, show: bool) -> bool {
        self.active && (self.moved || self.x != x || self.y != y || self.show != show)
    }

    /// A position was published.
    pub open spec fn positioned(self, x: u16, y: u16, show: bool) -> Publication {
        if self.hears(x, y, show) {
            Publication { x, y, show, moved: true, ..self }
        } else {
            self
        }
    }

    /// An image was published.
    pub open spec fn drawn(self, glyph: Glyph) -> Publication {
        if self.active {
            Publication { glyph: Some(Arc::new(glyph)), new_glyph: true, ..self }
        } else {
            self
        }
    }

    /// What a loop that looks now takes.
    pub open spec fn change(self) -> Option<CursorChange> {
        if self.moved || self.new_glyph {
            Some(
                CursorChange {
                    x: self.x,
                    y: self.y,
                    show: self.show,
                    glyph: if self.new_glyph {
                        self.glyph
                    } else {
                        None
                    },
                },
            )
        } else {
            None
        }
    }

    /// A loop looked.
    pub open spec fn taken(self) -> Publication {
        Publication { moved: false, new_glyph: false, ..self }
    }
}

impl View for Shared {
    type V = Publication;

    closed spec fn view(&self) -> Publication {
        Publication {
            active: self.active,
            x: self.x,
            y: self.y,
            show: self.show,
            glyph: self.glyph,
            moved: self.moved,
            new_glyph: self.new_glyph,
            wake: self.wake,
        }
    }
}

impl Default for Shared {
    fn default() -> (shared: Shared)
        ensures
            shared@ == Publication::idle(),
    {
        Shared {
            active: false,
            x: 0,
            y: 0,
            show: false,
            glyph: None,
            moved: false,
            new_glyph: false,
            wake: None,
        }
    }
}

impl Shared {
    /// A display loop starts or stops.
    pub fn set_active(&mut self, active: bool)
        ensures
            final(self)@ == old(self)@.activated(active),
    {
        if active {
            self.active = true;
        } else {
            *self = Shared::default();
        }
    }

    /// Name the channel that wakes the display loop.
    pub fn set_wake(&mut self, tx: SyncSender<()>)
        ensures
            final(self)@ == (Publication { wake: Some(tx), ..old(self)@ }),
    {
        self.wake = Some(tx);
    }

    /// The channel to wake the display loop on.
    fn woken(&self) -> (wake: Option<&SyncSender<()>>)
        ensures
            wake == (match self@.wake {
                Some(tx) => Some(&tx),
                None => None,
            }),
    {
        self.wake.as_ref()
    }

    /// Publish a position. Returns the channel to wake the display loop on,
    /// where there is something new for it.
    pub fn position(&mut self, x: u16, y: u16, show: bool) -> (wake: Option<&SyncSender<()>>)
        ensures
            final(self)@ == old(self)@.positioned(x, y, show),
            wake == (match old(self)@.wake {
                Some(tx) if old(self)@.hears(x, y, show) => Some(&tx),
                _ => None,
            }),
    {
        if !self.active {
            return None;
        }
        if self.x == x && self.y == y && self.show == show && !self.moved {
            return None;
        }
        self.x = x;
        self.y = y;
        self.show = show;
        self.moved = true;
        self.woken()
    }

    /// Publish an image. Returns the channel to wake the display loop on, where
    /// one runs.
    pub fn glyph(&mut self, glyph: Glyph) -> (wake: Option<&SyncSender<()>>)
        ensures
            final(self)@ == old(self)@.drawn(glyph),
            wake == (match old(self)@.wake {
                Some(tx) if old(self)@.active => Some(&tx),
                _ => None,
            }),
    {
        if !self.active {
            return None;
        }
        self.glyph = Some(Arc::new(glyph));
        self.new_glyph = true;
        self.woken()
    }

    /// The latest cursor, once per change.
    pub fn take(&mut self) -> (change: Option<CursorChange>)
        ensures
            change == old(self)@.change(),
            final(self)@ == old(self)@.taken(),
    {
        if !self.moved && !self.new_glyph {
            return None;
        }
        let glyph: Option<Arc<Glyph>> = if self.new_glyph {
            match &self.glyph {
                Some(glyph) => Some(another(glyph)),
                None => None,
            }
        } else {
            None
        };
        let change = CursorChange { x: self.x, y: self.y, show: self.show, glyph };
        self.moved = false;
        self.new_glyph = false;
        Some(change)
    }
}

/// Each change is taken once: a second look with nothing published in between
/// finds nothing, and neither does publishing the same position again.
pub proof fn law_a_change_is_taken_once(shared: Publication)
    ensures
        shared.taken().change() is None,
        shared.taken().taken() == shared.taken(),
        shared.taken().positioned(shared.x, shared.y, shared.show) == shared.taken(),
{
}

/// Something published.
pub enum Published {
    Position(u16, u16, bool),
    Image(Glyph),
}

impl Publication {
    /// Something was published.
    pub open spec fn heard(self, said: Published) -> Publication {
        match said {
            Published::Position(x, y, show) => self.positioned(x, y, show),
            Published::Image(glyph) => self.drawn(glyph),
        }
    }

    /// A run of things was published.
    pub open spec fn heard_all(self, run: Seq<Published>) -> Publication
        decreases run.len(),
    {
        if run.len() == 0 {
            self
        } else {
            self.heard_all(run.drop_last()).heard(run.last())
        }
    }
}

/// The last position of a run, or `first` where it has none.
pub open spec fn last_position(first: (u16, u16, bool), run: Seq<Published>) -> (u16, u16, bool)
    decreases run.len(),
{
    if run.len() == 0 {
        first
    } else {
        match run.last() {
            Published::Position(x, y, show) => (x, y, show),
            Published::Image(_) => last_position(first, run.drop_last()),
        }
    }
}

/// The last image of a run, if it has one.
pub open spec fn last_image(run: Seq<Published>) -> Option<Glyph>
    decreases run.len(),
{
    if run.len() == 0 {
        None
    } else {
        match run.last() {
            Published::Position(_, _, _) => last_image(run.drop_last()),
            Published::Image(glyph) => Some(glyph),
        }
    }
}

/// Whether a run holds a position other than `first`.
pub open spec fn leaves(first: (u16, u16, bool), run: Seq<Published>) -> bool
    decreases run.len(),
{
    run.len() > 0 && (leaves(first, run.drop_last()) || match run.last() {
        Published::Position(x, y, show) => (x, y, show) != first,
        Published::Image(_) => false,
    })
}

/// A loop that looks after any run of publications takes the last position and
/// the last image. It finds nothing only where nothing was left to take before
/// and nothing was new since: no image, and no position but the one it took
/// last.
pub proof fn law_the_latest_cursor_is_taken(shared: Publication, run: Seq<Published>)
    requires
        shared.active,
    ensures
        ({
            let first = (shared.x, shared.y, shared.show);
            let (x, y, show) = last_position(first, run);
            let new_glyph = shared.new_glyph || last_image(run) is Some;
            shared.heard_all(run).change() == if shared.moved || leaves(first, run) || new_glyph {
                Some(
                    CursorChange {
                        x,
                        y,
                        show,
                        glyph: match last_image(run) {
                            Some(glyph) => Some(Arc::new(glyph)),
                            None if new_glyph => shared.glyph,
                            None => None,
                        },
                    },
                )
            } else {
                None
            }
        }),
{
    lemma_heard(shared, run);
}

proof fn lemma_heard(shared: Publication, run: Seq<Published>)
    requires
        shared.active,
    ensures
        ({
            let first = (shared.x, shared.y, shared.show);
            let after = shared.heard_all(run);
            &&& after.active
            &&& (after.x, after.y, after.show) == last_position(first, run)
            &&& after.moved == (shared.moved || leaves(first, run))
            &&& !after.moved ==> (after.x, after.y, after.show) == first
            &&& after.new_glyph == (shared.new_glyph || last_image(run) is Some)
            &&& after.glyph == match last_image(run) {
                Some(glyph) => Some(Arc::new(glyph)),
                None => shared.glyph,
            }
        }),
    decreases run.len(),
{
    if run.len() > 0 {
        lemma_heard(shared, run.drop_last());
    }
}

/// Nothing is kept while no display runs: publications change nothing, and a
/// loop that stops leaves nothing for the next.
pub proof fn law_nothing_is_kept_while_no_display_runs(
    shared: Publication,
    x: u16,
    y: u16,
    show: bool,
    glyph: Glyph,
)
    ensures
        shared.activated(false).positioned(x, y, show) == shared.activated(false),
        shared.activated(false).drawn(glyph) == shared.activated(false),
        shared.activated(false).activated(true).change() is None,
        Publication::idle().positioned(x, y, show).activated(true).change() is None,
{
}

/// Cursor changes put on the plane, and the failures to do so.
pub struct CursorLog {
    applied: u64,
    last_error: Option<String>,
    logged: Vec<String>,
}

impl CursorLog {
    /// The changes counted so far.
    pub closed spec fn applied(self) -> u64 {
        self.applied
    }

    /// The text of the last failure.
    pub closed spec fn error(self) -> Option<Seq<char>> {
        text_of(self.last_error)
    }

    /// The failures logged so far.
    pub closed spec fn logged(self) -> Set<Seq<char>> {
        Set::new(|message: Seq<char>| texts(self.logged@).contains(message))
    }

    /// Nothing put on the plane, and no failure.
    pub fn new() -> (log: CursorLog)
        ensures
            log.applied() == 0,
            log.error() == None::<Seq<char>>,
            log.logged() == Set::<Seq<char>>::empty(),
    {
        let log = CursorLog { applied: 0, last_error: None, logged: Vec::new() };
        assert(log.logged() =~= Set::<Seq<char>>::empty());
        log
    }
}

/// Cursor changes the display loop has put on the plane.
pub fn applied_count(log: &CursorLog) -> (count: u64)
    ensures
        count == log.applied(),
{
    log.applied
}

/// The last cursor-plane failure, if any.
pub fn last_error(log: &CursorLog) -> (error: Option<String>)
    ensures
        text_of(error) == log.error(),
{
    match &log.last_error {
        Some(message) => Some(message.clone()),
        None => None,
    }
}

/// One more change is on the plane. The count starts over past its last value.
pub fn note_applied(log: &mut CursorLog)
    ensures
        final(log).applied() == (old(log).applied() + 1) % 0x1_0000_0000_0000_0000,
        final(log).error() == old(log).error(),
        final(log).logged() == old(log).logged(),
{
    log.applied = if log.applied == u64::MAX { 0 } else { log.applied + 1 };
}

/// Keep a failure. Returns whether it must be logged: once per distinct
/// message, because a plane that refuses keeps refusing.
pub fn note_error(log: &mut CursorLog, message: String) -> (distinct: bool)
    ensures
        distinct == !old(log).logged().contains(message@),
        final(log).logged() == old(log).logged().insert(message@),
        final(log).error() == Some(message@),
        final(log).applied() == old(log).applied(),
{
    let distinct: bool = position_of(&log.logged, message.as_str()).is_none();
    if distinct {
        let ghost before = texts(log.logged@);
        log.logged.push(message.clone());
        proof {
            assert(texts(log.logged@) =~= before.push(message@));
            lemma_push_distinct(before, message@);
        }
    }
    assert(log.logged() =~= old(log).logged().insert(message@));
    log.last_error = Some(message);
    distinct
}

/// The messages that a run of failures has logged, in order.
pub open spec fn logged_of(logged: Set<Seq<char>>, messages: Seq<Seq<char>>) -> Seq<Seq<char>>
    decreases messages.len(),
{
    if messages.len() == 0 {
        Seq::empty()
    } else {
        let before = logged_of(logged, messages.drop_last());
        let m = messages.last();
        if logged.contains(m) || before.contains(m) {
            before
        } else {
            before.push(m)
        }
    }
}

/// Whatever fails, each distinct message is logged exactly once: a message that
/// was logged before is not logged again, and every other one is.
pub proof fn law_each_failure_is_logged_once(logged: Set<Seq<char>>, messages: Seq<Seq<char>>)
    ensures
        logged_of(logged, messages).no_duplicates(),
        forall|m: Seq<char>| #[trigger]
            logged_of(logged, messages).contains(m) <==> messages.contains(m) && !logged.contains(m),
    decreases messages.len(),
{
    if messages.len() > 0 {
        let fewer = messages.drop_last();
        let m = messages.last();
        law_each_failure_is_logged_once(logged, fewer);
        assert(messages =~= fewer.push(m));
        lemma_push_distinct(fewer, m);
        lemma_push_distinct(logged_of(logged, fewer), m);
    }
}

/// The drain's cursor position, for the display.
pub fn publish_position(shared: &mut Shared, x: u16, y: u16, show: bool) -> (wake: Option<
    &SyncSender<()>,
>)
    ensures
        final(shared)@ == old(shared)@.positioned(x, y, show),
        wake == (match old(shared)@.wake {
            Some(tx) if old(shared)@.hears(x, y, show) => Some(&tx),
            _ => None,
        }),
{
    shared.position(x, y, show)
}

/// The drain's new cursor image, for the display.
pub fn publish_glyph(shared: &mut Shared, glyph: Glyph) -> (wake: Option<&SyncSender<()>>)
    ensures
        final(shared)@ == old(shared)@.drawn(glyph),
        wake == (match old(shared)@.wake {
            Some(tx) if old(shared)@.active => Some(&tx),
            _ => None,
        }),
{
    shared.glyph(glyph)
}

/// The pixel at column `x` and row `y` of a plane showing `glyph` top-left: its
/// own where it has one, transparent elsewhere. A glyph with fewer pixels than
/// its size names shows nothing rather than a torn image.
pub open spec fn plane_pixel(glyph: Glyph, x: int, y: int) -> u32 {
    if x < glyph.width && y < glyph.height && glyph.pixels@.len() >= glyph.width * glyph.height {
        glyph.pixels@[y * glyph.width + x]
    } else {
        0
    }
}

/// The image of a `size`x`size` cursor plane showing `glyph`.
pub open spec fn plane_of(glyph: Glyph, size: int) -> Seq<u32> {
    Seq::new((size * size) as nat, |i: int| plane_pixel(glyph, i % size, i / size))
}

proof fn lemma_row_column(x: int, y: int, size: int)
    requires
        0 <= x < size,
        0 <= y,
    ensures
        (y * size + x) % size == x,
        (y * size + x) / size == y,
{
    assert((y * size + x) / size == y) by (nonlinear_arith)
        requires
            0 <= x < size,
            0 <= y,
    ;
    assert((y * size + x) % size == x) by (nonlinear_arith)
        requires
            0 <= x < size,
            0 <= y,
            (y * size + x) / size == y,
    ;
}

/// `glyph` in the top-left corner of a `size`x`size` cursor-plane image,
/// transparent elsewhere; a glyph larger than the plane is cropped.
pub fn plane_image(glyph: &Glyph, size: u32) -> (image: Vec<u32>)
    requires
        size * size <= usize::MAX,
    ensures
        image@ == plane_of(*glyph, size as int),
{
    let side: usize = size as usize;
    let mut image: Vec<u32> = Vec::new();
    let (w, h): (usize, usize) = (glyph.width as usize, glyph.height as usize);
    assert(0 <= w * h <= 0xffff * 0xffff) by (nonlinear_arith)
        requires
            0 <= w <= 0xffff,
            0 <= h <= 0xffff,
    ;
    let whole: bool = glyph.pixels.len() >= w * h;
    let mut y: usize = 0;
    assert(image@ =~= plane_of(*glyph, side as int).take(0));
    while y < side
        invariant
            y <= side,
            side == size,
            side * side <= usize::MAX,
            w == glyph.width,
            h == glyph.height,
            0 <= w * h <= 0xffff * 0xffff,
            whole == (glyph.pixels@.len() >= w * h),
            image@ == plane_of(*glyph, side as int).take(y * side),
        decreases side - y,
    {
        proof {
            assert(0 <= y * side && y * side + side <= side * side) by (nonlinear_arith)
                requires
                    0 <= y < side,
            ;
        }
        let mut x: usize = 0;
        while x < side
            invariant
                x <= side,
                y < side,
                side == size,
                0 <= y * side,
                y * side + side <= side * side,
                w == glyph.width,
                h == glyph.height,
                0 <= w * h <= 0xffff * 0xffff,
                whole == (glyph.pixels@.len() >= w * h),
                image@ == plane_of(*glyph, side as int).take(y * side + x),
            decreases side - x,
        {
            let ghost plane = plane_of(*glyph, side as int);
            let pixel: u32 = if whole && x < w && y < h {
                proof {
                    assert(0 <= y * w && y * w + w <= w * h) by (nonlinear_arith)
                        requires
                            0 <= y < h,
                            0 <= w,
                    ;
                }
                glyph.pixels[y * w + x]
            } else {
                0
            };
            proof {
                lemma_row_column(x as int, y as int, side as int);
                assert(plane[y * side + x] == pixel);
                assert(plane.take(y * side + x + 1) =~= plane.take(y * side + x).push(pixel));
            }
            image.push(pixel);
            x += 1;
        }
        proof {
            assert((y + 1) * side == y * side + side) by (nonlinear_arith);
        }
        y += 1;
    }
    assert(image@ =~= plane_of(*glyph, side as int));
    image
}

/// The low 32 bits of `v` as a signed number; `v` itself where it fits.
pub open spec fn wrapped(v: int) -> int {
    (v + 0x8000_0000) % 0x1_0000_0000 - 0x8000_0000
}

/// A guest coordinate on the mode: scaled from the frame's `full` to the
/// viewport's `span`, from its `offset`.
pub open spec fn scaled(p: int, offset: int, span: int, full: int) -> int {
    offset + p * span / at_least_one(full)
}

/// Where the plane's top-left goes, before it is cut to 32 bits.
pub open spec fn plane_corner(
    pos: (u16, u16),
    hot: (u16, u16),
    frame: (u32, u32),
    vp: (int, int, int, int),
) -> (int, int) {
    (
        scaled(pos.0 as int, vp.0, vp.2, frame.0 as int) - hot.0,
        scaled(pos.1 as int, vp.1, vp.3, frame.1 as int) - hot.1,
    )
}

fn coordinate(p: u16, offset: u32, span: u32, full: u32, hot: u16) -> (at: i32)
    ensures
        at == wrapped(scaled(p as int, offset as int, span as int, full as int) - hot),
{
    let f: i64 = if full < 1 { 1 } else { full as i64 };
    let (wide_p, wide_span): (i64, i64) = (p as i64, span as i64);
    assert(0 <= wide_p * wide_span <= 0xffff * 0xffff_ffff) by (nonlinear_arith)
        requires
            0 <= wide_p <= 0xffff,
            0 <= wide_span <= 0xffff_ffff,
    ;
    assert(0 <= wide_p * wide_span / f as int <= wide_p * wide_span) by (nonlinear_arith)
        requires
            0 <= wide_p * wide_span,
            f >= 1,
    ;
    let at: i64 = offset as i64 + wide_p * wide_span / f - hot as i64;
    ((at + 0x8000_0000) % 0x1_0000_0000 - 0x8000_0000) as i32
}

/// Where the plane's top-left goes on the mode so the glyph's hotspot sits on
/// the guest position `pos`: through the same aspect-fit the frame's blit
/// uses, then back by the hotspot. The plane is not scaled, so on a scaled
/// frame the glyph keeps its guest size.
pub fn screen_position(
    pos: (u16, u16),
    hot: (u16, u16),
    frame: (u32, u32),
    mode: (u32, u32),
) -> (at: (i32, i32))
    ensures
        ({
            let corner = plane_corner(pos, hot, frame, fit(ints(frame), ints(mode)));
            at.0 == wrapped(corner.0) && at.1 == wrapped(corner.1)
        }),
{
    let vp: Viewport = aspect_fit(frame, mode);
    (
        coordinate(pos.0, vp.x, vp.width, frame.0, hot.0),
        coordinate(pos.1, vp.y, vp.height, frame.1, hot.1),
    )
}

/// On a frame of the mode's own size the hotspot lands on the guest position.
pub proof fn law_hotspot_lands_on_the_position(pos: (u16, u16), hot: (u16, u16), mode: (u32, u32))
    requires
        mode.0 >= 1,
        mode.1 >= 1,
    ensures
        ({
            let corner = plane_corner(pos, hot, mode, fit(ints(mode), ints(mode)));
            &&& corner == (pos.0 - hot.0, pos.1 - hot.1)
            &&& wrapped(corner.0) == corner.0
            &&& wrapped(corner.1) == corner.1
        }),
{
    law_same_size_is_unscaled(ints(mode));
    let (px, py) = (pos.0 as int, pos.1 as int);
    let (mw, mh) = ints(mode);
    assert(px * mw / mw == px) by (nonlinear_arith)
        requires
            mw >= 1,
    ;
    assert(py * mh / mh == py) by (nonlinear_arith)
        requires
            mh >= 1,
    ;
}

/// A position inside the frame has its hotspot inside the part of the mode the
/// frame is shown in.
pub proof fn law_hotspot_stays_on_the_frame(
    pos: (u16, u16),
    hot: (u16, u16),
    frame: (u32, u32),
    mode: (u32, u32),
)
    requires
        pos.0 < frame.0,
        pos.1 < frame.1,
    ensures
        ({
            let (x, y, w, h) = fit(ints(frame), ints(mode));
            let corner = plane_corner(pos, hot, frame, (x, y, w, h));
            &&& x <= corner.0 + hot.0 && (w > 0 ==> corner.0 + hot.0 < x + w)
            &&& y <= corner.1 + hot.1 && (h > 0 ==> corner.1 + hot.1 < y + h)
            &&& 0 <= x && x + w <= mode.0
            &&& 0 <= y && y + h <= mode.1
        }),
{
    law_fit_is_a_centred_letterbox(ints(frame), ints(mode));
    let (x, y, w, h) = fit(ints(frame), ints(mode));
    lemma_scaled_inside(pos.0 as int, w, frame.0 as int);
    lemma_scaled_inside(pos.1 as int, h, frame.1 as int);
}

proof fn lemma_scaled_inside(p: int, span: int, full: int)
    requires
        0 <= p < full,
        span >= 0,
    ensures
        0 <= p * span / full,
        span > 0 ==> p * span / full < span,
{
    assert(0 <= p * span / full) by (nonlinear_arith)
        requires
            0 <= p < full,
            span >= 0,
    ;
    if span > 0 {
        assert(p * span < full * span) by (nonlinear_arith)
            requires
                0 <= p < full,
                span > 0,
        ;
        assert(p * span / full < span) by (nonlinear_arith)
            requires
                p * span < full * span,
                full > 0,
        ;
    }
}

/// A glyph sits in the top-left corner of the plane and is cropped at its edges,
/// never wrapped into the next row: column `x` of row `y` is the glyph's own
/// column `x` of row `y`, or transparent where it has none. One with fewer pixels
/// than its size names shows nothing.
pub proof fn law_glyph_is_cropped_not_wrapped(glyph: Glyph, size: int, x: int, y: int)
    requires
        0 <= x < size,
        0 <= y < size,
    ensures
        0 <= y * size + x < plane_of(glyph, size).len(),
        plane_of(glyph, size).len() == size * size,
        x < glyph.width && y < glyph.height && glyph.pixels@.len() >= glyph.width * glyph.height
            ==> plane_of(glyph, size)[y * size + x] == glyph.pixels@[y * glyph.width + x],
        x >= glyph.width || y >= glyph.height ==> plane_of(glyph, size)[y * size + x] == 0,
        glyph.pixels@.len() < glyph.width * glyph.height ==> plane_of(glyph, size)[y * size + x]
            == 0,
{
    assert(0 <= y * size + x < size * size) by (nonlinear_arith)
        requires
            0 <= x < size,
            0 <= y < size,
    ;
    lemma_row_column(x, y, size);
}

/// The hotspot is as far across the viewport as the position is across the frame,
/// to the pixel below; a frame of no size counts as one pixel.
pub proof fn law_the_hotspot_is_scaled_with_the_frame(
    pos: (u16, u16),
    hot: (u16, u16),
    frame: (u32, u32),
    vp: (int, int, int, int),
)
    requires
        vp.2 >= 0,
        vp.3 >= 0,
    ensures
        ({
            let corner = plane_corner(pos, hot, frame, vp);
            let (across, down) = (corner.0 + hot.0 - vp.0, corner.1 + hot.1 - vp.1);
            let w = if frame.0 == 0 { 1 } else { frame.0 as int };
            let h = if frame.1 == 0 { 1 } else { frame.1 as int };
            &&& across * w <= pos.0 * vp.2 < (across + 1) * w
            &&& down * h <= pos.1 * vp.3 < (down + 1) * h
        }),
{
    let w = if frame.0 == 0 { 1 } else { frame.0 as int };
    let h = if frame.1 == 0 { 1 } else { frame.1 as int };
    let (px, py) = (pos.0 * vp.2, pos.1 * vp.3);
    assert(px / w * w <= px < (px / w + 1) * w) by (nonlinear_arith)
        requires
            w >= 1,
    ;
    assert(py / h * h <= py < (py / h + 1) * h) by (nonlinear_arith)
        requires
            h >= 1,
    ;
}

/// A coordinate past 32 bits is cut to its low 32; any other is itself.
pub proof fn law_coordinates_are_cut_to_32_bits(v: int)
    ensures
        -0x8000_0000 <= wrapped(v) < 0x8000_0000,
        (v - wrapped(v)) % 0x1_0000_0000 == 0,
        -0x8000_0000 <= v < 0x8000_0000 ==> wrapped(v) == v,
{
}

/// A publication is heard while a loop runs, where it differs from the last or
/// that one has not been taken; an image always is.
pub proof fn law_news_is_heard(shared: Publication, x: u16, y: u16, show: bool, glyph: Glyph)
    requires
        shared.active,
    ensures
        shared.hears(x, y, show) <==> shared.moved || (x, y, show) != (
            shared.x,
            shared.y,
            shared.show,
        ),
        shared.hears(x, y, show) ==> shared.positioned(x, y, show).change() is Some,
        shared.drawn(glyph).change() matches Some(change) && change.glyph == Some(Arc::new(glyph))
            && change.x == shared.x && change.y == shared.y && change.show == shared.show,
        shared.positioned(x, y, show).wake == shared.wake,
        shared.drawn(glyph).wake == shared.wake,
        shared.taken().wake == shared.wake,
        shared.activated(true).wake == shared.wake,
        shared.activated(false).wake is None,
{
}

} // verus!
