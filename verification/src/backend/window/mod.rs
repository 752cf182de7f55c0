//! The rail-neutral vocabulary of presentation.
//!
//! One surface, one loop and one aspect-fit viewport, and none of those depend
//! on which rail draws. What *is* rail-specific is exactly three things: how a
//! surface is created for the native handle, what a GPU-resident frame is
//! called, and why a present was refused.

use vstd::prelude::*;
use vstd::string::*;

use crate::observe::{decline_line, decline_text, field_texts, Field};

pub mod viewport;

verus! {

/// A display connection of a window system, from the `raw_window_handle` crate.
/// It is carried to the rail, never looked into.
#[verifier::external_type_specification]
#[verifier::external_body]
pub struct ExRawDisplayHandle(raw_window_handle::RawDisplayHandle);

/// A window of a window system, from the `raw_window_handle` crate. It is
/// carried to the rail, never looked into.
#[verifier::external_type_specification]
#[verifier::external_body]
pub struct ExRawWindowHandle(raw_window_handle::RawWindowHandle);

/// The native surface a rail attaches its presenter to.
///
/// A `Native` source's handles are only valid while the window that vended them
/// is alive, which is why attach and detach are both driven from the window's
/// own lifecycle.
#[derive(Clone, Copy, Debug)]
pub struct WindowSurface {
    pub source: SurfaceSource,
    pub width: u32,
    pub height: u32,
}

/// Where the presenter's surface comes from.
#[derive(Clone, Copy, Debug)]
pub enum SurfaceSource {
    /// A window-system window: the rail builds a platform surface.
    Native {
        display: raw_window_handle::RawDisplayHandle,
        window: raw_window_handle::RawWindowHandle,
    },
    /// A DRM connector this process takes as master: the rail acquires it as a
    /// `VkDisplayKHR` and builds a display plane surface in the mode given.
    /// `drm_fd` stays owned by the caller and open for as long as the presenter
    /// lives.
    Display { drm_fd: i32, connector_id: u32, width: u32, height: u32, refresh_mhz: u32 },
}

/// A published frame's CPU bytes, offered to a rail's presenter.
///
/// The presenter prefers a [`WindowResident`] and reads these only when no
/// resident carries the display. `bgra` is empty on presents the device elided
/// the readback for, and a presenter must reject a short buffer rather than
/// blit a torn frame.
#[derive(Clone, Copy, Debug)]
pub struct WindowCpuFrame<'a> {
    pub bgra: &'a [u8],
    pub width: u32,
    pub height: u32,
    /// Publish sequence of the frame these bytes came from.
    pub seq: u64,
}

/// The bytes a frame of four-byte pixels takes, as far as a `usize` counts.
pub open spec fn bytes_needed(width: u32, height: u32) -> int {
    let need = width * height * 4;
    if need > usize::MAX {
        usize::MAX as int
    } else {
        need
    }
}

impl WindowCpuFrame<'_> {
    /// Whether these bytes hold every pixel of the geometry they claim, which
    /// must name at least one.
    ///
    /// A short buffer is not a degraded frame, it is a torn one: the blit would
    /// show whatever the staging surface held below the copied rows. A value
    /// test, so every rail rejects the same frames for the same reason.
    pub fn complete(&self) -> (complete: bool)
        ensures
            complete == (self.width > 0 && self.height > 0 && self.bgra@.len() >= bytes_needed(
                self.width,
                self.height,
            )),
    {
        let (w, h): (u128, u128) = (self.width as u128, self.height as u128);
        assert(0 <= w * h <= 0xffff_ffff * 0xffff_ffff) by (nonlinear_arith)
            requires
                0 <= w <= 0xffff_ffff,
                0 <= h <= 0xffff_ffff,
        ;
        assert(w * h == 0 <==> w == 0 || h == 0) by (nonlinear_arith);
        let exact: u128 = w * h * 4;
        let need: u128 = if exact > usize::MAX as u128 { usize::MAX as u128 } else { exact };
        need != 0 && self.bgra.len() as u128 >= need
    }
}

/// What the engine knows a GPU-resident frame by.
#[derive(Clone, Copy, Debug, PartialEq, Eq, Structural)]
pub struct WindowPresentSource {
    pub id: u64,
}

/// A rail-owned handle to the GPU-resident frame that may be presented without
/// the pixels crossing host memory.
///
/// Opaque here: it is produced by the rail, parked in the frame slot, and
/// handed back to the rail. Nothing between those two points looks inside it.
/// The Metal rail retains no texture past the encode that produced it, so it
/// contributes no variant.
#[derive(Clone, Copy, Debug, PartialEq, Eq, Structural)]
pub enum WindowResident {
    Vulkan(WindowPresentSource),
}

/// What a completed present did, in terms the loop acts on.
#[derive(Clone, Copy, Debug, PartialEq, Eq, Structural)]
pub enum WindowPresentOutcome {
    /// The rail had no drawable free. Nothing was consumed; the loop retries
    /// within its redraw backstop.
    Busy,
    Presented {
        /// The pixels came from a [`WindowResident`] rather than from host
        /// memory.
        direct: bool,
        width: u32,
        height: u32,
        /// How many drawables the rail is cycling through.
        buffers: usize,
        /// The surface reported that its drawables no longer match, so a
        /// rebuild is armed. Another redraw must come promptly instead of
        /// waiting for the next guest frame.
        suboptimal: bool,
    },
}

/// A refusal of a rail, in the rail's own vocabulary.
#[derive(Clone, Debug)]
pub struct RailRefusal {
    pub slug: &'static str,
    pub fields: Vec<Field>,
    /// The type that owns the slug.
    pub owner: &'static str,
}

/// Why a rail could not put a frame on the screen.
///
/// Two variants, because the loop acts on exactly one distinction: a presenter
/// that is *gone* gets rebuilt, and every other refusal is named and dropped.
#[derive(Clone, Debug)]
pub enum WindowDecline {
    /// This rail no longer has a presenter: its device was lost and took the
    /// presenter with it. It is rebuilt, bounded.
    PresenterLost(WindowDeclineReason),
    /// The rail refused this present, and has named itself.
    Refused(WindowDeclineReason),
}

/// The rail's own refusal, in the rail's own vocabulary.
///
/// Every arm delegates the owner as well as the slug, because an outer enum
/// that claims its inner type's slug reads as a second claimant for one check.
#[derive(Clone, Debug)]
pub enum WindowDeclineReason {
    /// This rail compiled no presenter.
    RailHasNoPresenter,
    /// The frame slot held a resident produced by the other rail: a wiring
    /// defect rather than guest work.
    ResidentFromOtherRail,
    Vulkan(RailRefusal),
    Metal(RailRefusal),
}

/// The type that owns the neutral reasons.
pub const NEUTRAL_OWNER: &'static str = "reims_vgpu::backend::window::WindowDeclineReason";

impl WindowDeclineReason {
    /// The text of the slug.
    pub open spec fn slug_text(self) -> Seq<char> {
        match self {
            WindowDeclineReason::RailHasNoPresenter => "window_rail_has_no_presenter"@,
            WindowDeclineReason::ResidentFromOtherRail => "window_resident_other_rail"@,
            WindowDeclineReason::Vulkan(refusal) => refusal.slug@,
            WindowDeclineReason::Metal(refusal) => refusal.slug@,
        }
    }

    /// The names and values of the fields.
    pub open spec fn fields_of(self) -> Seq<(Seq<char>, Seq<char>)> {
        match self {
            WindowDeclineReason::RailHasNoPresenter => Seq::empty(),
            WindowDeclineReason::ResidentFromOtherRail => Seq::empty(),
            WindowDeclineReason::Vulkan(refusal) => field_texts(refusal.fields@),
            WindowDeclineReason::Metal(refusal) => field_texts(refusal.fields@),
        }
    }

    /// The text of the owner.
    pub open spec fn owner_text(self) -> Seq<char> {
        match self {
            WindowDeclineReason::RailHasNoPresenter => NEUTRAL_OWNER@,
            WindowDeclineReason::ResidentFromOtherRail => NEUTRAL_OWNER@,
            WindowDeclineReason::Vulkan(refusal) => refusal.owner@,
            WindowDeclineReason::Metal(refusal) => refusal.owner@,
        }
    }

    /// The name of the refusal.
    pub fn slug(&self) -> (slug: &'static str)
        ensures
            slug@ == self.slug_text(),
    {
        match self {
            WindowDeclineReason::RailHasNoPresenter => "window_rail_has_no_presenter",
            WindowDeclineReason::ResidentFromOtherRail => "window_resident_other_rail",
            WindowDeclineReason::Vulkan(refusal) => refusal.slug,
            WindowDeclineReason::Metal(refusal) => refusal.slug,
        }
    }

    /// The values the refusal is about.
    pub fn fields(&self) -> (fields: Vec<Field>)
        ensures
            field_texts(fields@) == self.fields_of(),
    {
        match self {
            WindowDeclineReason::RailHasNoPresenter => no_fields(),
            WindowDeclineReason::ResidentFromOtherRail => no_fields(),
            WindowDeclineReason::Vulkan(refusal) => copy_fields(&refusal.fields),
            WindowDeclineReason::Metal(refusal) => copy_fields(&refusal.fields),
        }
    }

    /// The type that claims the slug.
    pub fn owner(&self) -> (owner: &'static str)
        ensures
            owner@ == self.owner_text(),
    {
        match self {
            WindowDeclineReason::RailHasNoPresenter => NEUTRAL_OWNER,
            WindowDeclineReason::ResidentFromOtherRail => NEUTRAL_OWNER,
            WindowDeclineReason::Vulkan(refusal) => refusal.owner,
            WindowDeclineReason::Metal(refusal) => refusal.owner,
        }
    }

    /// The refusal as a log line shows it.
    pub fn to_string(&self) -> (text: String)
        ensures
            text@ == decline_line(self.slug_text(), self.fields_of()),
    {
        decline_text(self.slug(), &self.fields())
    }
}

impl WindowDecline {
    /// The reason, whichever disposition it carries.
    pub open spec fn reason_of(self) -> WindowDeclineReason {
        match self {
            WindowDecline::PresenterLost(reason) => reason,
            WindowDecline::Refused(reason) => reason,
        }
    }

    /// The rail's reason, whichever disposition it carries.
    pub fn reason(&self) -> (reason: &WindowDeclineReason)
        ensures
            *reason == self.reason_of(),
    {
        match self {
            WindowDecline::PresenterLost(reason) => reason,
            WindowDecline::Refused(reason) => reason,
        }
    }

    /// Whether this rail's presenter must be rebuilt before it can present
    /// again.
    pub fn presenter_lost(&self) -> (lost: bool)
        ensures
            lost == (self is PresenterLost),
    {
        matches!(self, WindowDecline::PresenterLost(_))
    }

    /// The name of the refusal.
    pub fn slug(&self) -> (slug: &'static str)
        ensures
            slug@ == self.reason_of().slug_text(),
    {
        self.reason().slug()
    }

    /// The values the refusal is about.
    pub fn fields(&self) -> (fields: Vec<Field>)
        ensures
            field_texts(fields@) == self.reason_of().fields_of(),
    {
        self.reason().fields()
    }

    /// The type that claims the slug.
    pub fn owner(&self) -> (owner: &'static str)
        ensures
            owner@ == self.reason_of().owner_text(),
    {
        self.reason().owner()
    }

    /// The refusal as a log line shows it: the rail's reason, so the
    /// disposition never becomes a second one.
    pub fn to_string(&self) -> (text: String)
        ensures
            text@ == decline_line(self.reason_of().slug_text(), self.reason_of().fields_of()),
    {
        self.reason().to_string()
    }
}

fn no_fields() -> (fields: Vec<Field>)
    ensures
        field_texts(fields@) == Seq::<(Seq<char>, Seq<char>)>::empty(),
{
    let fields: Vec<Field> = Vec::new();
    assert(field_texts(fields@) =~= Seq::empty());
    fields
}

fn copy_fields(fields: &Vec<Field>) -> (copy: Vec<Field>)
    ensures
        field_texts(copy@) == field_texts(fields@),
{
    let mut copy: Vec<Field> = Vec::new();
    let mut i: usize = 0;
    while i < fields.len()
        invariant
            i <= fields@.len(),
            copy@.len() == i,
            forall|k: int|
                0 <= k < i ==> (#[trigger] copy@[k]).0@ == fields@[k].0@ && copy@[k].1@
                    == fields@[k].1@,
        decreases fields@.len() - i,
    {
        copy.push((fields[i].0, fields[i].1.clone()));
        i += 1;
    }
    assert(field_texts(copy@) =~= field_texts(fields@));
    copy
}

/// The two neutral reasons are two checks, so they are two slugs; they name no
/// value and have one owner.
pub proof fn law_neutral_reasons_differ()
    ensures
        WindowDeclineReason::RailHasNoPresenter.slug_text()
            != WindowDeclineReason::ResidentFromOtherRail.slug_text(),
        WindowDeclineReason::RailHasNoPresenter.owner_text()
            == WindowDeclineReason::ResidentFromOtherRail.owner_text(),
        WindowDeclineReason::RailHasNoPresenter.fields_of().len() == 0,
        WindowDeclineReason::ResidentFromOtherRail.fields_of().len() == 0,
{
    reveal_strlit("window_rail_has_no_presenter");
    reveal_strlit("window_resident_other_rail");
    assert("window_rail_has_no_presenter"@.len() != "window_resident_other_rail"@.len());
}

/// The disposition survives the reason and the reason the disposition: a lost
/// presenter and a refusal for one reason differ only in whether the presenter
/// must be rebuilt.
pub proof fn law_disposition_is_apart_from_reason(reason: WindowDeclineReason)
    ensures
        WindowDecline::PresenterLost(reason).reason_of() == reason,
        WindowDecline::Refused(reason).reason_of() == reason,
        WindowDecline::PresenterLost(reason) is PresenterLost,
        !(WindowDecline::Refused(reason) is PresenterLost),
{
}

/// Where a buffer is not as long as a `usize` counts, it is long enough exactly
/// when it holds four bytes for each pixel; and one that holds a frame holds
/// every frame with no more rows of that width.
pub proof fn law_a_complete_frame_has_every_pixel(len: usize, width: u32, height: u32, rows: u32)
    requires
        len < usize::MAX,
        rows <= height,
    ensures
        len >= bytes_needed(width, height) <==> len >= width * height * 4,
        len >= bytes_needed(width, height) ==> len >= bytes_needed(width, rows),
{
    assert(width * rows <= width * height) by (nonlinear_arith)
        requires
            0 <= rows <= height,
            0 <= width,
    ;
}

/// Each reason is named as it is: the neutral ones by their own slugs, and a
/// rail's by that rail's slug, fields and owner, word for word.
pub proof fn law_reasons_keep_their_names(refusal: RailRefusal)
    ensures
        WindowDeclineReason::RailHasNoPresenter.slug_text() == "window_rail_has_no_presenter"@,
        WindowDeclineReason::ResidentFromOtherRail.slug_text() == "window_resident_other_rail"@,
        WindowDeclineReason::Vulkan(refusal).slug_text() == refusal.slug@,
        WindowDeclineReason::Metal(refusal).slug_text() == refusal.slug@,
        WindowDeclineReason::Vulkan(refusal).owner_text() == refusal.owner@,
        WindowDeclineReason::Metal(refusal).owner_text() == refusal.owner@,
        WindowDeclineReason::Vulkan(refusal).fields_of().len() == refusal.fields@.len(),
        WindowDeclineReason::Metal(refusal).fields_of().len() == refusal.fields@.len(),
        forall|i: int|
            0 <= i < refusal.fields@.len() ==> (#[trigger] refusal.fields@[i]).0@
                == WindowDeclineReason::Vulkan(refusal).fields_of()[i].0 && refusal.fields@[i].1@
                == WindowDeclineReason::Vulkan(refusal).fields_of()[i].1,
        forall|i: int|
            0 <= i < refusal.fields@.len() ==> (#[trigger] refusal.fields@[i]).0@
                == WindowDeclineReason::Metal(refusal).fields_of()[i].0 && refusal.fields@[i].1@
                == WindowDeclineReason::Metal(refusal).fields_of()[i].1,
{
}

} // verus!
