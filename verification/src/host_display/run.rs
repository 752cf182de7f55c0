//! The display loop's decisions: taking the connector, then presenting
//! published frames and the guest's cursor on it.
//!
//! Taking the screen ends in a typed refusal or in [`Taken`]; nothing falls
//! back to another output.

use std::io;
use std::sync::Arc;

use vstd::prelude::*;
use vstd::string::*;

use crate::backend::window::{SurfaceSource, WindowDecline, WindowPresentOutcome, WindowSurface};
use crate::host_display::cursor::{
    note_applied, note_error, plane_corner, plane_image, plane_of, screen_position, wrapped,
    CursorChange, CursorLog, Glyph,
};
use crate::backend::window::viewport::{fit, ints};
use crate::host_display::select::{
    choose_connector, is_choice, law_choice_is_offered, str_of, text_of, Choice, Connector,
    SelectError,
};
use crate::host_window::present::{must_present, needs_present, Frame};
use crate::observe::{field_texts, Field};
use crate::text::{bracketed, listed, same_text};

verus! {

/// An error of an operating system call, from `std::io`.
#[verifier::external_type_specification]
#[verifier::external_body]
pub struct ExIoError(io::Error);

/// Why the display could not take the screen.
#[derive(Debug)]
pub enum DisplayError {
    /// No connector or no mode (`no_connector`, `no_mode`).
    Select(SelectError),
    /// Another process is the card's DRM master (`drm_busy`). `holders` are the
    /// pids this namespace can see with the card open, for the log.
    Busy { holders: Vec<u32> },
    /// The card node did not open or answer (`drm_open`).
    Open(io::Error),
    /// The rail refused the display surface. `acquire_refused` when Vulkan
    /// would not hand over the connector, `display_attach` otherwise; `detail`
    /// is the rail's own decline line.
    Attach { acquire: bool, detail: String },
}

/// The message of an `std::io::Error`, through its `Display` implementation.
/// The wording is the operating system's, so nothing is said of it.
#[verifier::external_body]
fn io_message(error: &io::Error) -> (message: String) {
    error.to_string()
}

/// Whether `os` is what [`io_message`] gave for `error`.
pub closed spec fn is_message(error: io::Error, os: Seq<char>) -> bool {
    exists|message: String| call_ensures(io_message, (&error,), message) && #[trigger] message@ == os
}

impl DisplayError {
    /// The text of the slug.
    pub open spec fn slug_text(self) -> Seq<char> {
        match self {
            DisplayError::Select(error) => error.slug_text(),
            DisplayError::Busy { .. } => "drm_busy"@,
            DisplayError::Open(_) => "drm_open"@,
            DisplayError::Attach { acquire: true, .. } => "acquire_refused"@,
            DisplayError::Attach { acquire: false, .. } => "display_attach"@,
        }
    }

    /// The exit code.
    pub open spec fn code(self) -> i32 {
        match self {
            DisplayError::Open(_) => 70,
            DisplayError::Busy { .. } => 71,
            DisplayError::Select(SelectError::NoConnector { .. }) => 72,
            DisplayError::Select(SelectError::NoMode { .. }) => 73,
            DisplayError::Attach { acquire: true, .. } => 74,
            DisplayError::Attach { acquire: false, .. } => 75,
        }
    }

    /// What the refusal is about, with an operating system error worded as
    /// `os`.
    pub open spec fn detail_text(self, os: Seq<char>) -> Seq<char> {
        match self {
            DisplayError::Select(error) => error.text(),
            DisplayError::Busy { holders } => "["@ + listed(holders@) + "]"@,
            DisplayError::Open(_) => os,
            DisplayError::Attach { detail, .. } => detail@,
        }
    }

    /// The refusal as a log line shows it, with an operating system error
    /// worded as `os`.
    pub open spec fn text(self, os: Seq<char>) -> Seq<char> {
        let (before, after) = match self {
            DisplayError::Select(_) => (" ("@, ")"@),
            DisplayError::Busy { .. } => (" holders="@, ""@),
            DisplayError::Open(_) => (" error="@, ""@),
            DisplayError::Attach { .. } => (" vk="@, ""@),
        };
        self.slug_text() + before + self.detail_text(os) + after
    }

    /// The name of the refusal.
    pub fn slug(&self) -> (slug: &'static str)
        ensures
            slug@ == self.slug_text(),
    {
        match self {
            DisplayError::Select(error) => error.slug(),
            DisplayError::Busy { .. } => "drm_busy",
            DisplayError::Open(_) => "drm_open",
            DisplayError::Attach { acquire: true, .. } => "acquire_refused",
            DisplayError::Attach { acquire: false, .. } => "display_attach",
        }
    }

    /// The process exit code for this refusal: the KMS output never falls back
    /// to another display, so the boot ends, and the code names why.
    pub fn exit_code(&self) -> (code: i32)
        ensures
            code == self.code(),
    {
        match self {
            DisplayError::Open(_) => 70,
            DisplayError::Busy { .. } => 71,
            DisplayError::Select(SelectError::NoConnector { .. }) => 72,
            DisplayError::Select(SelectError::NoMode { .. }) => 73,
            DisplayError::Attach { acquire: true, .. } => 74,
            DisplayError::Attach { acquire: false, .. } => 75,
        }
    }

    /// What the refusal is about, with an operating system error worded as
    /// `os`.
    pub fn detail(&self, os: &str) -> (detail: String)
        ensures
            detail@ == self.detail_text(os@),
    {
        match self {
            DisplayError::Select(error) => error.to_string(),
            DisplayError::Busy { holders } => bracketed(holders),
            DisplayError::Open(_) => os.to_owned(),
            DisplayError::Attach { detail, .. } => detail.clone(),
        }
    }

    /// The refusal as a log line shows it, with an operating system error
    /// worded as `os`.
    pub fn render(&self, os: &str) -> (text: String)
        ensures
            text@ == self.text(os@),
    {
        proof {
            reveal_strlit("");
        }
        let mut text: String = self.slug().to_owned();
        let (before, after): (&str, &str) = match self {
            DisplayError::Select(_) => (" (", ")"),
            DisplayError::Busy { .. } => (" holders=", ""),
            DisplayError::Open(_) => (" error=", ""),
            DisplayError::Attach { .. } => (" vk=", ""),
        };
        text.append(before);
        text.append(self.detail(os).as_str());
        text.append(after);
        text
    }

    /// Whether `os` words the operating system's error, where there is one; it
    /// is empty where there is none.
    pub open spec fn is_worded(self, os: Seq<char>) -> bool {
        match self {
            DisplayError::Open(error) => is_message(error, os),
            _ => os == Seq::<char>::empty(),
        }
    }

    /// The wording of the operating system's error, as [`io_message`] gives it,
    /// where there is one, and nothing otherwise.
    fn os_message(&self) -> (os: String)
        ensures
            self.is_worded(os@),
    {
        match self {
            DisplayError::Open(error) => io_message(error),
            _ => String::new(),
        }
    }

    /// The refusal as a log line shows it.
    pub fn to_string(&self) -> (text: String)
        ensures
            exists|os: Seq<char>| self.is_worded(os) && text@ == #[trigger] self.text(os),
    {
        let os: String = self.os_message();
        self.render(os.as_str())
    }

    /// The values the refusal is about, as they are: whoever writes the log must
    /// make each one field value of its line, since a detail may hold spaces.
    pub fn fields(&self) -> (fields: Vec<Field>)
        ensures
            exists|os: Seq<char>|
                self.is_worded(os) && field_texts(fields@) == seq![
                    ("detail"@, #[trigger] self.detail_text(os)),
                ],
    {
        let os: String = self.os_message();
        let detail: String = self.detail(os.as_str());
        let mut fields: Vec<Field> = Vec::new();
        fields.push(("detail", detail));
        assert(field_texts(fields@) =~= seq![("detail"@, self.detail_text(os@))]);
        fields
    }
}

/// Each kind of refusal exits with a code of its own, one that neither success,
/// a usage error nor the shell uses, and is named by a slug of its own.
pub proof fn law_every_refusal_is_told_apart(a: DisplayError, b: DisplayError)
    ensures
        2 < a.code() < 126,
        a.code() == b.code() <==> a.slug_text() == b.slug_text(),
{
    reveal_strlit("drm_open");
    reveal_strlit("drm_busy");
    reveal_strlit("no_connector");
    reveal_strlit("no_mode");
    reveal_strlit("acquire_refused");
    reveal_strlit("display_attach");
    assert("drm_open"@[4] == 'o' && "drm_busy"@[4] == 'b');
    assert("drm_open"@.len() == 8 && "drm_busy"@.len() == 8);
    assert("no_connector"@.len() == 12 && "no_mode"@.len() == 7);
    assert("acquire_refused"@.len() == 15 && "display_attach"@.len() == 14);
}

/// Whether a rail's slug names one of the two Vulkan calls that take the
/// connector.
pub open spec fn is_acquire(slug: Seq<char>) -> bool {
    slug == "vk_display_get"@ || slug == "vk_display_acquire"@
}

/// Type an attach refusal by the rail's slug: the two Vulkan calls that take
/// the connector are the acquire; anything after them is the attach.
pub fn attach_refusal(slug: &str, detail: String) -> (error: DisplayError)
    ensures
        error == (DisplayError::Attach { acquire: is_acquire(slug@), detail }),
{
    DisplayError::Attach {
        acquire: same_text(slug, "vk_display_get") || same_text(slug, "vk_display_acquire"),
        detail,
    }
}

/// What the operator asked of the display.
#[derive(Clone, Debug)]
pub struct ScreenRequest {
    /// The card node to open.
    pub card: String,
    /// The connector to take; the first connected one where none is named.
    pub wanted: Option<String>,
    /// Whether another DRM master is a refusal. Left out only to see the rail's
    /// own refusal; never a product state.
    pub check_master: bool,
}

impl ScreenRequest {
    /// The request in `REIMS_VGPU_DRM_CARD`, `REIMS_VGPU_CONNECTOR` and
    /// `REIMS_VGPU_DRM_HOLDERS`, each where it is set.
    pub fn from_vars(
        card: Option<String>,
        connector: Option<String>,
        holders: Option<String>,
    ) -> (request: ScreenRequest)
        ensures
            request.card@ == match card {
                Some(path) => path@,
                None => "/dev/dri/card1"@,
            },
            text_of(request.wanted) == match connector {
                Some(name) if name@.len() > 0 => Some(name@),
                _ => None,
            },
            request.check_master == (text_of(holders) != Some("ignore"@)),
    {
        let card: String = match card {
            Some(path) => path,
            None => "/dev/dri/card1".to_owned(),
        };
        let wanted: Option<String> = match connector {
            Some(name) => if name.as_str().is_empty() {
                None
            } else {
                Some(name)
            },
            None => None,
        };
        let check_master: bool = match &holders {
            Some(value) => !same_text(value.as_str(), "ignore"),
            None => true,
        };
        ScreenRequest { card, wanted, check_master }
    }
}

/// What taking the screen does next.
#[derive(Debug)]
pub enum Taking {
    /// Open the card.
    Opening,
    /// Ask whether this process is the card's DRM master.
    CheckingMaster,
    /// Find who else holds the card.
    FindingHolders,
    /// List the card's connectors.
    Listing,
    /// Attach the rail's presenter to the chosen connector.
    Attaching(Choice),
}

/// What came of it.
#[derive(Debug)]
pub enum TakingEvent {
    Opened(Result<(), io::Error>),
    Master(bool),
    Holders(Vec<u32>),
    Listed(Result<Vec<Connector>, io::Error>),
    /// The rail attached, or refused with a slug and its own decline line.
    Attached(Result<(), (String, String)>),
}

/// The screen the display holds while it presents.
#[derive(Clone, Debug, PartialEq, Eq)]
pub struct Taken {
    pub connector: String,
    pub connector_id: u32,
    pub width: u32,
    pub height: u32,
    pub refresh_mhz: u32,
}

/// Where one event leads.
#[derive(Debug)]
pub enum TakingStep {
    Next(Taking),
    Taken(Taken),
    Refused(DisplayError),
}

/// The screen a choice comes to.
pub open spec fn screen_of(choice: Choice) -> Taken {
    Taken {
        connector: choice.connector,
        connector_id: choice.connector_id,
        width: choice.mode.width as u32,
        height: choice.mode.height as u32,
        refresh_mhz: choice.mode.refresh_mhz,
    }
}

/// Whether `step` is where `event` leads from `at`. An event that `at` does not
/// wait for changes nothing.
pub open spec fn is_step(
    request: ScreenRequest,
    at: Taking,
    event: TakingEvent,
    step: TakingStep,
) -> bool {
    match (at, event) {
        (Taking::Opening, TakingEvent::Opened(Ok(_))) => step == TakingStep::Next(
            if request.check_master {
                Taking::CheckingMaster
            } else {
                Taking::Listing
            },
        ),
        (Taking::Opening, TakingEvent::Opened(Err(error))) => step == TakingStep::Refused(
            DisplayError::Open(error),
        ),
        (Taking::CheckingMaster, TakingEvent::Master(true)) => step == TakingStep::Next(
            Taking::Listing,
        ),
        (Taking::CheckingMaster, TakingEvent::Master(false)) => step == TakingStep::Next(
            Taking::FindingHolders,
        ),
        (Taking::FindingHolders, TakingEvent::Holders(holders)) => step == TakingStep::Refused(
            DisplayError::Busy { holders },
        ),
        (Taking::Listing, TakingEvent::Listed(Ok(connectors))) => match step {
            TakingStep::Next(Taking::Attaching(choice)) => is_choice(
                connectors@,
                text_of(request.wanted),
                Ok(choice),
            ),
            TakingStep::Refused(DisplayError::Select(error)) => is_choice(
                connectors@,
                text_of(request.wanted),
                Err(error),
            ),
            _ => false,
        },
        (Taking::Listing, TakingEvent::Listed(Err(error))) => step == TakingStep::Refused(
            DisplayError::Open(error),
        ),
        (Taking::Attaching(choice), TakingEvent::Attached(Ok(_))) => step == TakingStep::Taken(
            screen_of(choice),
        ),
        (Taking::Attaching(_), TakingEvent::Attached(Err((slug, detail)))) => step
            == TakingStep::Refused(
            DisplayError::Attach { acquire: is_acquire(slug@), detail },
        ),
        _ => step == TakingStep::Next(at),
    }
}

/// Take the screen one step further: open the card, refuse another master,
/// choose among the connectors, attach the rail.
pub fn take_screen(request: &ScreenRequest, at: Taking, event: TakingEvent) -> (step: TakingStep)
    ensures
        is_step(*request, at, event, step),
{
    match (at, event) {
        (Taking::Opening, TakingEvent::Opened(Ok(_))) => if request.check_master {
            TakingStep::Next(Taking::CheckingMaster)
        } else {
            TakingStep::Next(Taking::Listing)
        },
        (Taking::Opening, TakingEvent::Opened(Err(error))) => TakingStep::Refused(
            DisplayError::Open(error),
        ),
        (Taking::CheckingMaster, TakingEvent::Master(true)) => TakingStep::Next(Taking::Listing),
        (Taking::CheckingMaster, TakingEvent::Master(false)) => TakingStep::Next(
            Taking::FindingHolders,
        ),
        (Taking::FindingHolders, TakingEvent::Holders(holders)) => TakingStep::Refused(
            DisplayError::Busy { holders },
        ),
        (Taking::Listing, TakingEvent::Listed(Ok(connectors))) => {
            let wanted: Option<&str> = match &request.wanted {
                Some(name) => Some(name.as_str()),
                None => None,
            };
            match choose_connector(connectors.as_slice(), wanted) {
                Ok(choice) => TakingStep::Next(Taking::Attaching(choice)),
                Err(error) => TakingStep::Refused(DisplayError::Select(error)),
            }
        },
        (Taking::Listing, TakingEvent::Listed(Err(error))) => TakingStep::Refused(
            DisplayError::Open(error),
        ),
        (Taking::Attaching(choice), TakingEvent::Attached(Ok(_))) => TakingStep::Taken(
            Taken {
                connector: choice.connector,
                connector_id: choice.connector_id,
                width: choice.mode.width as u32,
                height: choice.mode.height as u32,
                refresh_mhz: choice.mode.refresh_mhz,
            },
        ),
        (Taking::Attaching(_), TakingEvent::Attached(Err((slug, detail)))) => TakingStep::Refused(
            attach_refusal(slug.as_str(), detail),
        ),
        (at, _) => TakingStep::Next(at),
    }
}

/// Whether `states` is the way taking the screen goes through `events`.
pub open spec fn is_run(
    request: ScreenRequest,
    events: Seq<TakingEvent>,
    states: Seq<Taking>,
) -> bool {
    &&& states.len() == events.len() + 1
    &&& states[0] == Taking::Opening
    &&& forall|i: int|
        0 <= i < events.len() ==> is_step(
            request,
            states[i],
            #[trigger] events[i],
            TakingStep::Next(states[i + 1]),
        )
}

/// The rail is asked for a connector only after the card opened, after this
/// process was found to be its master (unless that check was left out), and for
/// the connector and mode chosen from what the card listed.
pub proof fn law_attach_comes_last(
    request: ScreenRequest,
    events: Seq<TakingEvent>,
    states: Seq<Taking>,
)
    requires
        is_run(request, events, states),
    ensures
        !(states.last() is Opening) ==> exists|i: int|
            0 <= i < events.len() && (#[trigger] events[i] matches TakingEvent::Opened(Ok(_))),
        states.last() is Listing || states.last() is Attaching ==> request.check_master ==> exists|
            i: int,
        |
            0 <= i < events.len() && #[trigger] events[i] == TakingEvent::Master(true),
        states.last() matches Taking::Attaching(choice) ==> exists|i: int|
            0 <= i < events.len() && (#[trigger] events[i] matches TakingEvent::Listed(
                Ok(connectors),
            ) && is_choice(connectors@, text_of(request.wanted), Ok(choice))),
    decreases events.len(),
{
    if events.len() > 0 {
        let fewer = events.drop_last();
        let before = states.drop_last();
        let n = fewer.len() as int;
        assert(before.last() == states[n]);
        assert(is_step(request, states[n], events[n], TakingStep::Next(states[n + 1])));
        assert forall|i: int| 0 <= i < fewer.len() implies is_step(
            request,
            before[i],
            #[trigger] fewer[i],
            TakingStep::Next(before[i + 1]),
        ) by {
            assert(fewer[i] == events[i]);
        }
        law_attach_comes_last(request, fewer, before);
        if exists|i: int|
            0 <= i < fewer.len() && (#[trigger] fewer[i] matches TakingEvent::Opened(Ok(_))) {
            let i = choose|i: int|
                0 <= i < fewer.len() && (#[trigger] fewer[i] matches TakingEvent::Opened(Ok(_)));
            assert(events[i] == fewer[i]);
        }
        if exists|i: int| 0 <= i < fewer.len() && #[trigger] fewer[i] == TakingEvent::Master(true) {
            let i = choose|i: int|
                0 <= i < fewer.len() && #[trigger] fewer[i] == TakingEvent::Master(true);
            assert(events[i] == fewer[i]);
        }
        if let Taking::Attaching(choice) = states.last() {
            if before.last() == Taking::Attaching(choice) {
                let i = choose|i: int|
                    0 <= i < fewer.len() && (#[trigger] fewer[i] matches TakingEvent::Listed(
                        Ok(connectors),
                    ) && is_choice(connectors@, text_of(request.wanted), Ok(choice)));
                assert(events[i] == fewer[i]);
            }
        }
    }
}

/// The screen is taken only by an attach that succeeded, and is the connector that
/// was chosen, in the width, height and refresh of the mode that was chosen.
pub proof fn law_only_an_attach_takes_the_screen(
    request: ScreenRequest,
    at: Taking,
    event: TakingEvent,
    taken: Taken,
)
    requires
        is_step(request, at, event, TakingStep::Taken(taken)),
    ensures
        event matches TakingEvent::Attached(Ok(_)),
        at matches Taking::Attaching(choice) && {
            &&& taken.connector == choice.connector
            &&& taken.connector_id == choice.connector_id
            &&& taken.width == choice.mode.width
            &&& taken.height == choice.mode.height
            &&& taken.refresh_mhz == choice.mode.refresh_mhz
        },
{
}

/// The surface of a taken screen. `drm_fd` is the open card.
pub open spec fn surface_of(taken: Taken, drm_fd: i32) -> WindowSurface {
    WindowSurface {
        source: SurfaceSource::Display {
            drm_fd,
            connector_id: taken.connector_id,
            width: taken.width,
            height: taken.height,
            refresh_mhz: taken.refresh_mhz,
        },
        width: taken.width,
        height: taken.height,
    }
}

impl Taken {
    /// The surface to attach a presenter to. `drm_fd` is the open card.
    pub fn surface(&self, drm_fd: i32) -> (surface: WindowSurface)
        ensures
            surface == surface_of(*self, drm_fd),
    {
        WindowSurface {
            source: SurfaceSource::Display {
                drm_fd,
                connector_id: self.connector_id,
                width: self.width,
                height: self.height,
                refresh_mhz: self.refresh_mhz,
            },
            width: self.width,
            height: self.height,
        }
    }
}

impl Choice {
    /// The surface a rail is asked to attach for this choice.
    pub fn surface(&self, drm_fd: i32) -> (surface: WindowSurface)
        ensures
            surface == surface_of(screen_of(*self), drm_fd),
    {
        let (width, height): (u32, u32) = (self.mode.width as u32, self.mode.height as u32);
        WindowSurface {
            source: SurfaceSource::Display {
                drm_fd,
                connector_id: self.connector_id,
                width,
                height,
                refresh_mhz: self.mode.refresh_mhz,
            },
            width,
            height,
        }
    }
}

/// The guest cursor as last published, and the plane showing it.
pub struct CursorView {
    /// The size of the plane, once there is one.
    plane: Option<u32>,
    glyph: Option<Arc<Glyph>>,
    new_glyph: bool,
    pos: (u16, u16),
    show: bool,
    dirty: bool,
}

/// What a cursor view holds.
pub struct Cursor {
    pub plane: Option<u32>,
    pub glyph: Option<Arc<Glyph>>,
    /// The image has not been put on the plane yet.
    pub new_glyph: bool,
    pub pos: (u16, u16),
    pub show: bool,
    /// There is something to put on the plane.
    pub dirty: bool,
}

impl Cursor {
    /// Nothing published and no plane.
    pub open spec fn unseen() -> Cursor {
        Cursor {
            plane: None,
            glyph: None,
            new_glyph: false,
            pos: (0, 0),
            show: false,
            dirty: false,
        }
    }

    /// A change arrived.
    pub open spec fn updated(self, change: CursorChange) -> Cursor {
        Cursor {
            pos: (change.x, change.y),
            show: change.show,
            glyph: if change.glyph is Some {
                change.glyph
            } else {
                self.glyph
            },
            new_glyph: self.new_glyph || change.glyph is Some,
            dirty: true,
            ..self
        }
    }

    /// The change was put on the plane, or refused.
    pub open spec fn settled(self) -> Cursor {
        Cursor { dirty: false, ..self }
    }

    /// What to do about the cursor now.
    pub open spec fn needs(self) -> CursorNeed {
        if !self.dirty {
            CursorNeed::Nothing
        } else if self.plane is None {
            CursorNeed::Crtc
        } else {
            CursorNeed::Draw
        }
    }

    /// Where the plane goes: at the cursor while it shows an image.
    pub open spec fn place(self, frame: (u32, u32), mode: (u32, u32)) -> Place {
        match self.glyph {
            Some(glyph) if self.show => {
                let corner = plane_corner(
                    self.pos,
                    (glyph.hot_x, glyph.hot_y),
                    frame,
                    fit(ints(frame), ints(mode)),
                );
                Place::At(wrapped(corner.0) as i32, wrapped(corner.1) as i32)
            },
            _ => Place::Hidden,
        }
    }
}

/// What putting the cursor on the plane needs next.
#[derive(Clone, Copy, Debug, PartialEq, Eq, Structural)]
pub enum CursorNeed {
    /// Nothing changed.
    Nothing,
    /// There is no plane yet: find the connector's CRTC.
    Crtc,
    /// Draw.
    Draw,
}

/// What came of looking for the connector's CRTC.
#[derive(Clone, Debug, PartialEq, Eq)]
pub enum CrtcStep {
    /// Make a cursor plane on this CRTC.
    MakePlane(u32),
    /// The connector has none before the first present; the change stays
    /// pending.
    Later,
    /// The search failed; its text where it must be logged. The change stays
    /// pending.
    Failed(Option<String>),
}

/// Where the plane goes.
#[derive(Clone, Copy, Debug, PartialEq, Eq, Structural)]
pub enum Place {
    At(i32, i32),
    Hidden,
}

/// What to put on the plane.
#[derive(Clone, Debug, PartialEq, Eq)]
pub struct CursorDraw {
    /// The plane's new image, where it changed.
    pub image: Option<Vec<u32>>,
    pub place: Place,
}

/// Whether a plane of this size has an image that fits in memory.
pub open spec fn plane_fits(size: u32) -> bool {
    size * size <= usize::MAX
}

/// What is to be logged of a failure: it is, unless it was before.
pub open spec fn logs(log: CursorLog, message: Seq<char>) -> Option<Seq<char>> {
    if log.logged().contains(message) {
        None
    } else {
        Some(message)
    }
}

/// Keep a failure of `step`. Returns its text where it must be logged.
fn failed(log: &mut CursorLog, step: &str, error: &str) -> (line: Option<String>)
    ensures
        text_of(line) == logs(*old(log), step@ + ": "@ + error@),
        final(log).error() == Some(step@ + ": "@ + error@),
        final(log).logged() == old(log).logged().insert(step@ + ": "@ + error@),
        final(log).applied() == old(log).applied(),
{
    let mut message: String = step.to_owned();
    message.append(": ");
    message.append(error);
    if note_error(log, message.clone()) {
        Some(message)
    } else {
        None
    }
}

/// What the answer to a search for the CRTC leads to.
pub fn after_crtc(log: &mut CursorLog, found: Result<Option<u32>, String>) -> (step: CrtcStep)
    ensures
        match found {
            Ok(Some(crtc)) => step == CrtcStep::MakePlane(crtc) && *final(log) == *old(log),
            Ok(None) => step == CrtcStep::Later && *final(log) == *old(log),
            Err(error) => {
                let message = "crtc_of"@ + ": "@ + error@;
                &&& step matches CrtcStep::Failed(line) && text_of(line) == logs(
                    *old(log),
                    message,
                )
                &&& final(log).error() == Some(message)
                &&& final(log).logged() == old(log).logged().insert(message)
                &&& final(log).applied() == old(log).applied()
            },
        },
{
    match found {
        Ok(Some(crtc)) => CrtcStep::MakePlane(crtc),
        Ok(None) => CrtcStep::Later,
        Err(error) => CrtcStep::Failed(failed(log, "crtc_of", error.as_str())),
    }
}

impl View for CursorView {
    type V = Cursor;

    closed spec fn view(&self) -> Cursor {
        Cursor {
            plane: self.plane,
            glyph: self.glyph,
            new_glyph: self.new_glyph,
            pos: self.pos,
            show: self.show,
            dirty: self.dirty,
        }
    }
}

impl Default for CursorView {
    fn default() -> (view: CursorView)
        ensures
            view@ == Cursor::unseen(),
    {
        CursorView {
            plane: None,
            glyph: None,
            new_glyph: false,
            pos: (0, 0),
            show: false,
            dirty: false,
        }
    }
}

impl CursorView {
    #[verifier::type_invariant]
    closed spec fn plane_is_drawable(self) -> bool {
        self.plane matches Some(size) ==> plane_fits(size)
    }

    /// Take in a published change.
    pub fn update(&mut self, change: CursorChange)
        ensures
            final(self)@ == old(self)@.updated(change),
    {
        proof {
            use_type_invariant(&*self);
        }
        self.pos = (change.x, change.y);
        self.show = change.show;
        if let Some(glyph) = change.glyph {
            self.glyph = Some(glyph);
            self.new_glyph = true;
        }
        self.dirty = true;
    }

    /// What to do about the cursor now. The plane is made lazily: the connector
    /// has no CRTC until the first present's modeset.
    pub fn need(&self) -> (need: CursorNeed)
        ensures
            need == self@.needs(),
    {
        if !self.dirty {
            CursorNeed::Nothing
        } else if self.plane.is_none() {
            CursorNeed::Crtc
        } else {
            CursorNeed::Draw
        }
    }

    /// A plane was made, of the size given, or could not be. Returns the failure
    /// where it must be logged; the change is then dropped.
    pub fn plane_made(&mut self, log: &mut CursorLog, made: Result<u32, String>) -> (line: Option<
        String,
    >)
        requires
            made matches Ok(size) ==> plane_fits(size),
        ensures
            match made {
                Ok(size) => {
                    &&& line is None
                    &&& final(self)@ == (Cursor { plane: Some(size), ..old(self)@ })
                    &&& *final(log) == *old(log)
                },
                Err(error) => {
                    let message = "cursor_plane"@ + ": "@ + error@;
                    &&& text_of(line) == logs(*old(log), message)
                    &&& final(self)@ == old(self)@.settled()
                    &&& final(log).error() == Some(message)
                    &&& final(log).logged() == old(log).logged().insert(message)
                    &&& final(log).applied() == old(log).applied()
                },
            },
    {
        proof {
            use_type_invariant(&*self);
        }
        match made {
            Ok(size) => {
                self.plane = Some(size);
                None
            },
            Err(error) => {
                self.dirty = false;
                failed(log, "cursor_plane", error.as_str())
            },
        }
    }

    /// What to put on the plane, for a guest frame shown on a mode. There is
    /// nothing to draw on without a plane, and nothing to draw without a
    /// change.
    pub fn draw(&mut self, frame: (u32, u32), mode: (u32, u32)) -> (draw: Option<CursorDraw>)
        ensures
            match old(self)@.plane {
                Some(size) if old(self)@.dirty => {
                    &&& draw matches Some(draw)
                    &&& match old(self)@.glyph {
                        Some(glyph) if old(self)@.new_glyph => draw.image matches Some(image)
                            && image@ == plane_of(*glyph, size as int),
                        _ => draw.image is None,
                    }
                    &&& draw.place == old(self)@.place(frame, mode)
                    &&& final(self)@ == (Cursor { new_glyph: false, ..old(self)@ })
                },
                _ => draw is None && final(self)@ == old(self)@,
            },
    {
        proof {
            use_type_invariant(&*self);
        }
        if !self.dirty {
            return None;
        }
        let size: u32 = match self.plane {
            Some(size) => size,
            None => {
                return None;
            },
        };
        let image: Option<Vec<u32>> = match &self.glyph {
            Some(glyph) => if self.new_glyph {
                Some(plane_image(&**glyph, size))
            } else {
                None
            },
            None => None,
        };
        let place: Place = match &self.glyph {
            Some(glyph) => if self.show {
                let (x, y): (i32, i32) = screen_position(
                    self.pos,
                    (glyph.hot_x, glyph.hot_y),
                    frame,
                    mode,
                );
                Place::At(x, y)
            } else {
                Place::Hidden
            },
            None => Place::Hidden,
        };
        self.new_glyph = false;
        Some(CursorDraw { image, place })
    }

    /// The plane took the change or refused it: count the one, keep the other.
    /// Returns the failure where it must be logged. Either way the change is
    /// done with.
    pub fn drawn(&mut self, log: &mut CursorLog, result: Result<(), String>) -> (line: Option<
        String,
    >)
        ensures
            final(self)@ == old(self)@.settled(),
            match result {
                Ok(_) => {
                    &&& line is None
                    &&& final(log).applied() == (old(log).applied() + 1)
                        % 0x1_0000_0000_0000_0000
                    &&& final(log).error() == old(log).error()
                    &&& final(log).logged() == old(log).logged()
                },
                Err(error) => {
                    let message = "cursor2"@ + ": "@ + error@;
                    &&& text_of(line) == logs(*old(log), message)
                    &&& final(log).applied() == old(log).applied()
                    &&& final(log).error() == Some(message)
                    &&& final(log).logged() == old(log).logged().insert(message)
                },
            },
    {
        proof {
            use_type_invariant(&*self);
        }
        self.dirty = false;
        match result {
            Ok(_) => {
                note_applied(log);
                None
            },
            Err(error) => failed(log, "cursor2", error.as_str()),
        }
    }
}

/// A change is put on the plane once: it needs something done until it is
/// settled, and then nothing until another arrives. An image that came with an
/// earlier change and was not drawn yet is not lost to a later one without.
pub proof fn law_a_change_is_drawn_once(cursor: Cursor, change: CursorChange)
    ensures
        cursor.updated(change).needs() != CursorNeed::Nothing,
        cursor.updated(change).settled().needs() == CursorNeed::Nothing,
        change.glyph is None ==> cursor.updated(change).glyph == cursor.glyph
            && cursor.updated(change).new_glyph == cursor.new_glyph,
{
}

/// The state of the loop that presents published frames.
pub struct PresentLoop {
    last_presented: Option<u64>,
    redraw: bool,
    error_logged: bool,
    first_logged: bool,
    rebuilds: u32,
}

/// What the loop has done and owes.
pub struct Progress {
    /// The sequence of the frame last presented.
    pub last_presented: Option<u64>,
    /// A present is owed even without a new frame.
    pub redraw: bool,
    /// The current run of failures was logged.
    pub error_logged: bool,
    /// The first frame was logged.
    pub first_logged: bool,
    /// Presenters rebuilt since the last frame was presented.
    pub rebuilds: u32,
}

/// What to do after a present.
#[derive(Clone, Copy, Debug, PartialEq, Eq)]
pub struct PresentReport {
    /// Log that the first frame was presented, at this size.
    pub log_first: Option<(u32, u32)>,
    /// Log the refusal.
    pub log_error: bool,
    /// Attach the presenter anew.
    pub reattach: bool,
}

/// Whether a refusal of a present took the presenter with it.
pub open spec fn loses_presenter(decline: WindowDecline) -> bool {
    decline is PresenterLost
}

impl Progress {
    /// Before the first present: one is owed.
    pub open spec fn start() -> Progress {
        Progress {
            last_presented: None,
            redraw: true,
            error_logged: false,
            first_logged: false,
            rebuilds: 0,
        }
    }

    /// After a present of the frame `incoming`, with no more than `budget`
    /// rebuilds in a row.
    pub open spec fn after(
        self,
        incoming: Option<u64>,
        result: Result<WindowPresentOutcome, WindowDecline>,
        budget: u32,
    ) -> Progress {
        match result {
            Ok(WindowPresentOutcome::Busy) => self,
            Ok(WindowPresentOutcome::Presented { suboptimal, .. }) => Progress {
                last_presented: incoming,
                redraw: suboptimal,
                error_logged: false,
                first_logged: true,
                rebuilds: 0,
            },
            Err(decline) => if loses_presenter(decline) && self.rebuilds < budget {
                Progress {
                    redraw: true,
                    error_logged: true,
                    rebuilds: (self.rebuilds + 1) as u32,
                    ..self
                }
            } else {
                Progress { error_logged: true, ..self }
            },
        }
    }

    /// What to do after that present.
    pub open spec fn report(
        self,
        result: Result<WindowPresentOutcome, WindowDecline>,
        budget: u32,
    ) -> PresentReport {
        match result {
            Ok(WindowPresentOutcome::Presented { width, height, .. }) if !self.first_logged =>
            PresentReport { log_first: Some((width, height)), log_error: false, reattach: false },
            Ok(_) => PresentReport { log_first: None, log_error: false, reattach: false },
            Err(decline) => PresentReport {
                log_first: None,
                log_error: !self.error_logged,
                reattach: loses_presenter(decline) && self.rebuilds < budget,
            },
        }
    }
}

impl View for PresentLoop {
    type V = Progress;

    closed spec fn view(&self) -> Progress {
        Progress {
            last_presented: self.last_presented,
            redraw: self.redraw,
            error_logged: self.error_logged,
            first_logged: self.first_logged,
            rebuilds: self.rebuilds,
        }
    }
}

impl PresentLoop {
    /// A loop that has presented nothing.
    pub fn new() -> (state: PresentLoop)
        ensures
            state@ == Progress::start(),
    {
        PresentLoop {
            last_presented: None,
            redraw: true,
            error_logged: false,
            first_logged: false,
            rebuilds: 0,
        }
    }

    /// A capture was queued: the next present must happen even without a new
    /// frame.
    pub fn capture_queued(&mut self)
        ensures
            final(self)@ == (Progress { redraw: true, ..old(self)@ }),
    {
        self.redraw = true;
    }

    /// Whether to present, with the frame `incoming` in the slot.
    pub fn wants(&self, incoming: Option<u64>) -> (wanted: bool)
        ensures
            wanted == must_present(self@.last_presented, self@.redraw, incoming),
    {
        needs_present(self.last_presented, self.redraw, incoming)
    }

    /// A present came to `result`.
    pub fn presented(
        &mut self,
        incoming: Option<u64>,
        result: &Result<WindowPresentOutcome, WindowDecline>,
        budget: u32,
    ) -> (report: PresentReport)
        ensures
            final(self)@ == old(self)@.after(incoming, *result, budget),
            report == old(self)@.report(*result, budget),
    {
        let mut report = PresentReport { log_first: None, log_error: false, reattach: false };
        match result {
            Ok(WindowPresentOutcome::Busy) => {},
            Ok(WindowPresentOutcome::Presented { width, height, suboptimal, .. }) => {
                self.error_logged = false;
                self.rebuilds = 0;
                self.last_presented = incoming;
                self.redraw = *suboptimal;
                if !self.first_logged {
                    report.log_first = Some((*width, *height));
                    self.first_logged = true;
                }
            },
            Err(decline) => {
                report.log_error = !self.error_logged;
                self.error_logged = true;
                if decline.presenter_lost() && self.rebuilds < budget {
                    self.rebuilds = self.rebuilds + 1;
                    report.reattach = true;
                    self.redraw = true;
                }
            },
        }
        report
    }
}

/// The size of the frame the cursor moves on: the published one, at least one
/// pixel each way, or the whole mode before there is one.
pub fn frame_size(frame: Option<&Frame>, mode: (u32, u32)) -> (size: (u32, u32))
    ensures
        match frame {
            Some(f) => size.0 == (if f.width < 1 { 1 } else { f.width }) && size.1 == (
            if f.height < 1 { 1 } else { f.height }),
            None => size == mode,
        },
{
    match frame {
        Some(f) => (
            if f.width < 1 { 1 } else { f.width },
            if f.height < 1 { 1 } else { f.height },
        ),
        None => mode,
    }
}

/// The loop after a run of presents.
pub open spec fn after_presents(
    start: Progress,
    presents: Seq<(Option<u64>, Result<WindowPresentOutcome, WindowDecline>)>,
    budget: u32,
) -> Progress
    decreases presents.len(),
{
    if presents.len() == 0 {
        start
    } else {
        after_presents(start, presents.drop_last(), budget).after(
            presents.last().0,
            presents.last().1,
            budget,
        )
    }
}

/// How often a run of presents attached the presenter anew.
pub open spec fn reattaches(
    start: Progress,
    presents: Seq<(Option<u64>, Result<WindowPresentOutcome, WindowDecline>)>,
    budget: u32,
) -> nat
    decreases presents.len(),
{
    if presents.len() == 0 {
        0
    } else {
        reattaches(start, presents.drop_last(), budget) + if after_presents(
            start,
            presents.drop_last(),
            budget,
        ).report(presents.last().1, budget).reattach {
            1nat
        } else {
            0
        }
    }
}

/// How often a run of presents logged a refusal.
pub open spec fn errors_logged(
    start: Progress,
    presents: Seq<(Option<u64>, Result<WindowPresentOutcome, WindowDecline>)>,
    budget: u32,
) -> nat
    decreases presents.len(),
{
    if presents.len() == 0 {
        0
    } else {
        errors_logged(start, presents.drop_last(), budget) + if after_presents(
            start,
            presents.drop_last(),
            budget,
        ).report(presents.last().1, budget).log_error {
            1nat
        } else {
            0
        }
    }
}

/// Rebuilding a presenter is bounded, and a run of failures is logged once: as
/// long as no frame is presented, the presenter is attached anew no more than
/// the budget allows, and at most one refusal is logged.
pub proof fn law_failures_are_bounded(
    start: Progress,
    presents: Seq<(Option<u64>, Result<WindowPresentOutcome, WindowDecline>)>,
    budget: u32,
)
    requires
        start.rebuilds == 0,
        forall|i: int|
            0 <= i < presents.len() ==> !((#[trigger] presents[i]).1 matches Ok(
                WindowPresentOutcome::Presented { .. },
            )),
    ensures
        reattaches(start, presents, budget) <= budget,
        errors_logged(start, presents, budget) <= 1,
        after_presents(start, presents, budget).last_presented == start.last_presented,
{
    lemma_failures(start, presents, budget);
}

proof fn lemma_failures(
    start: Progress,
    presents: Seq<(Option<u64>, Result<WindowPresentOutcome, WindowDecline>)>,
    budget: u32,
)
    requires
        start.rebuilds == 0,
        forall|i: int|
            0 <= i < presents.len() ==> !((#[trigger] presents[i]).1 matches Ok(
                WindowPresentOutcome::Presented { .. },
            )),
    ensures
        reattaches(start, presents, budget) == after_presents(start, presents, budget).rebuilds,
        after_presents(start, presents, budget).rebuilds <= budget,
        errors_logged(start, presents, budget) <= 1,
        errors_logged(start, presents, budget) == 1 ==> after_presents(
            start,
            presents,
            budget,
        ).error_logged,
        after_presents(start, presents, budget).last_presented == start.last_presented,
    decreases presents.len(),
{
    if presents.len() > 0 {
        lemma_failures(start, presents.drop_last(), budget);
        assert(presents.last() == presents[presents.len() - 1]);
    }
}

/// A frame that was presented is not presented again until a redraw is owed or
/// another frame arrives; and a present that found no drawable changes nothing,
/// so it is tried again.
pub proof fn law_a_frame_is_presented_once(
    progress: Progress,
    incoming: Option<u64>,
    outcome: WindowPresentOutcome,
    budget: u32,
)
    ensures
        outcome is Presented ==> {
            let after = progress.after(incoming, Ok(outcome), budget);
            must_present(after.last_presented, after.redraw, incoming)
                == outcome->Presented_suboptimal
        },
        outcome is Busy ==> progress.after(incoming, Ok(outcome), budget) == progress,
{
}

/// What the display loop does next.
#[derive(Clone, Copy, Debug, PartialEq, Eq)]
pub enum Turn {
    /// Let the guest's cursor be published.
    Activate,
    /// Look whether to stop, before waiting.
    Check,
    /// Wait to be woken.
    Wait,
    /// Look whether to stop, before working.
    Recheck,
    /// Serve a capture request.
    Serve,
    /// Look at the frame slot.
    Look,
    /// Present the frame of this sequence, or what there is without one.
    Present(Option<u64>),
    /// Attach the presenter anew, to the screen that was taken.
    Attach,
    /// Write an image that was captured.
    Collect,
    /// Put the cursor on its plane.
    Draw,
    /// Let nothing more be published.
    Deactivate,
    /// Hide the cursor and free its plane, while the card is open.
    Hide,
    /// Detach the presenter.
    Detach,
    /// Close the card.
    Close,
    /// Nothing: the loop has ended.
    End,
}

/// What came of it.
#[derive(Debug)]
pub enum TurnEvent {
    /// It is done.
    Done,
    /// Whether to stop.
    Stop(bool),
    /// Whether a capture was queued.
    Served(bool),
    /// The sequence of the frame in the slot.
    Frame(Option<u64>),
    /// What came of a present.
    Presented(Result<WindowPresentOutcome, WindowDecline>),
}

/// Where one event leads the display loop, and what to log.
#[derive(Clone, Copy, Debug, PartialEq, Eq)]
pub struct TurnStep {
    pub next: Turn,
    pub report: PresentReport,
}

/// Whether an event answers what the loop did.
pub open spec fn answers(at: Turn, event: TurnEvent) -> bool {
    match at {
        Turn::Check | Turn::Recheck => event is Stop,
        Turn::Serve => event is Served,
        Turn::Look => event is Frame,
        Turn::Present(_) => event is Presented,
        Turn::End => false,
        _ => event is Done,
    }
}

impl Progress {
    /// Where an event leads the loop. One that answers nothing changes nothing.
    pub open spec fn next_turn(self, at: Turn, event: TurnEvent, budget: u32) -> Turn {
        match (at, event) {
            (Turn::Activate, TurnEvent::Done) => Turn::Check,
            (Turn::Check, TurnEvent::Stop(stop)) => if stop {
                Turn::Deactivate
            } else {
                Turn::Wait
            },
            (Turn::Wait, TurnEvent::Done) => Turn::Recheck,
            (Turn::Recheck, TurnEvent::Stop(stop)) => if stop {
                Turn::Deactivate
            } else {
                Turn::Serve
            },
            (Turn::Serve, TurnEvent::Served(_)) => Turn::Look,
            (Turn::Look, TurnEvent::Frame(incoming)) => if must_present(
                self.last_presented,
                self.redraw,
                incoming,
            ) {
                Turn::Present(incoming)
            } else {
                Turn::Collect
            },
            (Turn::Present(_), TurnEvent::Presented(result)) => if self.report(
                result,
                budget,
            ).reattach {
                Turn::Attach
            } else {
                Turn::Collect
            },
            (Turn::Attach, TurnEvent::Done) => Turn::Collect,
            (Turn::Collect, TurnEvent::Done) => Turn::Draw,
            (Turn::Draw, TurnEvent::Done) => Turn::Check,
            (Turn::Deactivate, TurnEvent::Done) => Turn::Hide,
            (Turn::Hide, TurnEvent::Done) => Turn::Detach,
            (Turn::Detach, TurnEvent::Done) => Turn::Close,
            (Turn::Close, TurnEvent::Done) => Turn::End,
            _ => at,
        }
    }

    /// What the loop has done and owes after an event.
    pub open spec fn after_turn(self, at: Turn, event: TurnEvent, budget: u32) -> Progress {
        match (at, event) {
            (Turn::Serve, TurnEvent::Served(true)) => Progress { redraw: true, ..self },
            (Turn::Present(incoming), TurnEvent::Presented(result)) => self.after(
                incoming,
                result,
                budget,
            ),
            _ => self,
        }
    }

    /// What to log and do about an event.
    pub open spec fn turn_report(self, at: Turn, event: TurnEvent, budget: u32) -> PresentReport {
        match (at, event) {
            (Turn::Present(_), TurnEvent::Presented(result)) => self.report(result, budget),
            _ => PresentReport { log_first: None, log_error: false, reattach: false },
        }
    }
}

impl PresentLoop {
    /// Take the display loop one step further: present what is published until
    /// it is told to stop, then give everything back in order.
    pub fn turn(&mut self, at: Turn, event: &TurnEvent, budget: u32) -> (step: TurnStep)
        ensures
            final(self)@ == old(self)@.after_turn(at, *event, budget),
            step.next == old(self)@.next_turn(at, *event, budget),
            step.report == old(self)@.turn_report(at, *event, budget),
    {
        let mut report = PresentReport { log_first: None, log_error: false, reattach: false };
        let next: Turn = match (at, event) {
            (Turn::Activate, TurnEvent::Done) => Turn::Check,
            (Turn::Check, TurnEvent::Stop(stop)) => if *stop {
                Turn::Deactivate
            } else {
                Turn::Wait
            },
            (Turn::Wait, TurnEvent::Done) => Turn::Recheck,
            (Turn::Recheck, TurnEvent::Stop(stop)) => if *stop {
                Turn::Deactivate
            } else {
                Turn::Serve
            },
            (Turn::Serve, TurnEvent::Served(queued)) => {
                if *queued {
                    self.capture_queued();
                }
                Turn::Look
            },
            (Turn::Look, TurnEvent::Frame(incoming)) => if self.wants(*incoming) {
                Turn::Present(*incoming)
            } else {
                Turn::Collect
            },
            (Turn::Present(incoming), TurnEvent::Presented(result)) => {
                report = self.presented(incoming, result, budget);
                if report.reattach {
                    Turn::Attach
                } else {
                    Turn::Collect
                }
            },
            (Turn::Attach, TurnEvent::Done) => Turn::Collect,
            (Turn::Collect, TurnEvent::Done) => Turn::Draw,
            (Turn::Draw, TurnEvent::Done) => Turn::Check,
            (Turn::Deactivate, TurnEvent::Done) => Turn::Hide,
            (Turn::Hide, TurnEvent::Done) => Turn::Detach,
            (Turn::Detach, TurnEvent::Done) => Turn::Close,
            (Turn::Close, TurnEvent::Done) => Turn::End,
            (at, _) => at,
        };
        TurnStep { next, report }
    }
}

/// The display loop at one moment.
pub struct Moment {
    pub turn: Turn,
    pub progress: Progress,
}

/// Whether `moments` is the way the display loop goes through `events`, each of
/// which answers what it did.
pub open spec fn is_loop(events: Seq<TurnEvent>, moments: Seq<Moment>, budget: u32) -> bool {
    &&& moments.len() == events.len() + 1
    &&& moments[0] == (Moment { turn: Turn::Activate, progress: Progress::start() })
    &&& forall|i: int| #![trigger events[i]]
        0 <= i < events.len() ==> {
            let (turn, progress) = (moments[i].turn, moments[i].progress);
            &&& answers(turn, events[i])
            &&& moments[i + 1] == (Moment {
                turn: progress.next_turn(turn, events[i], budget),
                progress: progress.after_turn(turn, events[i], budget),
            })
        }
}

proof fn lemma_shorter_loop(events: Seq<TurnEvent>, moments: Seq<Moment>, budget: u32)
    requires
        is_loop(events, moments, budget),
        events.len() > 0,
    ensures
        is_loop(events.drop_last(), moments.drop_last(), budget),
{
    let fewer = events.drop_last();
    assert(forall|i: int| 0 <= i < fewer.len() ==> #[trigger] fewer[i] == events[i]);
}

/// How often the presenter was attached anew since a frame was last presented.
pub open spec fn attaches_since(events: Seq<TurnEvent>, moments: Seq<Moment>) -> nat
    decreases events.len(),
{
    if events.len() == 0 {
        0
    } else if events.last() matches TurnEvent::Presented(
        Ok(WindowPresentOutcome::Presented { .. }),
    ) {
        0
    } else {
        attaches_since(events.drop_last(), moments.drop_last()) + if moments.last().turn is Attach {
            1nat
        } else {
            0
        }
    }
}

/// At every moment of the display loop, the presenter has been attached anew no
/// more often than the budget allows since a frame was last presented, and only
/// directly after a present that lost it; and a present that found no drawable
/// does not count its frame as presented, nor change anything else that the loop
/// has done or owes.
pub proof fn law_the_loop_rebuilds_within_its_budget(
    events: Seq<TurnEvent>,
    moments: Seq<Moment>,
    budget: u32,
)
    requires
        is_loop(events, moments, budget),
    ensures
        attaches_since(events, moments) <= budget,
        moments.last().turn is Attach ==> events.len() > 0 && (events.last() matches
            TurnEvent::Presented(Err(decline)) && loses_presenter(decline)),
        events.len() > 0 && (events.last() matches TurnEvent::Presented(
            Ok(WindowPresentOutcome::Busy),
        )) ==> moments.last().progress == moments[moments.len() - 2].progress,
{
    lemma_attaches(events, moments, budget);
    if events.len() > 0 {
        let n = events.len() - 1;
        assert(events.last() == events[n]);
    }
}

proof fn lemma_attaches(events: Seq<TurnEvent>, moments: Seq<Moment>, budget: u32)
    requires
        is_loop(events, moments, budget),
    ensures
        attaches_since(events, moments) == moments.last().progress.rebuilds,
        moments.last().progress.rebuilds <= budget,
    decreases events.len(),
{
    if events.len() > 0 {
        let n = events.len() - 1;
        lemma_shorter_loop(events, moments, budget);
        lemma_attaches(events.drop_last(), moments.drop_last(), budget);
        assert(events.last() == events[n]);
        assert(moments.drop_last().last() == moments[n]);
    }
}

/// How far the loop has come in giving everything back: not at all before it is
/// told to stop.
pub open spec fn stage(turn: Turn) -> int {
    match turn {
        Turn::Deactivate => 1,
        Turn::Hide => 2,
        Turn::Detach => 3,
        Turn::Close => 4,
        Turn::End => 5,
        _ => 0,
    }
}

/// Once told to stop, the display loop ends, and in order: it stops the
/// publication of the cursor, frees the plane, detaches the presenter, closes
/// the card last, and does each of these exactly once and nothing in between.
/// It does none of them before.
pub proof fn law_the_loop_ends_in_order(events: Seq<TurnEvent>, moments: Seq<Moment>, budget: u32)
    requires
        is_loop(events, moments, budget),
    ensures
        ({
            let n = moments.len() as int;
            let k = stage(moments.last().turn);
            &&& forall|j: int|
                0 <= j < n ==> stage((#[trigger] moments[j]).turn) == if j + k >= n {
                    j + k - n + 1
                } else {
                    0
                }
            &&& k > 0 ==> n - k >= 1 && events[n - k - 1] == TurnEvent::Stop(true)
        }),
        forall|i: int|
            0 <= i < events.len() && #[trigger] events[i] == TurnEvent::Stop(true) ==> moments[i
                + 1].turn is Deactivate,
    decreases events.len(),
{
    if events.len() > 0 {
        let last = events.len() - 1;
        let fewer = events.drop_last();
        let before = moments.drop_last();
        lemma_shorter_loop(events, moments, budget);
        law_the_loop_ends_in_order(fewer, before, budget);
        assert(events.last() == events[last]);
        assert(before.last() == moments[last]);
        let n = moments.len() as int;
        let k = stage(moments.last().turn);
        assert forall|j: int| 0 <= j < n implies stage((#[trigger] moments[j]).turn) == if j + k
            >= n {
            j + k - n + 1
        } else {
            0
        } by {
            if j < n - 1 {
                assert(before[j] == moments[j]);
            }
        }
        assert forall|i: int|
            0 <= i < events.len() && #[trigger] events[i] == TurnEvent::Stop(true) implies moments[i
            + 1].turn is Deactivate by {
            if i < last {
                assert(fewer[i] == events[i]);
                assert(before[i + 1] == moments[i + 1]);
            }
        }
        if k > 1 {
            assert(fewer[n - k - 1] == events[n - k - 1]);
        }
    }
}

/// A rail is asked for the chosen connector in the width, height and refresh of
/// the chosen mode, both in the surface and in its source; and anew, for those of
/// the screen that was taken.
pub proof fn law_a_surface_is_in_the_chosen_mode(choice: Choice, taken: Taken, drm_fd: i32)
    ensures
        ({
            let surface = surface_of(screen_of(choice), drm_fd);
            &&& surface.width == choice.mode.width
            &&& surface.height == choice.mode.height
            &&& surface.source matches SurfaceSource::Display {
                drm_fd: fd,
                connector_id,
                width,
                height,
                refresh_mhz,
            } && fd == drm_fd && connector_id == choice.connector_id && width == choice.mode.width
                && height == choice.mode.height && refresh_mhz == choice.mode.refresh_mhz
        }),
        ({
            let surface = surface_of(taken, drm_fd);
            &&& surface.width == taken.width
            &&& surface.height == taken.height
            &&& surface.source matches SurfaceSource::Display {
                drm_fd: fd,
                connector_id,
                width,
                height,
                refresh_mhz,
            } && fd == drm_fd && connector_id == taken.connector_id && width == taken.width
                && height == taken.height && refresh_mhz == taken.refresh_mhz
        }),
{
}

/// However the screen came to be taken, its connector is one that the card listed
/// with a screen, and its width, height and refresh are those of a mode that the
/// card listed for that connector.
pub proof fn law_a_taken_mode_was_listed(
    request: ScreenRequest,
    events: Seq<TakingEvent>,
    states: Seq<Taking>,
    event: TakingEvent,
    taken: Taken,
)
    requires
        is_run(request, events, states),
        is_step(request, states.last(), event, TakingStep::Taken(taken)),
    ensures
        exists|n: int|
            0 <= n < events.len() && (#[trigger] events[n] matches TakingEvent::Listed(
                Ok(connectors),
            ) && exists|i: int, k: int|
                {
                    &&& 0 <= i < connectors@.len()
                    &&& connectors@[i].connected
                    &&& connectors@[i].id == taken.connector_id
                    &&& connectors@[i].name@ == taken.connector@
                    &&& 0 <= k < connectors@[i].modes@.len()
                    &&& (#[trigger] connectors@[i].modes@[k]).width == taken.width
                    &&& connectors@[i].modes@[k].height == taken.height
                    &&& connectors@[i].modes@[k].refresh_mhz == taken.refresh_mhz
                }),
{
    law_attach_comes_last(request, events, states);
    let choice = states.last()->Attaching_0;
    let n = choose|n: int|
        0 <= n < events.len() && (#[trigger] events[n] matches TakingEvent::Listed(Ok(connectors))
            && is_choice(connectors@, text_of(request.wanted), Ok(choice)));
    let connectors = (events[n]->Listed_0)->Ok_0;
    law_choice_is_offered(connectors@, text_of(request.wanted), choice);
    let (i, k) = choose|i: int, k: int|
        {
            &&& 0 <= i < connectors@.len()
            &&& connectors@[i].connected
            &&& connectors@[i].id == choice.connector_id
            &&& connectors@[i].name@ == choice.connector@
            &&& 0 <= k < connectors@[i].modes@.len()
            &&& #[trigger] connectors@[i].modes@[k] == choice.mode
        };
    assert(connectors@[i].modes@[k] == choice.mode);
    assert(events[n] == TakingEvent::Listed(Ok(connectors)));
}

/// Every refusal to take the screen has its cause, and carries it: an error of the
/// card as it came, the processes that hold it, a choice that could not be made,
/// or the rail's own line, called an acquire for the two calls that take the
/// connector alone.
pub proof fn law_every_refusal_has_its_cause(
    request: ScreenRequest,
    at: Taking,
    event: TakingEvent,
    error: DisplayError,
)
    requires
        is_step(request, at, event, TakingStep::Refused(error)),
    ensures
        match error {
            DisplayError::Open(cause) => (at is Opening && event == TakingEvent::Opened(Err(cause)))
                || (at is Listing && event == TakingEvent::Listed(Err(cause))),
            DisplayError::Busy { holders } => at is FindingHolders && event == TakingEvent::Holders(
                holders,
            ),
            DisplayError::Select(cause) => at is Listing && (event matches TakingEvent::Listed(
                Ok(connectors),
            ) && is_choice(connectors@, text_of(request.wanted), Err(cause))),
            DisplayError::Attach { acquire, detail } => at is Attaching && (event matches
                TakingEvent::Attached(Err((slug, line))) && line == detail && (acquire <==> slug@
                == "vk_display_get"@ || slug@ == "vk_display_acquire"@)),
        },
{
}

/// Each step of taking the screen leads where it must when it goes well: from the
/// open card to the master check, unless that is left out; from being master to
/// the list of connectors; from another master to who holds the card.
pub proof fn law_taking_goes_on_step_by_step(
    request: ScreenRequest,
    holders: Vec<u32>,
    step: TakingStep,
)
    ensures
        is_step(request, Taking::Opening, TakingEvent::Opened(Ok(())), step) ==> step
            == TakingStep::Next(
            if request.check_master {
                Taking::CheckingMaster
            } else {
                Taking::Listing
            },
        ),
        is_step(request, Taking::CheckingMaster, TakingEvent::Master(true), step) ==> step
            == TakingStep::Next(Taking::Listing),
        is_step(request, Taking::CheckingMaster, TakingEvent::Master(false), step) ==> step
            == TakingStep::Next(Taking::FindingHolders),
        is_step(request, Taking::FindingHolders, TakingEvent::Holders(holders), step) ==> step
            == TakingStep::Refused(DisplayError::Busy { holders }),
{
}

/// Every refusal has its own number, and reads as its name and what it is about.
pub proof fn law_every_refusal_reads_in_full(
    holders: Vec<u32>,
    cause: SelectError,
    error: io::Error,
    detail: String,
    os: Seq<char>,
)
    ensures
        DisplayError::Open(error).code() == 70,
        (DisplayError::Busy { holders }).code() == 71,
        DisplayError::Select(cause).code() == if cause is NoConnector { 72i32 } else { 73i32 },
        (DisplayError::Attach { acquire: true, detail }).code() == 74,
        (DisplayError::Attach { acquire: false, detail }).code() == 75,
        DisplayError::Open(error).text(os) == "drm_open"@ + " error="@ + os,
        (DisplayError::Busy { holders }).text(os) == "drm_busy"@ + " holders="@ + ("["@ + listed(
            holders@,
        ) + "]"@),
        DisplayError::Select(cause).text(os) == cause.slug_text() + " ("@ + cause.text() + ")"@,
        cause.slug_text() == if cause is NoConnector { "no_connector"@ } else { "no_mode"@ },
        (DisplayError::Attach { acquire: true, detail }).text(os) == "acquire_refused"@ + " vk="@
            + detail@,
        (DisplayError::Attach { acquire: false, detail }).text(os) == "display_attach"@ + " vk="@
            + detail@,
        DisplayError::Open(error).detail_text(os) == os,
        (DisplayError::Busy { holders }).detail_text(os) == "["@ + listed(holders@) + "]"@,
        DisplayError::Select(cause).detail_text(os) == cause.text(),
        (DisplayError::Attach { acquire: true, detail }).detail_text(os) == detail@,
        (DisplayError::Attach { acquire: false, detail }).detail_text(os) == detail@,
{
    reveal_strlit("");
    assert(forall|s: Seq<char>| s + ""@ =~= s);
}

/// A change is taken in whole: where the cursor is, whether it shows, and its new
/// image if it has one; and it is there to be put on the plane.
pub proof fn law_a_change_is_taken_in_whole(cursor: Cursor, change: CursorChange)
    ensures
        ({
            let after = cursor.updated(change);
            &&& after.pos == (change.x, change.y)
            &&& after.show == change.show
            &&& change.glyph is Some ==> after.glyph == change.glyph && after.new_glyph
            &&& after.dirty
            &&& after.plane == cursor.plane
        }),
        cursor.needs() == CursorNeed::Nothing <==> !cursor.dirty,
        cursor.needs() == CursorNeed::Crtc <==> cursor.dirty && cursor.plane is None,
        cursor.needs() == CursorNeed::Draw <==> cursor.dirty && cursor.plane is Some,
{
}

/// A cursor that shows an image is placed so that the image's hotspot is where the
/// guest's position falls on the mode; any other is hidden.
pub proof fn law_a_shown_cursor_is_placed_by_its_hotspot(
    cursor: Cursor,
    frame: (u32, u32),
    mode: (u32, u32),
)
    ensures
        !cursor.show || cursor.glyph is None ==> cursor.place(frame, mode) == Place::Hidden,
        cursor.glyph matches Some(glyph) ==> cursor.show ==> {
            let corner = plane_corner(
                cursor.pos,
                (glyph.hot_x, glyph.hot_y),
                frame,
                fit(ints(frame), ints(mode)),
            );
            cursor.place(frame, mode) matches Place::At(x, y) && (x - corner.0) % 0x1_0000_0000 == 0
                && (y - corner.1) % 0x1_0000_0000 == 0
        },
{
}

/// A present that showed a frame counts it, owes another only where the surface no
/// longer fits, and ends the failures; the first is logged, at its size.
pub proof fn law_a_shown_frame_is_counted(
    progress: Progress,
    incoming: Option<u64>,
    width: u32,
    height: u32,
    suboptimal: bool,
    direct: bool,
    buffers: usize,
    budget: u32,
)
    ensures
        ({
            let result = Ok(
                WindowPresentOutcome::Presented { direct, width, height, buffers, suboptimal },
            );
            let (after, report) = (
                progress.after(incoming, result, budget),
                progress.report(result, budget),
            );
            &&& after.last_presented == incoming
            &&& after.redraw == suboptimal
            &&& !after.error_logged
            &&& after.first_logged
            &&& after.rebuilds == 0
            &&& report.log_first == if progress.first_logged {
                None
            } else {
                Some((width, height))
            }
            &&& !report.log_error && !report.reattach
        }),
{
}

/// A present that was refused shows nothing, is logged unless the failure before
/// it was, and has the presenter attached anew exactly where it was lost and the
/// budget allows it; a redraw is then owed.
pub proof fn law_a_refused_present_is_answered(
    progress: Progress,
    incoming: Option<u64>,
    decline: WindowDecline,
    budget: u32,
)
    ensures
        ({
            let result = Err(decline);
            let (after, report) = (
                progress.after(incoming, result, budget),
                progress.report(result, budget),
            );
            let rebuild = decline is PresenterLost && progress.rebuilds < budget;
            &&& after.last_presented == progress.last_presented
            &&& after.first_logged == progress.first_logged
            &&& after.error_logged
            &&& after.redraw == (progress.redraw || rebuild)
            &&& after.rebuilds == progress.rebuilds + if rebuild { 1int } else { 0 }
            &&& report.log_first is None
            &&& report.log_error == !progress.error_logged
            &&& report.reattach == rebuild
        }),
{
}

/// A presenter that is lost again and again is attached anew each time until the
/// budget is spent, and no more; only the first of the failures is logged.
pub proof fn law_a_lost_presenter_is_rebuilt(
    start: Progress,
    presents: Seq<(Option<u64>, Result<WindowPresentOutcome, WindowDecline>)>,
    budget: u32,
)
    requires
        start.rebuilds == 0,
        !start.error_logged,
        forall|i: int|
            0 <= i < presents.len() ==> ((#[trigger] presents[i]).1 matches Err(
                WindowDecline::PresenterLost(_),
            )),
    ensures
        reattaches(start, presents, budget) == if presents.len() < budget {
            presents.len() as int
        } else {
            budget as int
        },
        errors_logged(start, presents, budget) == if presents.len() > 0 { 1int } else { 0 },
{
    lemma_losses(start, presents, budget);
}

proof fn lemma_losses(
    start: Progress,
    presents: Seq<(Option<u64>, Result<WindowPresentOutcome, WindowDecline>)>,
    budget: u32,
)
    requires
        start.rebuilds == 0,
        !start.error_logged,
        forall|i: int|
            0 <= i < presents.len() ==> ((#[trigger] presents[i]).1 matches Err(
                WindowDecline::PresenterLost(_),
            )),
    ensures
        reattaches(start, presents, budget) == after_presents(start, presents, budget).rebuilds,
        after_presents(start, presents, budget).rebuilds == if presents.len() < budget {
            presents.len() as int
        } else {
            budget as int
        },
        errors_logged(start, presents, budget) == if presents.len() > 0 { 1int } else { 0 },
        after_presents(start, presents, budget).error_logged == (presents.len() > 0),
    decreases presents.len(),
{
    if presents.len() > 0 {
        let fewer = presents.drop_last();
        assert(forall|i: int| 0 <= i < fewer.len() ==> #[trigger] fewer[i] == presents[i]);
        lemma_losses(start, fewer, budget);
        assert(presents.last() == presents[presents.len() - 1]);
    }
}

/// The display loop goes round in one order: look whether to stop, wait, look
/// again, serve a capture, look at the slot, present what must be, attach anew
/// where that is called for, write what was captured, draw the cursor.
pub proof fn law_the_loop_goes_round(
    progress: Progress,
    incoming: Option<u64>,
    result: Result<WindowPresentOutcome, WindowDecline>,
    queued: bool,
    budget: u32,
)
    ensures
        progress.next_turn(Turn::Activate, TurnEvent::Done, budget) == Turn::Check,
        progress.next_turn(Turn::Check, TurnEvent::Stop(false), budget) == Turn::Wait,
        progress.next_turn(Turn::Wait, TurnEvent::Done, budget) == Turn::Recheck,
        progress.next_turn(Turn::Recheck, TurnEvent::Stop(false), budget) == Turn::Serve,
        progress.next_turn(Turn::Serve, TurnEvent::Served(queued), budget) == Turn::Look,
        progress.after_turn(Turn::Serve, TurnEvent::Served(queued), budget) == (Progress {
            redraw: progress.redraw || queued,
            ..progress
        }),
        progress.next_turn(Turn::Look, TurnEvent::Frame(incoming), budget) == if progress.redraw
            || (incoming is Some && incoming != progress.last_presented) {
            Turn::Present(incoming)
        } else {
            Turn::Collect
        },
        progress.next_turn(Turn::Present(incoming), TurnEvent::Presented(result), budget) == if (
        result matches Err(WindowDecline::PresenterLost(_))) && progress.rebuilds < budget {
            Turn::Attach
        } else {
            Turn::Collect
        },
        progress.next_turn(Turn::Attach, TurnEvent::Done, budget) == Turn::Collect,
        progress.next_turn(Turn::Collect, TurnEvent::Done, budget) == Turn::Draw,
        progress.next_turn(Turn::Draw, TurnEvent::Done, budget) == Turn::Check,
{
}

/// Nothing is shown before anything is published, a present is owed before any
/// was made, and a change that is settled leaves all but itself as it was.
pub proof fn law_the_display_begins_with_nothing_shown(cursor: Cursor)
    ensures
        ({
            let unseen = Cursor::unseen();
            &&& unseen.plane is None && unseen.glyph is None
            &&& !unseen.new_glyph && !unseen.show && !unseen.dirty
        }),
        ({
            let start = Progress::start();
            &&& start.last_presented is None && start.redraw
            &&& !start.error_logged && !start.first_logged && start.rebuilds == 0
        }),
        ({
            let after = cursor.settled();
            &&& !after.dirty
            &&& after.plane == cursor.plane && after.glyph == cursor.glyph && after.new_glyph
                == cursor.new_glyph && after.pos == cursor.pos && after.show == cursor.show
        }),
{
}

/// A failure is logged, word for word, unless it was before.
pub proof fn law_a_new_failure_is_logged(log: CursorLog, message: Seq<char>)
    ensures
        logs(log, message) is None <==> log.logged().contains(message),
        logs(log, message) matches Some(line) ==> line == message,
{
}

} // verus!
