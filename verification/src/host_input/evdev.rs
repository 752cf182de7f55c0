//! evdev events to guest input. Pure: bytes and bitmaps in, `HostAction`s out.

use std::sync::Arc;

use vstd::prelude::*;
use vstd::rwlock::{RwLock, RwLockPredicate, WriteHandle};

use crate::bytes::{i32_at, i32_of, is_native, native_order, u16_at, u16_of, ByteOrder};
use crate::host_window::keyboard::{
    believes_held, held_after, key_actions, key_releases, law_key_events_keep_belief,
    law_releases_close_every_key, Keyboard,
};
use crate::host_window::pointer::{held_inside, Pointer, Spot};
use crate::runtime::host::{Belief, HostAction};
use crate::runtime::input::ReimsVgpuButton;
use crate::seqs::{lemma_push_distinct, lemma_without_contains, lemma_without_push, without};

verus! {

pub const EV_SYN: u16 = 0x00;

pub const EV_KEY: u16 = 0x01;

pub const EV_REL: u16 = 0x02;

pub const SYN_REPORT: u16 = 0;

pub const REL_X: u16 = 0x00;

pub const REL_Y: u16 = 0x01;

pub const REL_HWHEEL: u16 = 0x06;

pub const REL_WHEEL: u16 = 0x08;

pub const KEY_ENTER: u16 = 28;

pub const KEY_A: u16 = 30;

pub const BTN_MISC: u16 = 0x100;

pub const BTN_LEFT: u16 = 0x110;

pub const BTN_RIGHT: u16 = 0x111;

pub const BTN_MIDDLE: u16 = 0x112;

pub const BTN_SIDE: u16 = 0x113;

pub const BTN_EXTRA: u16 = 0x114;

/// Past the button block (`BTN_MISC` .. `BTN_DIGI` and the rest up to
/// `KEY_OK`), codes are keys again.
pub const KEY_OK: u16 = 0x160;

/// One `struct input_event`, without its timestamp.
#[derive(Clone, Copy, Debug, PartialEq, Eq, Structural)]
pub struct InputEvent {
    pub kind: u16,
    pub code: u16,
    pub value: i32,
}

/// Size of `struct input_event` on a 64-bit kernel: `timeval` (16) + type,
/// code (2 + 2) + value (4).
pub const EVENT_SIZE: usize = 24;

/// The event in the first [`EVENT_SIZE`] bytes, read in `order`.
pub open spec fn event_of(order: ByteOrder, raw: Seq<u8>) -> InputEvent {
    InputEvent {
        kind: u16_of(order, raw.skip(16)) as u16,
        code: u16_of(order, raw.skip(18)) as u16,
        value: i32_of(order, raw.skip(20)) as i32,
    }
}

/// Decode one 64-bit `struct input_event`, in the machine's byte order.
pub fn decode(raw: &[u8; EVENT_SIZE]) -> (event: InputEvent)
    ensures
        exists|order: ByteOrder| is_native(order) && event == #[trigger] event_of(order, raw@),
{
    decode_in(native_order(), raw)
}

/// Decode one 64-bit `struct input_event` read in `order`.
pub fn decode_in(order: ByteOrder, raw: &[u8; EVENT_SIZE]) -> (event: InputEvent)
    ensures
        event == event_of(order, raw@),
{
    InputEvent {
        kind: u16_at(order, raw, 16),
        code: u16_at(order, raw, 18),
        value: i32_at(order, raw, 20),
    }
}

/// The events of a read: one for each whole [`EVENT_SIZE`] bytes.
pub open spec fn events_of(order: ByteOrder, raw: Seq<u8>) -> Seq<InputEvent> {
    Seq::new(
        raw.len() / EVENT_SIZE as nat,
        |i: int| event_of(order, raw.skip(i * EVENT_SIZE as int)),
    )
}

/// Decode every whole event a read returned, in the machine's byte order.
pub fn decode_all(raw: &[u8]) -> (events: Vec<InputEvent>)
    ensures
        exists|order: ByteOrder| is_native(order) && events@ == #[trigger] events_of(order, raw@),
{
    decode_all_in(native_order(), raw)
}

/// Decode every whole event a read returned, read in `order`.
pub fn decode_all_in(order: ByteOrder, raw: &[u8]) -> (events: Vec<InputEvent>)
    ensures
        events@ == events_of(order, raw@),
{
    let mut events: Vec<InputEvent> = Vec::new();
    let mut at: usize = 0;
    while raw.len() - at >= EVENT_SIZE
        invariant
            at <= raw@.len(),
            at == events@.len() * EVENT_SIZE,
            forall|i: int|
                0 <= i < events@.len() ==> #[trigger] events@[i] == event_of(
                    order,
                    raw@.skip(i * EVENT_SIZE as int),
                ),
        decreases raw@.len() - at,
    {
        let event = InputEvent {
            kind: u16_at(order, raw, at + 16),
            code: u16_at(order, raw, at + 18),
            value: i32_at(order, raw, at + 20),
        };
        proof {
            let here = raw@.skip(at as int);
            assert(here.skip(16) =~= raw@.skip(at + 16));
            assert(here.skip(18) =~= raw@.skip(at + 18));
            assert(here.skip(20) =~= raw@.skip(at + 20));
            assert(event == event_of(order, here));
        }
        events.push(event);
        at += EVENT_SIZE;
    }
    assert(events@.len() == raw@.len() / EVENT_SIZE as nat);
    assert(events@ =~= events_of(order, raw@));
    events
}

/// What a device is, by what it can send.
#[derive(Clone, Copy, Debug, PartialEq, Eq, Structural)]
pub enum Kind {
    Keyboard,
    Mouse,
    Other,
}

/// Whether bit `code` of a bitmap is set; past its end no bit is.
pub open spec fn bit_set(bitmap: Seq<u8>, code: u16) -> bool {
    &&& code / 8 < bitmap.len()
    &&& bitmap[(code / 8) as int] & (1u8 << (code % 8)) != 0
}

fn bit(bitmap: &[u8], code: u16) -> (set: bool)
    ensures
        set == bit_set(bitmap@, code),
{
    let at: usize = (code / 8) as usize;
    at < bitmap.len() && bitmap[at] & (1u8 << (code % 8)) != 0
}

/// The kind of device that has these `EV_KEY` and `EV_REL` bitmaps.
pub open spec fn kind_of(keys: Seq<u8>, rels: Seq<u8>) -> Kind {
    if bit_set(keys, KEY_A) && bit_set(keys, KEY_ENTER) {
        Kind::Keyboard
    } else if bit_set(keys, BTN_LEFT) && bit_set(rels, REL_X) && bit_set(rels, REL_Y) {
        Kind::Mouse
    } else {
        Kind::Other
    }
}

/// Classify by the `EVIOCGBIT` bitmaps of `EV_KEY` and `EV_REL`: a keyboard has
/// letter and Enter keys; a mouse has a left button and relative X and Y.
pub fn classify(keys: &[u8], rels: &[u8]) -> (kind: Kind)
    ensures
        kind == kind_of(keys@, rels@),
{
    if bit(keys, KEY_A) && bit(keys, KEY_ENTER) {
        Kind::Keyboard
    } else if bit(keys, BTN_LEFT) && bit(rels, REL_X) && bit(rels, REL_Y) {
        Kind::Mouse
    } else {
        Kind::Other
    }
}

/// The neutral button of a key code, if it is a mouse button.
pub open spec fn button_of(code: u16) -> Option<ReimsVgpuButton> {
    if code == BTN_LEFT {
        Some(ReimsVgpuButton::Left)
    } else if code == BTN_RIGHT {
        Some(ReimsVgpuButton::Right)
    } else if code == BTN_MIDDLE {
        Some(ReimsVgpuButton::Middle)
    } else if code == BTN_SIDE {
        Some(ReimsVgpuButton::Side)
    } else if code == BTN_EXTRA {
        Some(ReimsVgpuButton::Extra)
    } else {
        None
    }
}

fn button(code: u16) -> (b: Option<ReimsVgpuButton>)
    ensures
        b == button_of(code),
{
    if code == BTN_LEFT {
        Some(ReimsVgpuButton::Left)
    } else if code == BTN_RIGHT {
        Some(ReimsVgpuButton::Right)
    } else if code == BTN_MIDDLE {
        Some(ReimsVgpuButton::Middle)
    } else if code == BTN_SIDE {
        Some(ReimsVgpuButton::Side)
    } else if code == BTN_EXTRA {
        Some(ReimsVgpuButton::Extra)
    } else {
        None
    }
}

/// `v` held inside the range of an `i32`.
pub open spec fn saturated(v: int) -> int {
    if v > i32::MAX {
        i32::MAX as int
    } else if v < i32::MIN {
        i32::MIN as int
    } else {
        v
    }
}

fn saturating_sum(a: i32, b: i32) -> (sum: i32)
    ensures
        sum == saturated(a + b),
{
    let wide: i64 = a as i64 + b as i64;
    if wide > i32::MAX as i64 {
        i32::MAX
    } else if wide < i32::MIN as i64 {
        i32::MIN
    } else {
        wide as i32
    }
}

/// A down and an up per notch, of `pos` for positive values and `neg` otherwise.
pub open spec fn notch_actions(
    value: i32,
    pos: ReimsVgpuButton,
    neg: ReimsVgpuButton,
) -> Seq<HostAction> {
    let count = if value < 0 { -value } else { value as int };
    let button = if value > 0 { pos } else { neg };
    Seq::new((2 * count) as nat, |i: int| HostAction::PointerButton { button, down: i % 2 == 0 })
}

/// A down+up pair per notch, `pos` for positive values.
fn notches(value: i32, pos: ReimsVgpuButton, neg: ReimsVgpuButton) -> (actions: Vec<HostAction>)
    ensures
        actions@ == notch_actions(value, pos, neg),
{
    let b: ReimsVgpuButton = if value > 0 { pos } else { neg };
    let count: i64 = if value < 0 { -(value as i64) } else { value as i64 };
    let mut actions: Vec<HostAction> = Vec::new();
    let mut n: i64 = 0;
    while n < count
        invariant
            0 <= n <= count,
            actions@ =~= Seq::new(
                (2 * n) as nat,
                |i: int| HostAction::PointerButton { button: b, down: i % 2 == 0 },
            ),
        decreases count - n,
    {
        actions.push(HostAction::input_pointer_button(b, true));
        actions.push(HostAction::input_pointer_button(b, false));
        n += 1;
    }
    actions
}

/// One up for each held button, in the order they went down.
pub open spec fn button_releases(held: Seq<ReimsVgpuButton>) -> Seq<HostAction> {
    Seq::new(held.len(), |i: int| HostAction::PointerButton { button: held[i], down: false })
}

/// What a translator knows of its device.
#[verifier::ext_equal]
pub struct DeviceState {
    /// The keys it holds, in the order they went down.
    pub keys: Seq<u32>,
    /// The buttons it holds, in the order they went down.
    pub buttons: Seq<ReimsVgpuButton>,
    /// The motion since the last report.
    pub pending: (int, int),
    /// Whether there was any.
    pub moved: bool,
}

impl DeviceState {
    /// A device that has sent nothing yet.
    pub open spec fn fresh() -> DeviceState {
        DeviceState { keys: Seq::empty(), buttons: Seq::empty(), pending: (0, 0), moved: false }
    }

    /// Whether an event closes a report that moved the pointer.
    pub open spec fn moves_pointer(self, ev: InputEvent) -> bool {
        ev.kind == EV_SYN && ev.code == SYN_REPORT && self.moved
    }

    /// The state after a key event that went `down` or up.
    pub open spec fn after_key(self, code: u16, down: bool) -> DeviceState {
        match button_of(code) {
            Some(b) => if down == self.buttons.contains(b) {
                self
            } else if down {
                DeviceState { buttons: self.buttons.push(b), ..self }
            } else {
                DeviceState { buttons: without(self.buttons, b), ..self }
            },
            None => if BTN_MISC <= code < KEY_OK {
                self
            } else {
                DeviceState { keys: held_after(self.keys, code as u32, down), ..self }
            },
        }
    }

    /// The state after motion by `(dx, dy)`.
    pub open spec fn after_motion(self, dx: int, dy: int) -> DeviceState {
        DeviceState {
            pending: (saturated(self.pending.0 + dx), saturated(self.pending.1 + dy)),
            moved: true,
            ..self
        }
    }

    /// The state after one event.
    pub open spec fn after(self, ev: InputEvent) -> DeviceState {
        if ev.kind == EV_KEY {
            if ev.value == 0 || ev.value == 1 {
                self.after_key(ev.code, ev.value == 1)
            } else {
                self
            }
        } else if ev.kind == EV_REL && ev.code == REL_X {
            self.after_motion(ev.value as int, 0)
        } else if ev.kind == EV_REL && ev.code == REL_Y {
            self.after_motion(0, ev.value as int)
        } else if self.moves_pointer(ev) {
            DeviceState { pending: (0, 0), moved: false, ..self }
        } else {
            self
        }
    }

    /// Where the pointer is after one event.
    pub open spec fn spot_after(self, spot: Spot, ev: InputEvent) -> Spot {
        if self.moves_pointer(ev) {
            spot.moved(self.pending.0, self.pending.1)
        } else {
            spot
        }
    }

    /// The guest input a key event completes.
    pub open spec fn actions_of_key(self, code: u16, down: bool) -> Seq<HostAction> {
        match button_of(code) {
            Some(b) => if down == self.buttons.contains(b) {
                Seq::empty()
            } else {
                seq![HostAction::PointerButton { button: b, down }]
            },
            None => if BTN_MISC <= code < KEY_OK {
                Seq::empty()
            } else {
                key_actions(self.keys, code as u32, down)
            },
        }
    }

    /// The guest input one event completes, with the pointer at `spot`. Values
    /// of a key other than 0 and 1 are autorepeat: the guest keeps its own.
    pub open spec fn actions(self, spot: Spot, ev: InputEvent) -> Seq<HostAction> {
        if ev.kind == EV_KEY {
            if ev.value == 0 || ev.value == 1 {
                self.actions_of_key(ev.code, ev.value == 1)
            } else {
                Seq::empty()
            }
        } else if ev.kind == EV_REL && ev.code == REL_WHEEL {
            notch_actions(ev.value, ReimsVgpuButton::WheelUp, ReimsVgpuButton::WheelDown)
        } else if ev.kind == EV_REL && ev.code == REL_HWHEEL {
            notch_actions(ev.value, ReimsVgpuButton::WheelRight, ReimsVgpuButton::WheelLeft)
        } else if self.moves_pointer(ev) {
            let to = self.spot_after(spot, ev);
            seq![
                HostAction::PointerMove {
                    x: to.x as u32,
                    y: to.y as u32,
                    width: to.width as u32,
                    height: to.height as u32,
                },
            ]
        } else {
            Seq::empty()
        }
    }

    /// One release for each key and then each button the device holds.
    pub open spec fn releases(self) -> Seq<HostAction> {
        key_releases(self.keys) + button_releases(self.buttons)
    }

    /// Nothing is held twice, no wheel direction is held, and motion is pending
    /// only where there was some.
    pub open spec fn valid(self) -> bool {
        &&& !self.moved ==> self.pending == (0int, 0int)
        &&& self.keys.no_duplicates()
        &&& self.buttons.no_duplicates()
        &&& forall|b: ReimsVgpuButton| #[trigger] self.buttons.contains(b) ==> !b.is_wheel()
    }
}

/// The size of the frame a shared pointer is held inside.
pub struct FrameSize {
    pub width: u32,
    pub height: u32,
}

impl RwLockPredicate<Pointer> for FrameSize {
    open spec fn inv(self, pointer: Pointer) -> bool {
        pointer@.width == self.width && pointer@.height == self.height
    }
}

/// The one guest cursor every mouse moves.
pub type SharedPointer = Arc<RwLock<Pointer, FrameSize>>;

/// Whether the lock of a shared pointer was made with it at `spot`.
pub closed spec fn begins_at(shared: SharedPointer, spot: Spot) -> bool {
    exists|given: Pointer, frame: Ghost<FrameSize>|
        #[trigger] call_ensures(RwLock::<Pointer, FrameSize>::new, (given, frame), *shared) && given@
            == spot
}

/// A pointer that several translators can move, from where it is.
pub fn share(pointer: Pointer) -> (shared: SharedPointer)
    ensures
        begins_at(shared, pointer@),
        shared.pred().width == pointer@.width,
        shared.pred().height == pointer@.height,
{
    let (width, height): (u32, u32) = pointer.size();
    let ghost frame = FrameSize { width, height };
    let lock: RwLock<Pointer, FrameSize> = RwLock::new(pointer, Ghost(frame));
    let ghost made = lock;
    let shared: SharedPointer = Arc::new(lock);
    assert(call_ensures(RwLock::<Pointer, FrameSize>::new, (pointer, Ghost(frame)), made));
    shared
}

/// Whether the lock of a shared pointer handed it out at `from`, and in return
/// for that very handle was given it back at `to`.
pub closed spec fn is_carried(shared: SharedPointer, from: Spot, to: Spot) -> bool {
    exists|taken: Pointer, handle: WriteHandle<'_, Pointer, FrameSize>, put: Pointer|
        {
            &&& #[trigger] call_ensures(
                RwLock::<Pointer, FrameSize>::acquire_write,
                (&*shared,),
                (taken, handle),
            )
            &&& #[trigger] call_ensures(
                WriteHandle::<'_, Pointer, FrameSize>::release_write,
                (handle, put),
                (),
            )
            &&& taken@ == from
            &&& put@ == to
        }
}

/// What a device holds and has yet to report.
struct Device {
    keyboard: Keyboard,
    pending: (i32, i32),
    moved: bool,
    buttons_held: Vec<ReimsVgpuButton>,
}

/// The pointer a device moves.
enum Mover {
    /// One of its own.
    Own(Pointer),
    /// One shared by every device: the guest has one cursor, and a mouse moved
    /// after another carries on from where that one left it.
    Shared(SharedPointer),
}

/// One device's events to guest input: keys through [`Keyboard`], relative
/// motion through [`Pointer`] one move per `SYN_REPORT`, buttons and wheel
/// notches as neutral buttons.
pub struct Translator {
    device: Device,
    pointer: Mover,
}

impl View for Device {
    type V = DeviceState;

    closed spec fn view(&self) -> DeviceState {
        DeviceState {
            keys: self.keyboard@,
            buttons: self.buttons_held@,
            pending: (self.pending.0 as int, self.pending.1 as int),
            moved: self.moved,
        }
    }
}

impl View for Translator {
    type V = DeviceState;

    closed spec fn view(&self) -> DeviceState {
        self.device@
    }
}

impl Translator {
    /// Where the pointer is, for a translator with one of its own.
    pub closed spec fn own(self) -> Option<Spot> {
        match self.pointer {
            Mover::Own(pointer) => Some(pointer@),
            Mover::Shared(_) => None,
        }
    }

    /// The shared pointer, for a translator that moves one.
    pub closed spec fn shared(self) -> Option<SharedPointer> {
        match self.pointer {
            Mover::Own(_) => None,
            Mover::Shared(pointer) => Some(pointer),
        }
    }

    /// A translator with a pointer of its own, at the centre of a
    /// `width`x`height` frame.
    pub fn new(width: u32, height: u32) -> (translator: Translator)
        ensures
            translator@ == DeviceState::fresh(),
            translator.own() == Some(Spot::centre(width as int, height as int)),
            translator.shared() is None,
    {
        Translator { device: Device::new(), pointer: Mover::Own(Pointer::new(width, height)) }
    }

    /// A translator moving the given shared pointer.
    pub fn with_pointer(pointer: SharedPointer) -> (translator: Translator)
        ensures
            translator@ == DeviceState::fresh(),
            translator.own() is None,
            translator.shared() == Some(pointer),
    {
        Translator { device: Device::new(), pointer: Mover::Shared(pointer) }
    }

    /// Feed one event; returns the guest input it completes, in order.
    ///
    /// A pointer of its own is moved from where it is. Where a shared one is when
    /// a report closes depends on every mouse, so its move starts from where its
    /// lock hands it out, some position inside the frame, and the lock is given it
    /// back where the move leaves it; [`Self::feed_at`] says what follows from
    /// which.
    pub fn feed(&mut self, ev: InputEvent) -> (actions: Vec<HostAction>)
        ensures
            final(self)@ == old(self)@.after(ev),
            final(self).shared() == old(self).shared(),
            match old(self).own() {
                Some(spot) => {
                    &&& actions@ == old(self)@.actions(spot, ev)
                    &&& final(self).own() == Some(old(self)@.spot_after(spot, ev))
                },
                None => final(self).own() is None,
            },
            !old(self)@.moves_pointer(ev) ==> forall|spot: Spot|
                actions@ == #[trigger] old(self)@.actions(spot, ev),
            old(self).shared() matches Some(pointer) ==> old(self)@.moves_pointer(ev) ==> exists|
                spot: Spot,
            |
                {
                    &&& spot.inside()
                    &&& spot.width == pointer.pred().width
                    &&& spot.height == pointer.pred().height
                    &&& is_carried(pointer, spot, old(self)@.spot_after(spot, ev))
                    &&& actions@ == #[trigger] old(self)@.actions(spot, ev)
                },
    {
        match &mut self.pointer {
            Mover::Own(pointer) => self.device.feed_at(pointer, ev),
            Mover::Shared(shared) => {
                if !self.device.closes_report(ev) {
                    return self.device.input(ev);
                }
                let (mut pointer, lock) = shared.acquire_write();
                let ghost spot = pointer@;
                let ghost (taken, handle) = (pointer, lock);
                let actions: Vec<HostAction> = self.device.feed_at(&mut pointer, ev);
                lock.release_write(pointer);
                proof {
                    let lock = old(self).shared()->0;
                    assert(call_ensures(
                        RwLock::<Pointer, FrameSize>::acquire_write,
                        (&*lock,),
                        (taken, handle),
                    ));
                    assert(call_ensures(
                        WriteHandle::<'_, Pointer, FrameSize>::release_write,
                        (handle, pointer),
                        (),
                    ));
                }
                assert(actions@ == old(self)@.actions(spot, ev));
                actions
            },
        }
    }

    /// [`Self::feed`], moving the given pointer instead.
    pub fn feed_at(&mut self, pointer: &mut Pointer, ev: InputEvent) -> (actions: Vec<HostAction>)
        ensures
            final(self)@ == old(self)@.after(ev),
            final(self).shared() == old(self).shared(),
            final(self).own() == old(self).own(),
            final(pointer)@ == old(self)@.spot_after(old(pointer)@, ev),
            actions@ == old(self)@.actions(old(pointer)@, ev),
    {
        self.device.feed_at(pointer, ev)
    }

    /// Feed every whole event a read returned, in the machine's byte order,
    /// moving the given pointer; returns the guest input they complete, in order.
    pub fn feed_all(&mut self, pointer: &mut Pointer, raw: &[u8]) -> (actions: Vec<HostAction>)
        ensures
            final(self).shared() == old(self).shared(),
            final(self).own() == old(self).own(),
            exists|order: ByteOrder|
                {
                    let events = #[trigger] events_of(order, raw@);
                    &&& is_native(order)
                    &&& final(self)@ == device_after(old(self)@, events)
                    &&& final(pointer)@ == spot_along(old(self)@, old(pointer)@, events)
                    &&& actions@ == actions_along(old(self)@, old(pointer)@, events)
                },
    {
        self.feed_all_at(pointer, native_order(), raw)
    }

    /// [`Self::feed_all`], with the events read in `order`.
    pub fn feed_all_at(&mut self, pointer: &mut Pointer, order: ByteOrder, raw: &[u8]) -> (actions:
        Vec<HostAction>)
        ensures
            final(self).shared() == old(self).shared(),
            final(self).own() == old(self).own(),
            final(self)@ == device_after(old(self)@, events_of(order, raw@)),
            final(pointer)@ == spot_along(old(self)@, old(pointer)@, events_of(order, raw@)),
            actions@ == actions_along(old(self)@, old(pointer)@, events_of(order, raw@)),
    {
        let events: Vec<InputEvent> = decode_all_in(order, raw);
        let mut actions: Vec<HostAction> = Vec::new();
        let mut i: usize = 0;
        assert(events@.take(0) =~= Seq::<InputEvent>::empty());
        while i < events.len()
            invariant
                i <= events@.len(),
                events@ == events_of(order, raw@),
                self.shared() == old(self).shared(),
                self.own() == old(self).own(),
                self@ == device_after(old(self)@, events@.take(i as int)),
                pointer@ == spot_along(old(self)@, old(pointer)@, events@.take(i as int)),
                actions@ == actions_along(old(self)@, old(pointer)@, events@.take(i as int)),
            decreases events@.len() - i,
        {
            proof {
                let next = events@.take(i + 1);
                assert(next.drop_last() =~= events@.take(i as int));
                assert(next.last() == events@[i as int]);
            }
            let mut told: Vec<HostAction> = self.feed_at(pointer, events[i]);
            actions.append(&mut told);
            i += 1;
        }
        assert(events@.take(i as int) =~= events@);
        actions
    }

    /// The device is gone: release every key and button it still holds.
    pub fn lost(&mut self) -> (actions: Vec<HostAction>)
        ensures
            final(self)@ == DeviceState::fresh(),
            final(self).shared() == old(self).shared(),
            final(self).own() == old(self).own(),
            actions@ == old(self)@.releases(),
    {
        self.device.lost()
    }
}

impl Device {
    fn new() -> (device: Device)
        ensures
            device@ == DeviceState::fresh(),
    {
        Device {
            keyboard: Keyboard::new(),
            pending: (0, 0),
            moved: false,
            buttons_held: Vec::new(),
        }
    }

    fn closes_report(&self, ev: InputEvent) -> (closes: bool)
        ensures
            closes == self@.moves_pointer(ev),
    {
        ev.kind == EV_SYN && ev.code == SYN_REPORT && self.moved
    }

    fn feed_at(&mut self, pointer: &mut Pointer, ev: InputEvent) -> (actions: Vec<HostAction>)
        ensures
            final(self)@ == old(self)@.after(ev),
            final(pointer)@ == old(self)@.spot_after(old(pointer)@, ev),
            actions@ == old(self)@.actions(old(pointer)@, ev),
            old(self)@.moves_pointer(ev) ==> old(pointer)@.inside(),
    {
        if self.closes_report(ev) {
            let (dx, dy): (i32, i32) = self.take_motion();
            let mut actions: Vec<HostAction> = Vec::new();
            actions.push(report(pointer, dx, dy));
            actions
        } else {
            self.input(ev)
        }
    }

    fn lost(&mut self) -> (actions: Vec<HostAction>)
        ensures
            final(self)@ == DeviceState::fresh(),
            actions@ == old(self)@.releases(),
    {
        let mut actions: Vec<HostAction> = self.keyboard.shutdown().actions;
        let mut i: usize = 0;
        while i < self.buttons_held.len()
            invariant
                i <= self.buttons_held@.len(),
                self.buttons_held@ == old(self).buttons_held@,
                self.keyboard@ == Seq::<u32>::empty(),
                actions@ =~= key_releases(old(self).keyboard@) + button_releases(
                    self.buttons_held@,
                ).take(i as int),
            decreases self.buttons_held@.len() - i,
        {
            actions.push(HostAction::input_pointer_button(self.buttons_held[i], false));
            i += 1;
        }
        self.buttons_held.clear();
        self.pending = (0, 0);
        self.moved = false;
        actions
    }

    /// Events that do not move the pointer.
    fn input(&mut self, ev: InputEvent) -> (actions: Vec<HostAction>)
        requires
            !old(self)@.moves_pointer(ev),
        ensures
            final(self)@ == old(self)@.after(ev),
            forall|spot: Spot| actions@ == #[trigger] old(self)@.actions(spot, ev),
    {
        if ev.kind == EV_KEY {
            return self.key(ev.code, ev.value);
        }
        if ev.kind == EV_REL {
            if ev.code == REL_X {
                self.motion(ev.value, 0);
            } else if ev.code == REL_Y {
                self.motion(0, ev.value);
            } else if ev.code == REL_WHEEL {
                return notches(ev.value, ReimsVgpuButton::WheelUp, ReimsVgpuButton::WheelDown);
            } else if ev.code == REL_HWHEEL {
                return notches(ev.value, ReimsVgpuButton::WheelRight, ReimsVgpuButton::WheelLeft);
            }
        }
        Vec::new()
    }

    fn take_motion(&mut self) -> (motion: (i32, i32))
        ensures
            final(self)@ == (DeviceState { pending: (0, 0), moved: false, ..old(self)@ }),
            motion.0 == old(self)@.pending.0,
            motion.1 == old(self)@.pending.1,
    {
        let motion: (i32, i32) = self.pending;
        self.pending = (0, 0);
        self.moved = false;
        motion
    }

    fn motion(&mut self, dx: i32, dy: i32)
        ensures
            final(self)@ == old(self)@.after_motion(dx as int, dy as int),
    {
        self.pending = (saturating_sum(self.pending.0, dx), saturating_sum(self.pending.1, dy));
        self.moved = true;
    }

    fn key(&mut self, code: u16, value: i32) -> (actions: Vec<HostAction>)
        ensures
            value != 0 && value != 1 ==> final(self)@ == old(self)@ && actions@
                == Seq::<HostAction>::empty(),
            value == 0 || value == 1 ==> final(self)@ == old(self)@.after_key(code, value == 1)
                && actions@ == old(self)@.actions_of_key(code, value == 1),
    {
        // 2 is autorepeat: the guest keeps its own repeat.
        if value != 0 && value != 1 {
            return Vec::new();
        }
        let down: bool = value == 1;
        if let Some(b) = button(code) {
            let held: bool = self.holds(b);
            if down == held {
                return Vec::new();
            }
            if down {
                self.buttons_held.push(b);
            } else {
                self.forget(b);
            }
            let mut actions: Vec<HostAction> = Vec::new();
            actions.push(HostAction::input_pointer_button(b, down));
            return actions;
        }
        if BTN_MISC <= code && code < KEY_OK {
            // Joystick, tablet and touch buttons: not a keyboard's, not a mouse's.
            return Vec::new();
        }
        self.keyboard.key(code as u32, down).actions
    }

    fn holds(&self, b: ReimsVgpuButton) -> (held: bool)
        ensures
            held == self@.buttons.contains(b),
    {
        let mut i: usize = 0;
        while i < self.buttons_held.len()
            invariant
                i <= self.buttons_held@.len(),
                forall|k: int| 0 <= k < i ==> self.buttons_held@[k] != b,
            decreases self.buttons_held@.len() - i,
        {
            if self.buttons_held[i] == b {
                return true;
            }
            i += 1;
        }
        false
    }

    fn forget(&mut self, b: ReimsVgpuButton)
        ensures
            final(self)@ == (DeviceState {
                buttons: without(old(self)@.buttons, b),
                ..old(self)@
            }),
    {
        let mut kept: Vec<ReimsVgpuButton> = Vec::new();
        let mut i: usize = 0;
        proof {
            assert(self.buttons_held@.take(0) =~= Seq::<ReimsVgpuButton>::empty());
            lemma_without_contains(Seq::<ReimsVgpuButton>::empty(), b);
        }
        while i < self.buttons_held.len()
            invariant
                i <= self.buttons_held@.len(),
                *self == *old(self),
                kept@ == without(self.buttons_held@.take(i as int), b),
            decreases self.buttons_held@.len() - i,
        {
            proof {
                lemma_without_push(
                    self.buttons_held@.take(i as int),
                    b,
                    self.buttons_held@[i as int],
                );
                assert(self.buttons_held@.take(i + 1) =~= self.buttons_held@.take(i as int).push(
                    self.buttons_held@[i as int],
                ));
            }
            if self.buttons_held[i] != b {
                kept.push(self.buttons_held[i]);
            }
            i += 1;
        }
        assert(self.buttons_held@.take(i as int) =~= self.buttons_held@);
        self.buttons_held = kept;
    }
}

/// Move the pointer and name where it now is.
fn report(pointer: &mut Pointer, dx: i32, dy: i32) -> (action: HostAction)
    ensures
        final(pointer)@ == old(pointer)@.moved(dx as int, dy as int),
        action == (HostAction::PointerMove {
            x: final(pointer)@.x as u32,
            y: final(pointer)@.y as u32,
            width: final(pointer)@.width as u32,
            height: final(pointer)@.height as u32,
        }),
        old(pointer)@.inside(),
{
    let (x, y): (u32, u32) = pointer.moved(dx, dy);
    let (w, h): (u32, u32) = pointer.size();
    HostAction::input_pointer_move(x, y, w, h)
}

/// Whether a guest believes held exactly what a device holds.
pub open spec fn believes(belief: Belief, device: DeviceState) -> bool {
    &&& believes_held(belief, device.keys)
    &&& forall|b: ReimsVgpuButton| #[trigger]
        belief.buttons.contains(b) <==> device.buttons.contains(b)
}

/// The state of a device after a run of events, each with the pointer where it
/// was at the time.
pub open spec fn state_after(device: DeviceState, run: Seq<(InputEvent, Spot)>) -> DeviceState
    decreases run.len(),
{
    if run.len() == 0 {
        device
    } else {
        state_after(device, run.drop_last()).after(run.last().0)
    }
}

/// All the guest input of a run of events.
pub open spec fn all_actions(device: DeviceState, run: Seq<(InputEvent, Spot)>) -> Seq<HostAction>
    decreases run.len(),
{
    if run.len() == 0 {
        Seq::empty()
    } else {
        all_actions(device, run.drop_last()) + state_after(device, run.drop_last()).actions(
            run.last().1,
            run.last().0,
        )
    }
}

/// The state of a device after its events.
pub open spec fn device_after(device: DeviceState, events: Seq<InputEvent>) -> DeviceState
    decreases events.len(),
{
    if events.len() == 0 {
        device
    } else {
        device_after(device, events.drop_last()).after(events.last())
    }
}

/// Where the pointer at `spot` is after a device's events, with none of another
/// in between.
pub open spec fn spot_along(device: DeviceState, spot: Spot, events: Seq<InputEvent>) -> Spot
    decreases events.len(),
{
    if events.len() == 0 {
        spot
    } else {
        device_after(device, events.drop_last()).spot_after(
            spot_along(device, spot, events.drop_last()),
            events.last(),
        )
    }
}

/// All the guest input of a device's events, with the pointer at `spot` before
/// them and none of another in between: each report moves it on from where the
/// last one left it.
pub open spec fn actions_along(
    device: DeviceState,
    spot: Spot,
    events: Seq<InputEvent>,
) -> Seq<HostAction>
    decreases events.len(),
{
    if events.len() == 0 {
        Seq::empty()
    } else {
        actions_along(device, spot, events.drop_last()) + device_after(
            device,
            events.drop_last(),
        ).actions(spot_along(device, spot, events.drop_last()), events.last())
    }
}

/// A device's events, each with the pointer where it is at the time.
pub open spec fn run_along(device: DeviceState, spot: Spot, events: Seq<InputEvent>) -> Seq<
    (InputEvent, Spot),
>
    decreases events.len(),
{
    if events.len() == 0 {
        Seq::empty()
    } else {
        run_along(device, spot, events.drop_last()).push(
            (events.last(), spot_along(device, spot, events.drop_last())),
        )
    }
}

/// Feeding a device's events at one pointer is a run like any other, so what
/// holds of every run holds of it: the same state, and the same guest input.
pub proof fn law_feeding_at_one_pointer_is_a_run(
    device: DeviceState,
    spot: Spot,
    events: Seq<InputEvent>,
)
    ensures
        run_along(device, spot, events).len() == events.len(),
        state_after(device, run_along(device, spot, events)) == device_after(device, events),
        all_actions(device, run_along(device, spot, events)) == actions_along(device, spot, events),
    decreases events.len(),
{
    if events.len() > 0 {
        law_feeding_at_one_pointer_is_a_run(device, spot, events.drop_last());
        assert(run_along(device, spot, events).drop_last() =~= run_along(
            device,
            spot,
            events.drop_last(),
        ));
    }
}

proof fn lemma_button_releases(belief: Belief, held: Seq<ReimsVgpuButton>, n: int)
    requires
        held.no_duplicates(),
        forall|b: ReimsVgpuButton| #[trigger] belief.buttons.contains(b) <==> held.contains(b),
        0 <= n <= held.len(),
    ensures
        belief.accepts_all(button_releases(held).take(n)),
        belief.told_all(button_releases(held).take(n)).keys == belief.keys,
        forall|b: ReimsVgpuButton| #[trigger]
            belief.told_all(button_releases(held).take(n)).buttons.contains(b)
                <==> belief.buttons.contains(b) && !(exists|i: int| 0 <= i < n && held[i] == b),
    decreases n,
{
    let run = button_releases(held).take(n);
    if n > 0 {
        lemma_button_releases(belief, held, n - 1);
        assert(run.drop_last() =~= button_releases(held).take(n - 1));
        assert(held.contains(held[n - 1]));
    }
}

/// Losing a device is told as releases of exactly what it held, after which the
/// guest believes that nothing is held.
pub proof fn law_lost_releases_everything(belief: Belief, device: DeviceState)
    requires
        device.valid(),
        believes(belief, device),
    ensures
        belief.accepts_all(device.releases()),
        belief.told_all(device.releases()) == Belief::nothing(),
{
    law_releases_close_every_key(belief, device.keys);
    belief.lemma_told_concat(key_releases(device.keys), button_releases(device.buttons));
    let middle = belief.told_all(key_releases(device.keys));
    let held = device.buttons;
    lemma_button_releases(middle, held, held.len() as int);
    assert(button_releases(held).take(held.len() as int) =~= button_releases(held));
    let after = middle.told_all(button_releases(held));
    assert(after.buttons =~= Set::empty()) by {
        assert forall|b: ReimsVgpuButton| !after.buttons.contains(b) by {
            if middle.buttons.contains(b) {
                let i = choose|i: int| 0 <= i < held.len() && held[i] == b;
                assert(0 <= i < held.len());
            }
        }
    }
}

proof fn lemma_pairs(belief: Belief, button: ReimsVgpuButton, n: nat)
    requires
        !belief.buttons.contains(button),
    ensures
        ({
            let pairs = Seq::new(
                2 * n,
                |i: int| HostAction::PointerButton { button, down: i % 2 == 0 },
            );
            belief.accepts_all(pairs) && belief.told_all(pairs) == belief
        }),
    decreases n,
{
    let pairs = Seq::new(2 * n, |i: int| HostAction::PointerButton { button, down: i % 2 == 0 });
    if n > 0 {
        lemma_pairs(belief, button, (n - 1) as nat);
        let fewer = Seq::new(
            2 * (n - 1) as nat,
            |i: int| HostAction::PointerButton { button, down: i % 2 == 0 },
        );
        let half = pairs.drop_last();
        assert(half.drop_last() =~= fewer);
        assert(half.last() == (HostAction::PointerButton { button, down: true }));
        assert(pairs.last() == (HostAction::PointerButton { button, down: false }));
        assert(belief.told_all(half.drop_last()) == belief);
        assert(belief.told_all(half) == belief.told(half.last()));
        assert(belief.accepts_all(half.drop_last()));
        assert(belief.accepts_all(half));
        assert(belief.told_all(pairs) =~= belief);
    }
}

/// Every event is told to the guest as presses of what was up and releases of
/// what was down. Afterwards the guest believes held exactly what the device
/// holds.
pub proof fn law_events_keep_belief(
    belief: Belief,
    device: DeviceState,
    spot: Spot,
    ev: InputEvent,
)
    requires
        device.valid(),
        believes(belief, device),
    ensures
        device.after(ev).valid(),
        belief.accepts_all(device.actions(spot, ev)),
        believes(belief.told_all(device.actions(spot, ev)), device.after(ev)),
{
    if ev.kind == EV_KEY {
        if ev.value == 0 || ev.value == 1 {
            let down = ev.value == 1;
            match button_of(ev.code) {
                Some(b) => {
                    belief.lemma_told_one(HostAction::PointerButton { button: b, down });
                    let held = device.buttons;
                    lemma_without_contains(held, b);
                    lemma_push_distinct(held, b);
                },
                None => {
                    law_key_events_keep_belief(belief, device.keys, ev.code as u32, down);
                },
            }
        }
    } else if ev.kind == EV_REL && (ev.code == REL_WHEEL || ev.code == REL_HWHEEL) {
        let (pos, neg) = if ev.code == REL_WHEEL {
            (ReimsVgpuButton::WheelUp, ReimsVgpuButton::WheelDown)
        } else {
            (ReimsVgpuButton::WheelRight, ReimsVgpuButton::WheelLeft)
        };
        let count = if ev.value < 0 { -ev.value } else { ev.value as int };
        lemma_pairs(belief, if ev.value > 0 { pos } else { neg }, count as nat);
    } else if device.moves_pointer(ev) {
        belief.lemma_told_one(device.actions(spot, ev)[0]);
        assert(device.actions(spot, ev) =~= seq![device.actions(spot, ev)[0]]);
    }
}

proof fn lemma_run_keeps_belief(run: Seq<(InputEvent, Spot)>)
    ensures
        state_after(DeviceState::fresh(), run).valid(),
        Belief::nothing().accepts_all(all_actions(DeviceState::fresh(), run)),
        believes(
            Belief::nothing().told_all(all_actions(DeviceState::fresh(), run)),
            state_after(DeviceState::fresh(), run),
        ),
    decreases run.len(),
{
    if run.len() > 0 {
        lemma_run_keeps_belief(run.drop_last());
        let device = state_after(DeviceState::fresh(), run.drop_last());
        let before = all_actions(DeviceState::fresh(), run.drop_last());
        let (ev, spot) = run.last();
        let belief = Belief::nothing().told_all(before);
        law_events_keep_belief(belief, device, spot, ev);
        Belief::nothing().lemma_told_concat(before, device.actions(spot, ev));
    }
}

/// Whatever a device sends, once it is gone every key and button the guest was
/// told went down has been told to go up again: the whole stream never presses
/// what is down nor releases what is up, and leaves nothing held.
pub proof fn law_every_press_is_released(run: Seq<(InputEvent, Spot)>)
    ensures
        ({
            let fresh = DeviceState::fresh();
            let told = all_actions(fresh, run) + state_after(fresh, run).releases();
            Belief::nothing().accepts_all(told) && Belief::nothing().told_all(told)
                == Belief::nothing()
        }),
{
    let fresh = DeviceState::fresh();
    lemma_run_keeps_belief(run);
    let before = all_actions(fresh, run);
    let device = state_after(fresh, run);
    law_lost_releases_everything(Belief::nothing().told_all(before), device);
    Belief::nothing().lemma_told_concat(before, device.releases());
}

/// Whether an event closes a report.
pub open spec fn ends_report(ev: InputEvent) -> bool {
    ev.kind == EV_SYN && ev.code == SYN_REPORT
}

/// Whether an event is relative motion.
pub open spec fn is_motion(ev: InputEvent) -> bool {
    ev.kind == EV_REL && (ev.code == REL_X || ev.code == REL_Y)
}

/// The motion of a run of events, summed.
pub open spec fn motion_of(run: Seq<(InputEvent, Spot)>) -> (int, int)
    decreases run.len(),
{
    if run.len() == 0 {
        (0, 0)
    } else {
        let (dx, dy) = motion_of(run.drop_last());
        let ev = run.last().0;
        if !is_motion(ev) {
            (dx, dy)
        } else if ev.code == REL_X {
            (dx + ev.value, dy)
        } else {
            (dx, dy + ev.value)
        }
    }
}

/// Whether a sum fits the range a device's motion is kept in.
pub open spec fn fits(motion: (int, int)) -> bool {
    i32::MIN <= motion.0 <= i32::MAX && i32::MIN <= motion.1 <= i32::MAX
}

/// A report in the making: events none of which closes it, with motion that
/// never leaves the range it is kept in.
pub open spec fn is_report(run: Seq<(InputEvent, Spot)>) -> bool {
    &&& forall|i: int| 0 <= i < run.len() ==> !ends_report((#[trigger] run[i]).0)
    &&& forall|n: int| 0 <= n <= run.len() ==> fits(motion_of(#[trigger] run.take(n)))
}

proof fn lemma_report(device: DeviceState, run: Seq<(InputEvent, Spot)>)
    requires
        device.valid(),
        !device.moved,
        is_report(run),
    ensures
        state_after(device, run).pending == motion_of(run),
        state_after(device, run).moved <==> exists|i: int|
            0 <= i < run.len() && is_motion((#[trigger] run[i]).0),
    decreases run.len(),
{
    if run.len() > 0 {
        let fewer = run.drop_last();
        let n = fewer.len() as int;
        assert forall|k: int| 0 <= k <= fewer.len() implies fits(
            motion_of(#[trigger] fewer.take(k)),
        ) by {
            assert(fewer.take(k) =~= run.take(k));
        }
        assert forall|i: int| 0 <= i < fewer.len() implies !ends_report((#[trigger] fewer[i]).0) by {
            assert(fewer[i] == run[i]);
        }
        lemma_report(device, fewer);
        assert(run.take(run.len() as int) =~= run);
        assert(run.last() == run[n]);
        assert(!ends_report(run[n].0));
        if exists|i: int| 0 <= i < fewer.len() && is_motion((#[trigger] fewer[i]).0) {
            let i = choose|i: int| 0 <= i < fewer.len() && is_motion((#[trigger] fewer[i]).0);
            assert(is_motion(run[i].0));
        }
        if exists|i: int| 0 <= i < run.len() && is_motion((#[trigger] run[i]).0) {
            let i = choose|i: int| 0 <= i < run.len() && is_motion((#[trigger] run[i]).0);
            if i < n {
                assert(is_motion(fewer[i].0));
            }
        }
    }
}

/// A report is one move. Whatever else comes between, relative motion says
/// nothing and moves nothing until its report ends; the end of the report says
/// one absolute move, by all its motion at once, held inside the frame once; and
/// a second end of report says nothing and moves nothing.
pub proof fn law_one_move_per_report(
    device: DeviceState,
    run: Seq<(InputEvent, Spot)>,
    spot: Spot,
    end: InputEvent,
    again: InputEvent,
)
    requires
        device.valid(),
        !device.moved,
        is_report(run),
        exists|i: int| 0 <= i < run.len() && is_motion((#[trigger] run[i]).0),
        spot.inside(),
        spot.width <= u32::MAX,
        spot.height <= u32::MAX,
        ends_report(end),
        ends_report(again),
    ensures
        forall|i: int| #![trigger run[i]]
            0 <= i < run.len() ==> {
                let before = state_after(device, run.take(i));
                &&& is_motion(run[i].0) ==> before.actions(run[i].1, run[i].0) == Seq::<
                    HostAction,
                >::empty()
                &&& before.spot_after(run[i].1, run[i].0) == run[i].1
            },
        ({
            let (dx, dy) = motion_of(run);
            let moved = state_after(device, run);
            let to = spot.moved(dx, dy);
            let done = moved.after(end);
            &&& to.inside()
            &&& moved.actions(spot, end) == seq![
                HostAction::PointerMove {
                    x: held_inside(spot.x + dx, spot.width) as u32,
                    y: held_inside(spot.y + dy, spot.height) as u32,
                    width: spot.width as u32,
                    height: spot.height as u32,
                },
            ]
            &&& moved.spot_after(spot, end) == to
            &&& !done.moved && done.pending == (0int, 0int)
            &&& done.actions(to, again) == Seq::<HostAction>::empty()
            &&& done.spot_after(to, again) == to
        }),
{
    lemma_report(device, run);
    assert forall|i: int| #![trigger run[i]] 0 <= i < run.len() implies {
        let before = state_after(device, run.take(i));
        &&& is_motion(run[i].0) ==> before.actions(run[i].1, run[i].0) == Seq::<HostAction>::empty()
        &&& before.spot_after(run[i].1, run[i].0) == run[i].1
    } by {
        assert(!ends_report(run[i].0));
    }
}

/// Whether an event is none of a keyboard's or a mouse's: autorepeat, a button
/// of another device, another axis, another mark, or another kind altogether.
pub open spec fn is_ignored(ev: InputEvent) -> bool {
    if ev.kind == EV_KEY {
        (ev.value != 0 && ev.value != 1) || (BTN_MISC <= ev.code < KEY_OK && button_of(ev.code)
            is None)
    } else if ev.kind == EV_REL {
        ev.code != REL_X && ev.code != REL_Y && ev.code != REL_WHEEL && ev.code != REL_HWHEEL
    } else {
        !ends_report(ev)
    }
}

/// An ignored event says nothing and changes nothing: the device and the pointer
/// stay as they were, and whatever comes later says what it would have said
/// without it.
pub proof fn law_ignored_events_change_nothing(
    device: DeviceState,
    spot: Spot,
    ev: InputEvent,
    later: Seq<(InputEvent, Spot)>,
)
    requires
        is_ignored(ev),
    ensures
        device.actions(spot, ev) == Seq::<HostAction>::empty(),
        device.after(ev) == device,
        device.spot_after(spot, ev) == spot,
        state_after(device, seq![(ev, spot)] + later) == state_after(device, later),
        all_actions(device, seq![(ev, spot)] + later) == all_actions(device, later),
    decreases later.len(),
{
    let run = seq![(ev, spot)] + later;
    if later.len() == 0 {
        assert(run.drop_last() =~= Seq::<(InputEvent, Spot)>::empty());
        assert(run.last() == (ev, spot));
        assert(state_after(device, run.drop_last()) == device);
        assert(all_actions(device, run.drop_last()) =~= Seq::<HostAction>::empty());
        assert(all_actions(device, run) =~= Seq::<HostAction>::empty());
    } else {
        assert(run.drop_last() =~= seq![(ev, spot)] + later.drop_last());
        law_ignored_events_change_nothing(device, spot, ev, later.drop_last());
    }
}

/// The release that an action is, if it is one: of a key or of a button.
pub open spec fn releases_held(belief: Belief, action: HostAction) -> bool {
    match action {
        HostAction::Key { code, down } => !down && belief.keys.contains(code),
        HostAction::PointerButton { button, down } => !down && belief.buttons.contains(button),
        HostAction::PointerMove { .. } => false,
    }
}

/// Whatever a device sent, its loss says one release for each key and button
/// that the guest was last told went down, and nothing else. Afterwards a second
/// loss says nothing, the end of a report says nothing and moves nothing, and a
/// new press of any key or button is told.
pub proof fn law_a_lost_device_is_forgotten(
    run: Seq<(InputEvent, Spot)>,
    spot: Spot,
    end: InputEvent,
    press: InputEvent,
)
    requires
        ends_report(end),
        press.kind == EV_KEY,
        press.value == 1,
        !is_ignored(press),
    ensures
        ({
            let told = Belief::nothing().told_all(all_actions(DeviceState::fresh(), run));
            let releases = state_after(DeviceState::fresh(), run).releases();
            &&& releases.no_duplicates()
            &&& forall|a: HostAction| #[trigger] releases.contains(a) <==> releases_held(told, a)
        }),
        DeviceState::fresh().releases() == Seq::<HostAction>::empty(),
        DeviceState::fresh().actions(spot, end) == Seq::<HostAction>::empty(),
        DeviceState::fresh().spot_after(spot, end) == spot,
        DeviceState::fresh().actions(spot, press) == seq![
            match button_of(press.code) {
                Some(button) => HostAction::PointerButton { button, down: true },
                None => HostAction::Key { code: press.code as u32, down: true },
            },
        ],
{
    lemma_run_keeps_belief(run);
    let told = Belief::nothing().told_all(all_actions(DeviceState::fresh(), run));
    let device = state_after(DeviceState::fresh(), run);
    let releases = device.releases();
    let (k, b) = (device.keys, device.buttons);
    assert forall|i: int| 0 <= i < releases.len() implies releases_held(told, #[trigger] releases[i])
        by {
        if i < k.len() {
            assert(k.contains(k[i]));
        } else {
            assert(b.contains(b[i - k.len()]));
        }
    }
    assert forall|a: HostAction| releases_held(told, a) implies #[trigger] releases.contains(a) by {
        match a {
            HostAction::Key { code, .. } => {
                let i = choose|i: int| 0 <= i < k.len() && k[i] == code;
                assert(releases[i] == a);
            },
            HostAction::PointerButton { button, .. } => {
                let i = choose|i: int| 0 <= i < b.len() && b[i] == button;
                assert(releases[k.len() + i] == a);
            },
            HostAction::PointerMove { .. } => {},
        }
    }
    assert(DeviceState::fresh().releases() =~= Seq::<HostAction>::empty());
}

/// Devices that move one pointer, and where it is.
#[verifier::ext_equal]
pub struct Desk {
    pub devices: Seq<DeviceState>,
    pub spot: Spot,
}

impl Desk {
    /// Device `i` sent an event.
    pub open spec fn fed(self, i: int, ev: InputEvent) -> Desk {
        Desk {
            devices: self.devices.update(i, self.devices[i].after(ev)),
            spot: self.devices[i].spot_after(self.spot, ev),
        }
    }

    /// The devices sent a run of events, each with the number of its device.
    pub open spec fn fed_all(self, run: Seq<(int, InputEvent)>) -> Desk
        decreases run.len(),
    {
        if run.len() == 0 {
            self
        } else {
            self.fed_all(run.drop_last()).fed(run.last().0, run.last().1)
        }
    }

    /// The motion of each report in a run of events, whichever device sent it.
    pub open spec fn reports(self, run: Seq<(int, InputEvent)>) -> Seq<(int, int)>
        decreases run.len(),
    {
        if run.len() == 0 {
            Seq::empty()
        } else {
            let earlier = self.reports(run.drop_last());
            let device = self.fed_all(run.drop_last()).devices[run.last().0];
            if device.moves_pointer(run.last().1) {
                earlier.push(device.pending)
            } else {
                earlier
            }
        }
    }
}

/// Whether an event is one of device `i`.
pub open spec fn is_from(i: int) -> spec_fn((int, InputEvent)) -> bool {
    |sent: (int, InputEvent)| sent.0 == i
}

/// The events of one device in a run of several.
pub open spec fn events_from(run: Seq<(int, InputEvent)>, i: int) -> Seq<(int, InputEvent)> {
    run.filter(is_from(i))
}

/// Where a pointer is after a run of motions.
pub open spec fn after_motions(spot: Spot, motions: Seq<(int, int)>) -> Spot
    decreases motions.len(),
{
    if motions.len() == 0 {
        spot
    } else {
        after_motions(spot, motions.drop_last()).moved(motions.last().0, motions.last().1)
    }
}

/// The states of a list of translators.
pub open spec fn states_of(translators: Seq<Translator>) -> Seq<DeviceState> {
    translators.map_values(|t: Translator| t@)
}

/// The guest has one cursor. Translators fed at one pointer move it as one mouse
/// would that made all their reports in turn: a mouse that reports after another
/// carries on from where that one left it, and tells the guest where it now is,
/// in the one frame they all share. What a device holds and has yet to report
/// depends on its own events alone.
pub proof fn law_mice_share_one_pointer(
    translators: Seq<Translator>,
    spot: Spot,
    run: Seq<(int, InputEvent)>,
)
    requires
        spot.inside(),
        forall|n: int| 0 <= n < run.len() ==> 0 <= (#[trigger] run[n]).0 < translators.len(),
    ensures
        ({
            let desk = Desk { devices: states_of(translators), spot };
            let after = desk.fed_all(run);
            &&& after.spot == after_motions(spot, desk.reports(run))
            &&& after.spot.inside()
            &&& after.spot.width == spot.width
            &&& after.spot.height == spot.height
            &&& after.devices.len() == translators.len()
            &&& forall|i: int|
                0 <= i < translators.len() ==> #[trigger] after.devices[i] == desk.fed_all(
                    events_from(run, i),
                ).devices[i]
            &&& run.len() > 0 ==> {
                let (i, ev) = run.last();
                let before = desk.fed_all(run.drop_last());
                before.devices[i].moves_pointer(ev) ==> before.devices[i].actions(before.spot, ev)
                    == seq![
                    HostAction::PointerMove {
                        x: after.spot.x as u32,
                        y: after.spot.y as u32,
                        width: spot.width as u32,
                        height: spot.height as u32,
                    },
                ]
            }
        }),
    decreases run.len(),
{
    let desk = Desk { devices: states_of(translators), spot };
    reveal(Seq::filter);
    if run.len() == 0 {
        assert forall|i: int| 0 <= i < translators.len() implies #[trigger] desk.fed_all(run).devices[i]
            == desk.fed_all(events_from(run, i)).devices[i] by {
            assert(events_from(run, i) =~= run);
        }
    } else {
        let fewer = run.drop_last();
        let (sender, ev) = run.last();
        assert(run.last() == run[run.len() - 1]);
        assert forall|n: int| 0 <= n < fewer.len() implies 0 <= (#[trigger] fewer[n]).0
            < translators.len() by {
            assert(fewer[n] == run[n]);
        }
        law_mice_share_one_pointer(translators, spot, fewer);
        let before = desk.fed_all(fewer);
        let after = desk.fed_all(run);
        assert forall|i: int| 0 <= i < translators.len() implies #[trigger] after.devices[i]
            == desk.fed_all(events_from(run, i)).devices[i] by {
            let own = events_from(run, i);
            let earlier = events_from(fewer, i);
            assert(before.devices[i] == desk.fed_all(earlier).devices[i]);
            if i == sender {
                assert(own == earlier.push(run.last()));
                assert(own.drop_last() =~= earlier);
                assert(own.last() == run.last());
                lemma_events_from(fewer, i);
                lemma_desk_keeps_devices(desk, earlier);
            } else {
                assert(own == earlier);
            }
        }
        let device = before.devices[sender];
        if device.moves_pointer(ev) {
            let motions = desk.reports(run);
            assert(motions.drop_last() =~= desk.reports(fewer));
            assert(motions.last() == device.pending);
        }
    }
}

proof fn lemma_events_from(run: Seq<(int, InputEvent)>, i: int)
    ensures
        forall|n: int|
            0 <= n < events_from(run, i).len() ==> (#[trigger] events_from(run, i)[n]).0 == i,
{
    broadcast use vstd::seq_lib::group_filter_ensures;

    let from = is_from(i);
    assert forall|n: int| 0 <= n < events_from(run, i).len() implies (#[trigger] events_from(
        run,
        i,
    )[n]).0 == i by {
        assert(from(run.filter(from)[n]));
    }
}

proof fn lemma_desk_keeps_devices(desk: Desk, run: Seq<(int, InputEvent)>)
    requires
        forall|n: int| 0 <= n < run.len() ==> 0 <= (#[trigger] run[n]).0 < desk.devices.len(),
    ensures
        desk.fed_all(run).devices.len() == desk.devices.len(),
    decreases run.len(),
{
    if run.len() > 0 {
        let fewer = run.drop_last();
        assert(forall|n: int| 0 <= n < fewer.len() ==> #[trigger] fewer[n] == run[n]);
        assert(run.last() == run[run.len() - 1]);
        lemma_desk_keeps_devices(desk, fewer);
    }
}

/// The same events, each with the number of the device that sent them all.
pub open spec fn sent_by(i: int, events: Seq<InputEvent>) -> Seq<(int, InputEvent)> {
    events.map_values(|ev: InputEvent| (i, ev))
}

/// A read of one device, fed at the pointer where all the others left it, is
/// that device's events on the desk: the device and the pointer come out as they
/// do there, so the next read, of whichever device, starts from there.
pub proof fn law_a_read_is_fed_on_the_desk(desk: Desk, i: int, events: Seq<InputEvent>)
    requires
        0 <= i < desk.devices.len(),
    ensures
        desk.fed_all(sent_by(i, events)) == (Desk {
            devices: desk.devices.update(i, device_after(desk.devices[i], events)),
            spot: spot_along(desk.devices[i], desk.spot, events),
        }),
    decreases events.len(),
{
    let run = sent_by(i, events);
    if events.len() == 0 {
        assert(desk.devices.update(i, desk.devices[i]) =~= desk.devices);
    } else {
        law_a_read_is_fed_on_the_desk(desk, i, events.drop_last());
        assert(run.drop_last() =~= sent_by(i, events.drop_last()));
        assert(run.last() == (i, events.last()));
        let before = desk.fed_all(run.drop_last());
        assert(desk.fed_all(run).devices =~= desk.devices.update(
            i,
            device_after(desk.devices[i], events),
        ));
    }
}

/// Reports on one shared pointer carry on from one another. Where each event of a
/// device takes the pointer where the one before it left it, because no other
/// device had it in between, the guest is told what it is told of one pointer
/// from its first position on, and that is where the pointer ends up.
pub proof fn law_reports_on_a_shared_pointer_carry_on(
    device: DeviceState,
    events: Seq<InputEvent>,
    spots: Seq<Spot>,
    told: Seq<Seq<HostAction>>,
)
    requires
        spots.len() == events.len() + 1,
        told.len() == events.len(),
        forall|i: int| #![trigger events[i]]
            0 <= i < events.len() ==> {
                let before = device_after(device, events.take(i));
                &&& told[i] == before.actions(spots[i], events[i])
                &&& spots[i + 1] == before.spot_after(spots[i], events[i])
            },
    ensures
        told.flatten() == actions_along(device, spots[0], events),
        spots.last() == spot_along(device, spots[0], events),
    decreases events.len(),
{
    if events.len() == 0 {
        assert(told.flatten() =~= Seq::<HostAction>::empty());
    } else {
        let n = events.len() - 1;
        let fewer = events.drop_last();
        assert(fewer =~= events.take(n));
        assert forall|i: int| #![trigger fewer[i]] 0 <= i < fewer.len() implies {
            let before = device_after(device, fewer.take(i));
            &&& told.drop_last()[i] == before.actions(spots.drop_last()[i], fewer[i])
            &&& spots.drop_last()[i + 1] == before.spot_after(spots.drop_last()[i], fewer[i])
        } by {
            assert(fewer.take(i) =~= events.take(i));
            assert(fewer[i] == events[i]);
        }
        law_reports_on_a_shared_pointer_carry_on(
            device,
            fewer,
            spots.drop_last(),
            told.drop_last(),
        );
        assert(events[n] == events.last());
        told.lemma_flatten_and_flatten_alt_are_equivalent();
        told.drop_last().lemma_flatten_and_flatten_alt_are_equivalent();
        assert(told.flatten() == told.drop_last().flatten() + told.last());
    }
}

/// A report tells the guest where it leaves the pointer, and the next one, of the
/// same device or another, is as far from there as it moved, held inside the
/// frame.
pub proof fn law_the_next_report_starts_where_the_last_was_told(
    first: DeviceState,
    second: DeviceState,
    spot: Spot,
    end: InputEvent,
    next: InputEvent,
)
    requires
        spot.inside(),
        spot.width <= u32::MAX,
        spot.height <= u32::MAX,
        first.moves_pointer(end),
        second.moves_pointer(next),
    ensures
        ({
            let left = first.spot_after(spot, end);
            let (dx, dy) = second.pending;
            &&& left.width == spot.width && left.height == spot.height
            &&& first.actions(spot, end).len() == 1
            &&& first.actions(spot, end)[0] matches HostAction::PointerMove {
                x,
                y,
                width,
                height,
            } && x == left.x && y == left.y && width == spot.width && height == spot.height
            &&& second.actions(left, next).len() == 1
            &&& second.actions(left, next)[0] matches HostAction::PointerMove { x, y, .. } && {
                &&& 0 <= left.x + dx < spot.width ==> x == left.x + dx
                &&& left.x + dx < 0 ==> x == 0
                &&& left.x + dx >= spot.width ==> x == spot.width - 1
                &&& 0 <= left.y + dy < spot.height ==> y == left.y + dy
                &&& left.y + dy < 0 ==> y == 0
                &&& left.y + dy >= spot.height ==> y == spot.height - 1
            }
        }),
{
}

/// Where an event's fields are: its kind in bytes 16 and 17, its code in bytes 18
/// and 19, and its value, signed, in bytes 20 to 23; and a read holds an event for
/// each whole 24 bytes, each from its own.
pub proof fn law_an_event_is_its_bytes(order: ByteOrder, raw: Seq<u8>, i: int)
    requires
        raw.len() >= 24,
    ensures
        ({
            let ev = event_of(ByteOrder::Little, raw);
            let v = raw[20] + 256 * (raw[21] + 256 * (raw[22] + 256 * raw[23]));
            &&& ev.kind == raw[16] + 256 * raw[17]
            &&& ev.code == raw[18] + 256 * raw[19]
            &&& (ev.value - v) % 0x1_0000_0000 == 0
        }),
        ({
            let ev = event_of(ByteOrder::Big, raw);
            let v = raw[23] + 256 * (raw[22] + 256 * (raw[21] + 256 * raw[20]));
            &&& ev.kind == 256 * raw[16] + raw[17]
            &&& ev.code == 256 * raw[18] + raw[19]
            &&& (ev.value - v) % 0x1_0000_0000 == 0
        }),
        24 * events_of(order, raw).len() <= raw.len() < 24 * events_of(order, raw).len() + 24,
        0 <= i < events_of(order, raw).len() ==> events_of(order, raw)[i] == event_of(
            order,
            raw.subrange(24 * i, 24 * i + 24),
        ),
{
    if 0 <= i < events_of(order, raw).len() {
        let own = raw.subrange(24 * i, 24 * i + 24);
        let from = raw.skip(24 * i);
        assert(forall|at: int, k: int|
            0 <= at && 0 <= k && at + k < 24 ==> #[trigger] own.skip(at)[k] == from.skip(at)[k]);
    }
}

/// A keyboard has the bits of A and Enter among its keys, which are bits 6 and 4
/// of byte 3; any other device that has the bit of the left button, the lowest of
/// byte 34, and both of the axes X and Y, the lowest two of the first byte, is a
/// mouse; and nothing else is either.
pub proof fn law_devices_are_told_by_their_bits(keys: Seq<u8>, rels: Seq<u8>)
    ensures
        ({
            let typed = keys.len() > 3 && keys[3] & 0x50 == 0x50;
            let pointed = keys.len() > 34 && keys[34] & 1 == 1 && rels.len() > 0 && rels[0] & 3 == 3;
            kind_of(keys, rels) == if typed {
                Kind::Keyboard
            } else if pointed {
                Kind::Mouse
            } else {
                Kind::Other
            }
        }),
{
    let (k, b, r) = (keys[3], keys[34], rels[0]);
    assert(1u8 << 6u16 == 64u8 && 1u8 << 4u16 == 16u8 && 1u8 << 0u16 == 1u8 && 1u8 << 1u16 == 2u8)
        by (bit_vector);
    assert((k & 64 != 0 && k & 16 != 0) == (k & 0x50 == 0x50)) by (bit_vector);
    assert((b & 1 != 0) == (b & 1 == 1)) by (bit_vector);
    assert((r & 1 != 0 && r & 2 != 0) == (r & 3 == 3)) by (bit_vector);
}

/// Five codes are buttons, and no other is.
pub proof fn law_buttons_are_five_codes(code: u16)
    ensures
        button_of(272) == Some(ReimsVgpuButton::Left),
        button_of(273) == Some(ReimsVgpuButton::Right),
        button_of(274) == Some(ReimsVgpuButton::Middle),
        button_of(275) == Some(ReimsVgpuButton::Side),
        button_of(276) == Some(ReimsVgpuButton::Extra),
        code < 272 || code > 276 ==> button_of(code) is None,
{
}

/// The event of a key or button that went down or up.
pub open spec fn key_event(code: u16, down: bool) -> InputEvent {
    InputEvent { kind: 1, code, value: if down { 1 } else { 0 } }
}

/// A button that changes is told, as itself, and one that does not says nothing;
/// nothing else of the device changes.
pub proof fn law_a_button_is_told_as_itself(
    device: DeviceState,
    spot: Spot,
    code: u16,
    button: ReimsVgpuButton,
    down: bool,
)
    requires
        device.valid(),
        button_of(code) == Some(button),
    ensures
        ({
            let ev = key_event(code, down);
            let after = device.after(ev);
            &&& device.buttons.contains(button) == down ==> device.actions(spot, ev).len() == 0
                && after == device
            &&& device.buttons.contains(button) != down ==> device.actions(spot, ev) == seq![
                HostAction::PointerButton { button, down },
            ]
            &&& after.buttons.contains(button) == down
            &&& forall|other: ReimsVgpuButton|
                other != button ==> (#[trigger] after.buttons.contains(other)
                    <==> device.buttons.contains(other))
            &&& after.keys == device.keys && after.pending == device.pending && after.moved
                == device.moved
            &&& device.spot_after(spot, ev) == spot
        }),
{
    lemma_without_contains(device.buttons, button);
    lemma_push_distinct(device.buttons, button);
}

/// Any other key goes through the keyboard, as the code it has, unless it is one
/// of the codes 256 to 351, which belong to no keyboard; nothing else of the
/// device changes.
pub proof fn law_a_key_goes_through_the_keyboard(
    device: DeviceState,
    spot: Spot,
    code: u16,
    down: bool,
)
    requires
        code < 256 || code >= 352,
    ensures
        ({
            let ev = key_event(code, down);
            let after = device.after(ev);
            &&& device.actions(spot, ev) == key_actions(device.keys, code as u32, down)
            &&& after.keys == held_after(device.keys, code as u32, down)
            &&& after.buttons == device.buttons && after.pending == device.pending && after.moved
                == device.moved
            &&& device.spot_after(spot, ev) == spot
        }),
{
}

/// Each notch of a wheel is a press and a release of the button of its direction:
/// up and right for positive values, down and left for negative ones. Nothing
/// else changes.
pub proof fn law_a_notch_is_a_press_and_a_release(
    device: DeviceState,
    spot: Spot,
    code: u16,
    value: i32,
    i: int,
)
    requires
        code == 8 || code == 6,
    ensures
        ({
            let ev = InputEvent { kind: 2, code, value };
            let notches = if value < 0 { -value } else { value as int };
            let button = if code == 8 {
                if value > 0 { ReimsVgpuButton::WheelUp } else { ReimsVgpuButton::WheelDown }
            } else {
                if value > 0 { ReimsVgpuButton::WheelRight } else { ReimsVgpuButton::WheelLeft }
            };
            &&& device.actions(spot, ev).len() == 2 * notches
            &&& 0 <= i < notches ==> {
                &&& device.actions(spot, ev)[2 * i] == (HostAction::PointerButton {
                    button,
                    down: true,
                })
                &&& device.actions(spot, ev)[2 * i + 1] == (HostAction::PointerButton {
                    button,
                    down: false,
                })
            }
            &&& device.after(ev) == device
            &&& device.spot_after(spot, ev) == spot
        }),
{
}

/// Motion along one axis adds to what is pending along it and to nothing else,
/// and stays at the last value that 32 bits hold where it would go past it.
pub proof fn law_motion_adds_up(device: DeviceState, code: u16, value: i32)
    requires
        code == 0 || code == 1,
        fits(device.pending),
    ensures
        ({
            let after = device.after(InputEvent { kind: 2, code, value });
            let (was, is, kept, other) = if code == 0 {
                (device.pending.0, after.pending.0, device.pending.1, after.pending.1)
            } else {
                (device.pending.1, after.pending.1, device.pending.0, after.pending.0)
            };
            &&& after.moved
            &&& kept == other
            &&& -0x8000_0000 <= was + value < 0x8000_0000 ==> is == was + value
            &&& was + value >= 0x8000_0000 ==> is == 0x7fff_ffff
            &&& was + value < -0x8000_0000 ==> is == -0x8000_0000
            &&& after.keys == device.keys && after.buttons == device.buttons
        }),
{
}

/// A key code of 256 to 351 that is no button says nothing and changes nothing,
/// and neither does a key that repeats.
pub proof fn law_other_buttons_and_repeats_say_nothing(
    device: DeviceState,
    spot: Spot,
    code: u16,
    value: i32,
)
    requires
        (256 <= code < 272 || 276 < code < 352) || (value != 0 && value != 1),
    ensures
        ({
            let ev = InputEvent { kind: 1, code, value };
            &&& device.actions(spot, ev).len() == 0
            &&& device.after(ev) == device
            &&& device.spot_after(spot, ev) == spot
        }),
{
}

} // verus!
