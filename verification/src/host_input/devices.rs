//! Which evdev devices are taken, and what becomes of their reads.
//!
//! The watcher scans `/dev/input/event*` and then follows `/dev/input` with
//! inotify, without udev: a new node is tried when it is created and again when
//! its attributes change, which is when udev has set its permissions. Each
//! keyboard or mouse gets `EVIOCGRAB` and a reader of its own; a device that
//! disappears has every key and button it held released in the guest.

use vstd::multiset::*;
use vstd::prelude::*;
use vstd::string::*;
use vstd::utf8::*;

use crate::bytes::{is_native, native_order, u32_at, u32_of, ByteOrder};
use crate::host_display::select::text_of;
use crate::host_input::evdev::{classify, kind_of, DeviceState, Kind, Translator};
use crate::runtime::host::HostAction;
use crate::text::{
    in_order, lemma_order_total, lemma_order_transitive, position_of, same_text, starts_with,
    text_in_order, text_of_bytes, text_until_nul, texts, until_nul,
};

verus! {

/// Where the device nodes are.
pub const INPUT_DIR: &'static str = "/dev/input";

/// `_IOW('E', 0x90, int)`.
pub const EVIOCGRAB: u64 = 0x4004_4590;

/// Bytes of the `EV_KEY` bitmap (`KEY_MAX` 0x2ff).
pub const KEY_BITS: usize = 96;

/// Bytes of the `EV_REL` bitmap (`REL_MAX` 0x0f).
pub const REL_BITS: usize = 2;

/// `IN_CREATE` of the Linux kernel.
pub const IN_CREATE: u32 = 0x100;

/// Reads the constant `libc::IN_CREATE`, which is 0x100 on every system whose
/// `libc` has it.
#[verifier::external_body]
fn create_bit() -> (bit: u32)
    ensures
        bit == IN_CREATE,
{
    libc::IN_CREATE
}

/// Size of `struct inotify_event` before its name.
pub const INOTIFY_HEADER: usize = 16;

/// `_IOC(_IOC_READ, 'E', nr, len)`.
pub open spec fn read_request(nr: int, len: int) -> int {
    0x8000_0000 + len * 0x1_0000 + 0x4500 + nr
}

/// `EVIOCGBIT(ev, len)`: `_IOC(_IOC_READ, 'E', 0x20 + ev, len)`.
pub fn eviocgbit(ev: u32, len: usize) -> (request: u64)
    ensures
        request == 0x8000_4520u64 | ((len as u64) << 16) | ev as u64,
        ev < 0x20 && len < 0x4000 ==> request == read_request(0x20 + ev, len as int),
{
    let (e, l): (u64, u64) = (ev as u64, len as u64);
    assert(e < 0x20 && l < 0x4000 ==> 0x8000_4520u64 | (l << 16) | e == 0x8000_4520u64 + l * 0x1_0000
        + e) by (bit_vector);
    0x8000_4520 | (l << 16) | e
}

/// `EVIOCGNAME(len)`: `_IOC(_IOC_READ, 'E', 0x06, len)`.
pub fn eviocgname(len: usize) -> (request: u64)
    ensures
        request == 0x8000_4506u64 | ((len as u64) << 16),
        len < 0x4000 ==> request == read_request(0x06, len as int),
{
    let l: u64 = len as u64;
    assert(l < 0x4000 ==> 0x8000_4506u64 | (l << 16) == 0x8000_4506u64 + l * 0x1_0000)
        by (bit_vector);
    0x8000_4506 | (l << 16)
}

/// Whether a name in [`INPUT_DIR`] is an event node's.
pub open spec fn names_event_node(name: Seq<char>) -> bool {
    "event"@.is_prefix_of(name)
}

/// Whether a name in [`INPUT_DIR`] is an event node's.
pub fn is_event_node(name: &str) -> (node: bool)
    ensures
        node == names_event_node(name@),
{
    starts_with(name, "event")
}

/// The path of a node in [`INPUT_DIR`].
pub fn node_path(name: &str) -> (path: String)
    ensures
        path@ == "/dev/input/"@ + name@,
{
    "/dev/input/".to_owned().concat(name)
}

/// The event nodes among the entries of a directory.
pub open spec fn event_names(entries: Seq<String>) -> Seq<Seq<char>>
    decreases entries.len(),
{
    if entries.len() == 0 {
        Seq::empty()
    } else if names_event_node(entries.last()@) {
        event_names(entries.drop_last()).push(entries.last()@)
    } else {
        event_names(entries.drop_last())
    }
}

/// Whether no text comes before the one ahead of it, byte by byte.
pub open spec fn sorted(list: Seq<String>) -> bool {
    forall|i: int, j: int|
        0 <= i <= j < list.len() ==> in_order(
            encode_utf8(#[trigger] list[i]@),
            encode_utf8(#[trigger] list[j]@),
        )
}

fn insert_in_order(list: &mut Vec<String>, name: String)
    requires
        sorted(old(list)@),
    ensures
        sorted(final(list)@),
        texts(final(list)@).to_multiset() == texts(old(list)@).to_multiset().insert(name@),
{
    let ghost before = list@;
    let mut at: usize = list.len();
    while at > 0 && !text_in_order(list[at - 1].as_str(), name.as_str())
        invariant
            at <= list@.len(),
            list@ == before,
            sorted(before),
            forall|k: int|
                at <= k < list@.len() ==> in_order(
                    encode_utf8(name@),
                    encode_utf8(#[trigger] list@[k]@),
                ),
        ensures
            at <= list@.len(),
            at > 0 ==> in_order(encode_utf8(list@[at - 1]@), encode_utf8(name@)),
            forall|k: int|
                at <= k < list@.len() ==> in_order(
                    encode_utf8(name@),
                    encode_utf8(#[trigger] list@[k]@),
                ),
        decreases at,
    {
        proof {
            lemma_order_total(encode_utf8(list@[at - 1]@), encode_utf8(name@));
        }
        at -= 1;
    }
    let ghost text = name@;
    list.insert(at, name);
    proof {
        let after = list@;
        assert forall|i: int, j: int| 0 <= i <= j < after.len() implies in_order(
            encode_utf8(#[trigger] after[i]@),
            encode_utf8(#[trigger] after[j]@),
        ) by {
            let (p, q) = (encode_utf8(after[i]@), encode_utf8(after[j]@));
            if i == j {
                lemma_order_total(p, q);
            } else if j < at {
                assert(after[i] == before[i] && after[j] == before[j]);
            } else if j == at {
                assert(after[i] == before[i]);
                let last = encode_utf8(before[at - 1]@);
                assert(in_order(p, last));
                lemma_order_transitive(p, last, q);
            } else if i == at {
                assert(after[j] == before[j - 1]);
            } else {
                assert(after[j] == before[j - 1]);
                if i > at {
                    assert(after[i] == before[i - 1]);
                } else {
                    assert(after[i] == before[i]);
                }
            }
        }
        assert(texts(after) =~= texts(before).insert(at as int, text));
        vstd::seq_lib::to_multiset_insert(texts(before), at as int, text);
    }
}

/// The event nodes among the entries of [`INPUT_DIR`], sorted.
pub fn event_nodes(entries: &Vec<String>) -> (nodes: Vec<String>)
    ensures
        sorted(nodes@),
        texts(nodes@).to_multiset() == event_names(entries@).to_multiset(),
{
    let mut nodes: Vec<String> = Vec::new();
    let mut i: usize = 0;
    assert(entries@.take(0) =~= Seq::<String>::empty());
    assert(texts(nodes@) =~= event_names(entries@.take(0)));
    while i < entries.len()
        invariant
            i <= entries@.len(),
            sorted(nodes@),
            texts(nodes@).to_multiset() == event_names(entries@.take(i as int)).to_multiset(),
        decreases entries@.len() - i,
    {
        proof {
            let next = entries@.take(i + 1);
            assert(next.drop_last() =~= entries@.take(i as int));
            assert(next.last() == entries@[i as int]);
            vstd::seq_lib::to_multiset_build(
                event_names(entries@.take(i as int)),
                entries@[i as int]@,
            );
        }
        if is_event_node(entries[i].as_str()) {
            insert_in_order(&mut nodes, entries[i].clone());
        }
        i += 1;
    }
    assert(entries@.take(i as int) =~= entries@);
    nodes
}

/// A node of [`INPUT_DIR`] that appeared or changed.
#[derive(Clone, Debug, PartialEq, Eq)]
pub struct NodeEvent {
    pub name: String,
    /// The node was just created: udev has yet to set its permissions.
    pub created: bool,
}

/// The names and marks of a list of events.
pub open spec fn marks(events: Seq<NodeEvent>) -> Seq<(Seq<char>, bool)> {
    events.map_values(|e: NodeEvent| (e.name@, e.created))
}

/// The least of two numbers.
pub open spec fn least(a: int, b: int) -> int {
    if a < b {
        a
    } else {
        b
    }
}

/// The events in a buffer of `struct inotify_event`, read in `order`: the name
/// of each up to its padding, and whether its mask has [`IN_CREATE`]. A name
/// that the buffer cuts short ends with it.
pub open spec fn inotify_of(order: ByteOrder, raw: Seq<u8>) -> Seq<(Seq<char>, bool)>
    decreases raw.len(),
{
    if raw.len() < INOTIFY_HEADER {
        Seq::empty()
    } else {
        let mask = u32_of(order, raw.skip(4));
        let len = u32_of(order, raw.skip(12));
        let end = least(16 + len, raw.len() as int);
        seq![(text_of_bytes(until_nul(raw.subrange(16, end))), (mask / 0x100) % 2 == 1)] + inotify_of(
            order,
            raw.skip(if end < 16 {
                16
            } else {
                end
            }),
        )
    }
}

/// Decode the events a read of an inotify descriptor returned, in the machine's
/// byte order.
pub fn read_inotify(raw: &[u8]) -> (events: Vec<NodeEvent>)
    ensures
        exists|order: ByteOrder|
            is_native(order) && marks(events@) == #[trigger] inotify_of(order, raw@),
{
    read_inotify_in(native_order(), raw)
}

/// [`read_inotify`], read in `order`.
pub fn read_inotify_in(order: ByteOrder, raw: &[u8]) -> (events: Vec<NodeEvent>)
    ensures
        marks(events@) == inotify_of(order, raw@),
{
    let mut events: Vec<NodeEvent> = Vec::new();
    let mut at: usize = 0;
    assert(raw@.skip(0) =~= raw@);
    assert(marks(events@) =~= Seq::<(Seq<char>, bool)>::empty());
    while raw.len() - at >= INOTIFY_HEADER
        invariant
            at <= raw@.len(),
            inotify_of(order, raw@) =~= marks(events@) + inotify_of(order, raw@.skip(at as int)),
        decreases raw@.len() - at,
    {
        let ghost here = raw@.skip(at as int);
        proof {
            assert(here.skip(4) =~= raw@.skip(at + 4));
            assert(here.skip(12) =~= raw@.skip(at + 12));
        }
        let mask: u32 = u32_at(order, raw, at + 4);
        let len: u32 = u32_at(order, raw, at + 12);
        let room: usize = raw.len() - at - INOTIFY_HEADER;
        let from: usize = at + INOTIFY_HEADER;
        let to: usize = if len as u64 > room as u64 { raw.len() } else { from + len as usize };
        let name: String = text_until_nul(raw, from, to);
        let created: bool = mask & create_bit() != 0;
        proof {
            assert((mask & 0x100 != 0) == ((mask / 0x100) % 2 == 1)) by (bit_vector);
            let end = to - at;
            assert(end == least(16 + len, here.len() as int));
            assert(here.subrange(16, end) =~= raw@.subrange(from as int, to as int));
            assert(here.skip(end) =~= raw@.skip(to as int));
        }
        let ghost earlier = marks(events@);
        events.push(NodeEvent { name, created });
        assert(marks(events@) =~= earlier.push((name@, created)));
        at = to;
    }
    assert(inotify_of(order, raw@.skip(at as int)) =~= Seq::<(Seq<char>, bool)>::empty());
    events
}

/// A record of the kernel comes out as its name and mark, and the records after
/// it as they would alone.
pub proof fn law_each_record_is_read(
    order: ByteOrder,
    header: Seq<u8>,
    name: Seq<u8>,
    padding: Seq<u8>,
    rest: Seq<u8>,
)
    requires
        header.len() == INOTIFY_HEADER,
        u32_of(order, header.skip(12)) == name.len() + padding.len(),
        forall|i: int| 0 <= i < name.len() ==> #[trigger] name[i] != 0,
        forall|i: int| 0 <= i < padding.len() ==> #[trigger] padding[i] == 0,
    ensures
        inotify_of(order, header + name + padding + rest) == seq![
            (text_of_bytes(name), (u32_of(order, header.skip(4)) / 0x100) % 2 == 1),
        ] + inotify_of(order, rest),
{
    let raw = header + name + padding + rest;
    let end = 16 + name.len() + padding.len();
    assert(forall|i: int| 0 <= i < 16 ==> raw[i] == header[i]);
    assert(u32_of(order, raw.skip(4)) == u32_of(order, header.skip(4)));
    assert(u32_of(order, raw.skip(12)) == u32_of(order, header.skip(12)));
    let field = raw.subrange(16, end as int);
    assert(field =~= name + padding);
    assert(raw.skip(end as int) =~= rest);
    let nul = crate::text::is_nul();
    if padding.len() > 0 {
        assert(field[name.len() as int] == padding[0]);
        assert forall|j: int| 0 <= j < name.len() implies !nul(#[trigger] field[j]) by {
            assert(field[j] == name[j]);
        }
        crate::seqs::lemma_first_found(field, nul, name.len() as int);
        assert(field.take(name.len() as int) =~= name);
    } else {
        assert(field =~= name);
        assert forall|j: int| 0 <= j < field.len() implies !nul(#[trigger] field[j]) by {
            assert(field[j] == name[j]);
        }
        crate::seqs::lemma_first_missing(field, nul);
    }
    assert(until_nul(field) == name);
}

/// The events about event nodes, in order.
pub open spec fn node_marks(events: Seq<(Seq<char>, bool)>) -> Seq<(Seq<char>, bool)>
    decreases events.len(),
{
    if events.len() == 0 {
        Seq::empty()
    } else if names_event_node(events.last().0) {
        node_marks(events.drop_last()).push(events.last())
    } else {
        node_marks(events.drop_last())
    }
}

/// The events about event nodes, each of which is worth a try.
pub fn node_events(events: &Vec<NodeEvent>) -> (nodes: Vec<NodeEvent>)
    ensures
        marks(nodes@) == node_marks(marks(events@)),
{
    let mut nodes: Vec<NodeEvent> = Vec::new();
    let mut i: usize = 0;
    let ghost all = marks(events@);
    assert(marks(nodes@) =~= node_marks(all.take(0)));
    while i < events.len()
        invariant
            i <= events@.len(),
            all == marks(events@),
            marks(nodes@) == node_marks(all.take(i as int)),
        decreases events@.len() - i,
    {
        proof {
            let next = all.take(i + 1);
            assert(next.drop_last() =~= all.take(i as int));
            assert(next.last() == (events@[i as int].name@, events@[i as int].created));
        }
        if is_event_node(events[i].name.as_str()) {
            let ghost earlier = marks(nodes@);
            nodes.push(NodeEvent { name: events[i].name.clone(), created: events[i].created });
            assert(marks(nodes@) =~= earlier.push(all[i as int]));
        }
        i += 1;
    }
    assert(all.take(i as int) =~= all);
    nodes
}

/// The name a device gave itself: the text before the first NUL of what
/// `EVIOCGNAME` filled in, or nothing where it did not answer.
pub fn device_name(answer: Option<&[u8]>) -> (name: String)
    ensures
        match answer {
            Some(raw) => name@ == text_of_bytes(until_nul(raw@)),
            None => name@ == Seq::<char>::empty(),
        },
{
    match answer {
        Some(raw) => {
            assert(raw@.subrange(0, raw@.len() as int) =~= raw@);
            text_until_nul(raw, 0, raw.len())
        },
        None => String::new(),
    }
}

/// The devices that are being read, by path.
pub struct Attached {
    paths: Vec<String>,
}

impl View for Attached {
    type V = Set<Seq<char>>;

    closed spec fn view(&self) -> Set<Seq<char>> {
        Set::new(|path: Seq<char>| texts(self.paths@).contains(path))
    }
}

impl Attached {
    #[verifier::type_invariant]
    closed spec fn distinct(self) -> bool {
        texts(self.paths@).no_duplicates()
    }

    /// No device.
    pub fn new() -> (attached: Attached)
        ensures
            attached@ == Set::<Seq<char>>::empty(),
    {
        let attached = Attached { paths: Vec::new() };
        assert(attached@ =~= Set::<Seq<char>>::empty());
        attached
    }

    /// Whether there is no device.
    pub fn is_empty(&self) -> (empty: bool)
        ensures
            empty == (self@ == Set::<Seq<char>>::empty()),
    {
        let empty: bool = self.paths.len() == 0;
        proof {
            if empty {
                assert(self@ =~= Set::<Seq<char>>::empty());
            } else {
                assert(texts(self.paths@)[0] == self.paths@[0]@);
                assert(self@.contains(self.paths@[0]@));
            }
        }
        empty
    }

    /// Whether a device is being read.
    pub fn contains(&self, path: &str) -> (contained: bool)
        ensures
            contained == self@.contains(path@),
    {
        position_of(&self.paths, path).is_some()
    }

    /// A device is being read.
    pub fn insert(&mut self, path: &str)
        ensures
            final(self)@ == old(self)@.insert(path@),
    {
        proof {
            use_type_invariant(&*self);
        }
        if self.contains(path) {
            assert(self@ =~= old(self)@.insert(path@));
            return ;
        }
        let mut paths: Vec<String> = Vec::new();
        std::mem::swap(&mut self.paths, &mut paths);
        let ghost before = texts(paths@);
        paths.push(path.to_owned());
        proof {
            assert(texts(paths@) =~= before.push(path@));
            crate::seqs::lemma_push_distinct(before, path@);
        }
        self.paths = paths;
        assert(self@ =~= old(self)@.insert(path@));
    }

    /// A device is no longer read.
    pub fn remove(&mut self, path: &str)
        ensures
            final(self)@ == old(self)@.remove(path@),
    {
        proof {
            use_type_invariant(&*self);
        }
        if let Some(at) = position_of(&self.paths, path) {
            let mut paths: Vec<String> = Vec::new();
            std::mem::swap(&mut self.paths, &mut paths);
            let ghost before = texts(paths@);
            let gone: String = paths.remove(at);
            proof {
                let after = texts(paths@);
                assert(after =~= before.remove(at as int));
                assert forall|p: Seq<char>| #[trigger]
                    after.contains(p) <==> before.contains(p) && p != path@ by {
                    if after.contains(p) {
                        let k = choose|k: int| 0 <= k < after.len() && after[k] == p;
                        if k < at {
                            assert(before[k] == p);
                            assert(before[k] != before[at as int]);
                        } else {
                            assert(before[k + 1] == p);
                            assert(before[k + 1] != before[at as int]);
                        }
                    }
                    if before.contains(p) && p != path@ {
                        let k = choose|k: int| 0 <= k < before.len() && before[k] == p;
                        if k < at {
                            assert(after[k] == p);
                        } else {
                            assert(after[k - 1] == p);
                        }
                    }
                }
                assert(after.no_duplicates()) by {
                    assert forall|i: int, j: int|
                        0 <= i < after.len() && 0 <= j < after.len() && i != j implies after[i]
                        != after[j] by {
                        let p = if i < at { i } else { i + 1 };
                        let q = if j < at { j } else { j + 1 };
                        assert(after[i] == before[p] && after[j] == before[q]);
                    }
                }
            }
            self.paths = paths;
        }
        assert(self@ =~= old(self)@.remove(path@));
    }
}

/// What trying a node does next.
#[derive(Clone, Copy, Debug, PartialEq, Eq, Structural)]
pub enum Trying {
    /// Open the node.
    Opening,
    /// Ask the device for its name.
    Naming,
    /// Ask the device what it can send.
    Probing,
    /// Grab the device.
    Grabbing(Kind),
}

/// What came of it.
#[derive(Clone, Debug)]
pub enum TryEvent {
    /// Whether the node opened.
    Opened(bool),
    /// The device's name.
    Named(String),
    /// The `EV_KEY` and `EV_REL` bitmaps.
    Probed(Vec<u8>, Vec<u8>),
    /// Whether the grab was granted.
    Grabbed(bool),
}

/// Where one event leads.
#[derive(Clone, Copy, Debug, PartialEq, Eq, Structural)]
pub enum TryStep {
    Next(Trying),
    /// Leave the node alone: it is being read, is not ours yet, or is no device
    /// for us. A change of its attributes brings it back.
    Skip,
    /// The grab was refused.
    Refused,
    /// Read the device from now on.
    Read(Kind),
}

/// Where an event leads, with only devices called `only` wanted where that is
/// set. An event that is not waited for changes nothing.
pub open spec fn try_step(only: Option<Seq<char>>, at: Trying, event: TryEvent) -> TryStep {
    match (at, event) {
        (Trying::Opening, TryEvent::Opened(opened)) => if opened {
            TryStep::Next(Trying::Naming)
        } else {
            TryStep::Skip
        },
        (Trying::Naming, TryEvent::Named(name)) => if only is Some && only != Some(name@) {
            TryStep::Skip
        } else {
            TryStep::Next(Trying::Probing)
        },
        (Trying::Probing, TryEvent::Probed(keys, rels)) => if kind_of(keys@, rels@) == Kind::Other {
            TryStep::Skip
        } else {
            TryStep::Next(Trying::Grabbing(kind_of(keys@, rels@)))
        },
        (Trying::Grabbing(kind), TryEvent::Grabbed(granted)) => if granted {
            TryStep::Read(kind)
        } else {
            TryStep::Refused
        },
        _ => TryStep::Next(at),
    }
}

/// Begin trying a node, unless it is being read.
pub fn try_node(attached: &Attached, path: &str) -> (step: TryStep)
    ensures
        step == if attached@.contains(path@) {
            TryStep::Skip
        } else {
            TryStep::Next(Trying::Opening)
        },
{
    if attached.contains(path) {
        TryStep::Skip
    } else {
        TryStep::Next(Trying::Opening)
    }
}

/// Try the node at `path` one step further. A device that was grabbed is
/// attached.
pub fn try_attach(
    attached: &mut Attached,
    path: &str,
    only: &Option<String>,
    at: Trying,
    event: TryEvent,
) -> (step: TryStep)
    ensures
        step == try_step(text_of(*only), at, event),
        final(attached)@ == if step is Read {
            old(attached)@.insert(path@)
        } else {
            old(attached)@
        },
{
    match (at, event) {
        (Trying::Opening, TryEvent::Opened(opened)) => if opened {
            TryStep::Next(Trying::Naming)
        } else {
            TryStep::Skip
        },
        (Trying::Naming, TryEvent::Named(name)) => {
            let unwanted: bool = match only {
                Some(only) => !same_text(only.as_str(), name.as_str()),
                None => false,
            };
            if unwanted {
                TryStep::Skip
            } else {
                TryStep::Next(Trying::Probing)
            }
        },
        (Trying::Probing, TryEvent::Probed(keys, rels)) => {
            let kind: Kind = classify(keys.as_slice(), rels.as_slice());
            if kind == Kind::Other {
                TryStep::Skip
            } else {
                TryStep::Next(Trying::Grabbing(kind))
            }
        },
        (Trying::Grabbing(kind), TryEvent::Grabbed(granted)) => if granted {
            attached.insert(path);
            TryStep::Read(kind)
        } else {
            TryStep::Refused
        },
        (at, _) => TryStep::Next(at),
    }
}

/// Whether to warn that there is nothing to read: every device was wanted, and
/// none is attached.
pub fn finds_nothing(only: &Option<String>, attached: &Attached) -> (nothing: bool)
    ensures
        nothing == (only is None && attached@ == Set::<Seq<char>>::empty()),
{
    only.is_none() && attached.is_empty()
}

/// Whether `states` is the way trying a node goes through `events`.
pub open spec fn is_try(
    only: Option<Seq<char>>,
    events: Seq<TryEvent>,
    states: Seq<Trying>,
) -> bool {
    &&& states.len() == events.len() + 1
    &&& states[0] == Trying::Opening
    &&& forall|i: int|
        0 <= i < events.len() ==> try_step(only, states[i], #[trigger] events[i]) == TryStep::Next(
            states[i + 1],
        )
}

/// Only a keyboard or a mouse is grabbed, by what it says it can send, and only
/// one of the wanted name where one is wanted.
pub proof fn law_only_wanted_devices_are_grabbed(
    only: Option<Seq<char>>,
    events: Seq<TryEvent>,
    states: Seq<Trying>,
)
    requires
        is_try(only, events, states),
    ensures
        states.last() is Probing || states.last() is Grabbing ==> only is Some ==> exists|i: int|
            0 <= i < events.len() && (#[trigger] events[i] matches TryEvent::Named(name) && only
                == Some(name@)),
        states.last() matches Trying::Grabbing(kind) ==> {
            &&& kind != Kind::Other
            &&& exists|i: int|
                0 <= i < events.len() && (#[trigger] events[i] matches TryEvent::Probed(keys, rels)
                    && kind == kind_of(keys@, rels@))
        },
    decreases events.len(),
{
    if events.len() > 0 {
        let fewer = events.drop_last();
        let before = states.drop_last();
        let n = fewer.len() as int;
        assert(before.last() == states[n]);
        assert(try_step(only, states[n], events[n]) == TryStep::Next(states[n + 1]));
        assert forall|i: int| 0 <= i < fewer.len() implies try_step(
            only,
            before[i],
            #[trigger] fewer[i],
        ) == TryStep::Next(before[i + 1]) by {
            assert(fewer[i] == events[i]);
        }
        law_only_wanted_devices_are_grabbed(only, fewer, before);
        if exists|i: int|
            0 <= i < fewer.len() && (#[trigger] fewer[i] matches TryEvent::Named(name) && only
                == Some(name@)) {
            let i = choose|i: int|
                0 <= i < fewer.len() && (#[trigger] fewer[i] matches TryEvent::Named(name) && only
                    == Some(name@));
            assert(events[i] == fewer[i]);
        }
        if let Trying::Grabbing(kind) = states.last() {
            if before.last() == Trying::Grabbing(kind) {
                let i = choose|i: int|
                    0 <= i < fewer.len() && (#[trigger] fewer[i] matches TryEvent::Probed(
                        keys,
                        rels,
                    ) && kind == kind_of(keys@, rels@));
                assert(events[i] == fewer[i]);
            }
        }
    }
}

/// What a read of a device returned.
#[derive(Clone, Copy, Debug, PartialEq, Eq, Structural)]
pub enum ReadOutcome {
    /// This many bytes.
    Bytes(usize),
    WouldBlock,
    Interrupted,
    Failed,
}

/// What a reader does after a read.
#[derive(Clone, Copy, Debug, PartialEq, Eq, Structural)]
pub enum ReaderStep {
    /// Feed the first bytes of the buffer.
    Feed(usize),
    /// Read again when there is something.
    Wait,
    /// The device is gone.
    Lost,
}

/// What a read leads to: no bytes, and any error but a deferred or interrupted
/// read, are as good as unplugged.
pub fn after_read(outcome: ReadOutcome) -> (step: ReaderStep)
    ensures
        step == match outcome {
            ReadOutcome::Bytes(n) => if n == 0 {
                ReaderStep::Lost
            } else {
                ReaderStep::Feed(n)
            },
            ReadOutcome::WouldBlock => ReaderStep::Wait,
            ReadOutcome::Interrupted => ReaderStep::Wait,
            ReadOutcome::Failed => ReaderStep::Lost,
        },
{
    match outcome {
        ReadOutcome::Bytes(n) => if n == 0 {
            ReaderStep::Lost
        } else {
            ReaderStep::Feed(n)
        },
        ReadOutcome::WouldBlock => ReaderStep::Wait,
        ReadOutcome::Interrupted => ReaderStep::Wait,
        ReadOutcome::Failed => ReaderStep::Lost,
    }
}

/// What a reader leaves behind.
#[derive(Debug)]
pub struct Farewell {
    /// The last guest input.
    pub actions: Vec<HostAction>,
    /// Give the device back to the system.
    pub ungrab: bool,
}

/// A reader ends, because its device is gone or because it was told to stop. A
/// lost device has what it held released; a device that is still there is given
/// back. Only once both are done does it leave [`Attached`], so that nothing
/// tries it before.
pub fn finish(translator: &mut Translator, lost: bool) -> (farewell: Farewell)
    ensures
        farewell.ungrab == !lost,
        farewell.actions@ == if lost {
            old(translator)@.releases()
        } else {
            Seq::empty()
        },
        final(translator)@ == if lost {
            DeviceState::fresh()
        } else {
            old(translator)@
        },
        final(translator).shared() == old(translator).shared(),
        final(translator).own() == old(translator).own(),
{
    let actions: Vec<HostAction> = if lost {
        translator.lost()
    } else {
        Vec::new()
    };
    Farewell { actions, ungrab: !lost }
}

/// What the watcher does next.
#[derive(Clone, Debug, PartialEq, Eq)]
pub enum Watch {
    /// Begin to follow [`INPUT_DIR`], before the scan, so that a device added in
    /// between is not missed.
    Follow,
    /// List the entries of [`INPUT_DIR`].
    Scan,
    /// Try these nodes, in order.
    TryScanned(Vec<String>),
    /// Warn where there is nothing to read.
    Survey,
    /// Look whether to stop.
    Check,
    /// Wait for [`INPUT_DIR`] to change.
    Wait,
    /// Wait where it cannot be followed.
    Sleep,
    /// Read what changed.
    Read,
    /// Try these nodes, in order, each that was just created after a moment.
    TryChanged(Vec<NodeEvent>),
    /// Join every reader.
    Join,
    /// Nothing: the watcher has ended.
    End,
}

/// What came of it.
#[derive(Clone, Debug, PartialEq, Eq)]
pub enum WatchEvent {
    /// It is done.
    Done,
    /// Whether [`INPUT_DIR`] is being followed.
    Following(bool),
    /// The entries of [`INPUT_DIR`].
    Listed(Vec<String>),
    /// Whether to stop.
    Stop(bool),
    /// Whether there is something to read.
    Readable(bool),
    /// What changed.
    Changed(Vec<NodeEvent>),
}

/// Whether an event answers what the watcher did.
pub open spec fn answers_watch(at: Watch, event: WatchEvent) -> bool {
    match at {
        Watch::Follow => event is Following,
        Watch::Scan => event is Listed,
        Watch::Check => event is Stop,
        Watch::Wait => event is Readable,
        Watch::Read => event is Changed,
        Watch::End => false,
        _ => event is Done,
    }
}

/// Whether `next` is where an event leads from `at`. An event that answers
/// nothing changes nothing.
pub open spec fn is_watch_step(
    at: Watch,
    event: WatchEvent,
    following: bool,
    next: Watch,
) -> bool {
    match (at, event) {
        (Watch::Follow, WatchEvent::Following(_)) => next == Watch::Scan,
        (Watch::Scan, WatchEvent::Listed(entries)) => {
            &&& next matches Watch::TryScanned(nodes)
            &&& sorted(nodes@)
            &&& texts(nodes@).to_multiset() == event_names(entries@).to_multiset()
        },
        (Watch::TryScanned(_), WatchEvent::Done) => next == Watch::Survey,
        (Watch::Survey, WatchEvent::Done) => next == Watch::Check,
        (Watch::Check, WatchEvent::Stop(stop)) => next == if stop {
            Watch::Join
        } else if following {
            Watch::Wait
        } else {
            Watch::Sleep
        },
        (Watch::Wait, WatchEvent::Readable(readable)) => next == if readable {
            Watch::Read
        } else {
            Watch::Check
        },
        (Watch::Sleep, WatchEvent::Done) => next == Watch::Check,
        (Watch::Read, WatchEvent::Changed(events)) => {
            &&& next matches Watch::TryChanged(nodes)
            &&& marks(nodes@) == node_marks(marks(events@))
        },
        (Watch::TryChanged(_), WatchEvent::Done) => next == Watch::Check,
        (Watch::Join, WatchEvent::Done) => next == Watch::End,
        _ => next == at,
    }
}

/// Whether [`INPUT_DIR`] is followed after an event.
pub open spec fn follows(at: Watch, event: WatchEvent, following: bool) -> bool {
    match (at, event) {
        (Watch::Follow, WatchEvent::Following(begun)) => begun,
        _ => following,
    }
}

/// Take the watcher one step further: follow the directory, scan it, then try
/// what changes until it is told to stop. `following` is kept from step to step.
pub fn watch(at: Watch, event: WatchEvent, following: &mut bool) -> (next: Watch)
    ensures
        is_watch_step(at, event, *old(following), next),
        *final(following) == follows(at, event, *old(following)),
{
    match (at, event) {
        (Watch::Follow, WatchEvent::Following(begun)) => {
            *following = begun;
            Watch::Scan
        },
        (Watch::Scan, WatchEvent::Listed(entries)) => Watch::TryScanned(event_nodes(&entries)),
        (Watch::TryScanned(_), WatchEvent::Done) => Watch::Survey,
        (Watch::Survey, WatchEvent::Done) => Watch::Check,
        (Watch::Check, WatchEvent::Stop(stop)) => if stop {
            Watch::Join
        } else if *following {
            Watch::Wait
        } else {
            Watch::Sleep
        },
        (Watch::Wait, WatchEvent::Readable(readable)) => if readable {
            Watch::Read
        } else {
            Watch::Check
        },
        (Watch::Sleep, WatchEvent::Done) => Watch::Check,
        (Watch::Read, WatchEvent::Changed(events)) => Watch::TryChanged(node_events(&events)),
        (Watch::TryChanged(_), WatchEvent::Done) => Watch::Check,
        (Watch::Join, WatchEvent::Done) => Watch::End,
        (at, _) => at,
    }
}

/// The watcher at one moment.
pub struct WatchMoment {
    pub at: Watch,
    pub following: bool,
}

/// Whether `moments` is the way the watcher goes through `events`, each of which
/// answers what it did.
pub open spec fn is_watch(events: Seq<WatchEvent>, moments: Seq<WatchMoment>) -> bool {
    &&& moments.len() == events.len() + 1
    &&& moments[0] == (WatchMoment { at: Watch::Follow, following: false })
    &&& forall|i: int| #![trigger events[i]]
        0 <= i < events.len() ==> {
            let (at, following) = (moments[i].at, moments[i].following);
            &&& answers_watch(at, events[i])
            &&& is_watch_step(at, events[i], following, moments[i + 1].at)
            &&& moments[i + 1].following == follows(at, events[i], following)
        }
}

/// The watcher follows the directory before it scans it, once each, and tries
/// nothing before; it waits on the directory only while that is followed; and it
/// ends only once told to stop, directly after it has joined every reader.
pub proof fn law_the_watch_begins_before_the_scan(
    events: Seq<WatchEvent>,
    moments: Seq<WatchMoment>,
)
    requires
        is_watch(events, moments),
    ensures
        forall|j: int|
            0 <= j < moments.len() ==> {
                let at = (#[trigger] moments[j]).at;
                &&& at is Follow <==> j == 0
                &&& at is Scan <==> j == 1
                &&& at is TryScanned <==> j == 2
                &&& at is Wait || at is Read ==> events[0] == WatchEvent::Following(true)
                &&& at is Join ==> j >= 1 && events[j - 1] == WatchEvent::Stop(true)
                &&& at is End ==> j >= 1 && moments[j - 1].at is Join && j == moments.len() - 1
            },
        forall|i: int|
            0 <= i < events.len() && #[trigger] events[i] == WatchEvent::Stop(true) ==> moments[i
                + 1].at is Join,
    decreases events.len(),
{
    if events.len() > 0 {
        let last = events.len() - 1;
        let fewer = events.drop_last();
        let before = moments.drop_last();
        assert(forall|i: int| 0 <= i < fewer.len() ==> #[trigger] fewer[i] == events[i]);
        assert(is_watch(fewer, before));
        law_the_watch_begins_before_the_scan(fewer, before);
        lemma_following(events, moments, last);
        assert(before[last] == moments[last]);
        assert(answers_watch(moments[last].at, events[last]));
        assert forall|j: int| 0 <= j < moments.len() implies {
            let at = (#[trigger] moments[j]).at;
            &&& at is Follow <==> j == 0
            &&& at is Scan <==> j == 1
            &&& at is TryScanned <==> j == 2
            &&& at is Wait || at is Read ==> events[0] == WatchEvent::Following(true)
            &&& at is Join ==> j >= 1 && events[j - 1] == WatchEvent::Stop(true)
            &&& at is End ==> j >= 1 && moments[j - 1].at is Join && j == moments.len() - 1
        } by {
            if j <= last {
                assert(before[j] == moments[j]);
                if j >= 1 {
                    assert(before[j - 1] == moments[j - 1]);
                    assert(fewer[j - 1] == events[j - 1]);
                }
            }
        }
        assert forall|i: int|
            0 <= i < events.len() && #[trigger] events[i] == WatchEvent::Stop(true) implies moments[i
            + 1].at is Join by {
            if i < last {
                assert(fewer[i] == events[i]);
                assert(before[i + 1] == moments[i + 1]);
            }
        }
    }
}

proof fn lemma_following(events: Seq<WatchEvent>, moments: Seq<WatchMoment>, j: int)
    requires
        is_watch(events, moments),
        0 <= j < moments.len(),
    ensures
        moments[j].following ==> events[0] == WatchEvent::Following(true),
    decreases j,
{
    if j > 0 {
        lemma_following(events, moments, j - 1);
        assert(answers_watch(moments[j - 1].at, events[j - 1]));
        if j - 1 > 0 {
            lemma_followed_once(events, moments, j - 1);
        }
    }
}

proof fn lemma_followed_once(events: Seq<WatchEvent>, moments: Seq<WatchMoment>, j: int)
    requires
        is_watch(events, moments),
        0 < j < moments.len(),
    ensures
        !(moments[j].at is Follow),
    decreases j,
{
    assert(answers_watch(moments[j - 1].at, events[j - 1]));
    if j > 1 {
        lemma_followed_once(events, moments, j - 1);
    }
}

/// An event node's name begins with the five letters of `event`.
pub proof fn law_event_nodes_begin_with_event(name: Seq<char>)
    ensures
        names_event_node(name) <==> name.len() >= 5 && name[0] == 'e' && name[1] == 'v' && name[2]
            == 'e' && name[3] == 'n' && name[4] == 't',
{
    reveal_strlit("event");
    let begin = "event"@;
    assert(begin.len() == 5);
    if name.len() >= 5 {
        let head = name.subrange(0, 5);
        if begin =~= head {
            assert(head[0] == 'e' && head[1] == 'v' && head[2] == 'e' && head[3] == 'n' && head[4]
                == 't');
        }
        if name[0] == 'e' && name[1] == 'v' && name[2] == 'e' && name[3] == 'n' && name[4] == 't' {
            assert(begin =~= head);
        }
    }
}

/// Whether a text names an event node.
pub open spec fn is_node_text() -> spec_fn(Seq<char>) -> bool {
    |name: Seq<char>| "event"@.is_prefix_of(name)
}

/// The event nodes of a directory are its entries that are named so, all of them
/// and no other.
pub proof fn law_every_event_node_is_found(entries: Seq<String>)
    ensures
        event_names(entries) == texts(entries).filter(is_node_text()),
    decreases entries.len(),
{
    reveal(Seq::filter);
    let all = texts(entries);
    if entries.len() > 0 {
        law_every_event_node_is_found(entries.drop_last());
        assert(all.drop_last() =~= texts(entries.drop_last()));
        assert(all.last() == entries.last()@);
    }
}

/// Whether a change is one of an event node.
pub open spec fn is_node_mark() -> spec_fn((Seq<char>, bool)) -> bool {
    |change: (Seq<char>, bool)| "event"@.is_prefix_of(change.0)
}

/// The changes worth a try are those of event nodes, all of them, in order.
pub proof fn law_every_node_change_is_tried(events: Seq<(Seq<char>, bool)>)
    ensures
        node_marks(events) == events.filter(is_node_mark()),
    decreases events.len(),
{
    reveal(Seq::filter);
    if events.len() > 0 {
        law_every_node_change_is_tried(events.drop_last());
    }
}

/// A record that the buffer cuts short ends with it, and so do the records; what
/// is too short for a header holds none.
pub proof fn law_a_cut_record_ends_with_the_buffer(
    order: ByteOrder,
    header: Seq<u8>,
    name: Seq<u8>,
)
    requires
        header.len() == 16,
        u32_of(order, header.skip(12)) >= name.len(),
    ensures
        inotify_of(order, header + name) == seq![
            (text_of_bytes(until_nul(name)), (u32_of(order, header.skip(4)) / 256) % 2 == 1),
        ],
        forall|n: int| 0 <= n < 16 ==> inotify_of(order, #[trigger] header.take(n)).len() == 0,
{
    let raw = header + name;
    assert(forall|i: int| 0 <= i < 16 ==> raw[i] == header[i]);
    assert(u32_of(order, raw.skip(4)) == u32_of(order, header.skip(4)));
    assert(u32_of(order, raw.skip(12)) == u32_of(order, header.skip(12)));
    assert(raw.subrange(16, raw.len() as int) =~= name);
    assert(raw.skip(raw.len() as int).len() == 0);
    assert(inotify_of(order, raw.skip(raw.len() as int)) =~= Seq::empty());
}

/// A keyboard or mouse that opens, has a name that is wanted and can be grabbed is
/// read, as what it is; and whatever of these fails ends the try, a refused grab
/// with its own word.
pub proof fn law_a_wanted_device_is_read(
    only: Option<Seq<char>>,
    name: String,
    keys: Vec<u8>,
    rels: Vec<u8>,
    kind: Kind,
)
    ensures
        try_step(only, Trying::Opening, TryEvent::Opened(true)) == TryStep::Next(Trying::Naming),
        try_step(only, Trying::Opening, TryEvent::Opened(false)) == TryStep::Skip,
        only is None || only == Some(name@) ==> try_step(
            only,
            Trying::Naming,
            TryEvent::Named(name),
        ) == TryStep::Next(Trying::Probing),
        only is Some && only != Some(name@) ==> try_step(
            only,
            Trying::Naming,
            TryEvent::Named(name),
        ) == TryStep::Skip,
        kind_of(keys@, rels@) != Kind::Other ==> try_step(
            only,
            Trying::Probing,
            TryEvent::Probed(keys, rels),
        ) == TryStep::Next(Trying::Grabbing(kind_of(keys@, rels@))),
        kind_of(keys@, rels@) == Kind::Other ==> try_step(
            only,
            Trying::Probing,
            TryEvent::Probed(keys, rels),
        ) == TryStep::Skip,
        try_step(only, Trying::Grabbing(kind), TryEvent::Grabbed(true)) == TryStep::Read(kind),
        try_step(only, Trying::Grabbing(kind), TryEvent::Grabbed(false)) == TryStep::Refused,
{
}

/// The watcher goes round in one order: look whether to stop, wait for a change
/// where the directory is followed and sleep where it is not, read what changed,
/// and try it.
pub proof fn law_the_watch_goes_round(
    events: Vec<NodeEvent>,
    names: Vec<String>,
    nodes: Vec<NodeEvent>,
    following: bool,
    next: Watch,
)
    ensures
        is_watch_step(Watch::Follow, WatchEvent::Following(following), false, next) ==> next
            == Watch::Scan,
        follows(Watch::Follow, WatchEvent::Following(following), !following) == following,
        is_watch_step(Watch::TryScanned(names), WatchEvent::Done, following, next) ==> next
            == Watch::Survey,
        is_watch_step(Watch::Survey, WatchEvent::Done, following, next) ==> next == Watch::Check,
        is_watch_step(Watch::Check, WatchEvent::Stop(false), true, next) ==> next == Watch::Wait,
        is_watch_step(Watch::Check, WatchEvent::Stop(false), false, next) ==> next == Watch::Sleep,
        is_watch_step(Watch::Wait, WatchEvent::Readable(true), following, next) ==> next
            == Watch::Read,
        is_watch_step(Watch::Wait, WatchEvent::Readable(false), following, next) ==> next
            == Watch::Check,
        is_watch_step(Watch::Sleep, WatchEvent::Done, following, next) ==> next == Watch::Check,
        is_watch_step(Watch::Read, WatchEvent::Changed(events), following, next) ==> (next matches
            Watch::TryChanged(tried) && marks(tried@) == marks(events@).filter(is_node_mark())),
        is_watch_step(Watch::TryChanged(nodes), WatchEvent::Done, following, next) ==> next
            == Watch::Check,
{
    law_every_node_change_is_tried(marks(events@));
}

} // verus!
