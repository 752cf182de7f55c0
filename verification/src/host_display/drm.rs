//! What the display reads from a DRM card: connectors, their modes, and who
//! else holds the card.
//!
//! Structures are the layouts of `drm_mode.h`, and each list ioctl is called
//! twice, the first time to count and the second to fill.

use vstd::multiset::*;
use vstd::prelude::*;
use vstd::string::*;

use crate::bytes::{is_native, native_order, u16_at, u16_of, u32_at, u32_of, ByteOrder};
use crate::host_display::select::{Connector, Mode};
use crate::seqs::lemma_push_distinct;
use crate::text::{decimal, number_of, parse_u32, push_decimal};

verus! {

pub const DRM_MODE_TYPE_PREFERRED: u32 = 8;

pub const DRM_MODE_CONNECTED: u32 = 1;

/// Size of `struct drm_mode_modeinfo`.
pub const MODEINFO_SIZE: usize = 68;

/// `EINTR` of the Linux kernel.
pub const EINTR: i32 = 4;

/// `EAGAIN` of the Linux kernel.
pub const EAGAIN: i32 = 11;

/// Reads the constant `libc::EINTR`, which is 4 on every system whose `libc` has
/// `inotify` too.
#[verifier::external_body]
fn interrupted() -> (errno: i32)
    ensures
        errno == EINTR,
{
    libc::EINTR
}

/// Reads the constant `libc::EAGAIN`, which is 11 on every system whose `libc`
/// has `inotify` too.
#[verifier::external_body]
fn try_again() -> (errno: i32)
    ensures
        errno == EAGAIN,
{
    libc::EAGAIN
}

/// What came of one ioctl call.
#[derive(Clone, Copy, Debug, PartialEq, Eq, Structural)]
pub enum IoctlStep {
    Done,
    Again,
    Failed,
}

/// What an ioctl's return code and error number mean: zero is success, an
/// interrupted or deferred call is made again, anything else has failed.
pub fn after_ioctl(rc: i32, errno: i32) -> (step: IoctlStep)
    ensures
        step == if rc == 0 {
            IoctlStep::Done
        } else if errno == EINTR || errno == EAGAIN {
            IoctlStep::Again
        } else {
            IoctlStep::Failed
        },
{
    if rc == 0 {
        IoctlStep::Done
    } else if errno == interrupted() || errno == try_again() {
        IoctlStep::Again
    } else {
        IoctlStep::Failed
    }
}

/// The ids of a filled list with room for `ids.len()`, or `None` where the
/// kernel now counts more: one was added between the two calls, so count again.
pub fn filled_ids(ids: Vec<u32>, filled: u32) -> (list: Option<Vec<u32>>)
    ensures
        match list {
            Some(list) => filled <= ids@.len() && list@ == ids@.take(filled as int),
            None => filled > ids@.len(),
        },
{
    if filled as usize > ids.len() {
        return None;
    }
    let mut list: Vec<u32> = ids;
    list.truncate(filled as usize);
    Some(list)
}

/// The kernel's names for the types of connector, by number.
pub open spec fn kind_names() -> Seq<Seq<char>> {
    seq![
        "Unknown"@,
        "VGA"@,
        "DVI-I"@,
        "DVI-D"@,
        "DVI-A"@,
        "Composite"@,
        "SVIDEO"@,
        "LVDS"@,
        "Component"@,
        "DIN"@,
        "DP"@,
        "HDMI-A"@,
        "HDMI-B"@,
        "TV"@,
        "eDP"@,
        "Virtual"@,
        "DSI"@,
        "DPI"@,
        "Writeback"@,
        "SPI"@,
        "USB"@,
    ]
}

/// The name of a connector: its type's, and its number among that type.
pub open spec fn name_of(kind: u32, kind_id: u32) -> Seq<char> {
    let name = if kind < kind_names().len() {
        kind_names()[kind as int]
    } else {
        "Unknown"@
    };
    name + "-"@ + decimal(kind_id as nat)
}

fn kind_name(kind: u32) -> (name: &'static str)
    ensures
        name@ == if kind < kind_names().len() {
            kind_names()[kind as int]
        } else {
            "Unknown"@
        },
{
    match kind {
        1 => "VGA",
        2 => "DVI-I",
        3 => "DVI-D",
        4 => "DVI-A",
        5 => "Composite",
        6 => "SVIDEO",
        7 => "LVDS",
        8 => "Component",
        9 => "DIN",
        10 => "DP",
        11 => "HDMI-A",
        12 => "HDMI-B",
        13 => "TV",
        14 => "eDP",
        15 => "Virtual",
        16 => "DSI",
        17 => "DPI",
        18 => "Writeback",
        19 => "SPI",
        20 => "USB",
        _ => "Unknown",
    }
}

/// The kernel's name for a connector: `drm_connector_enum_list` plus the
/// per-type index.
pub fn connector_name(kind: u32, kind_id: u32) -> (name: String)
    ensures
        name@ == name_of(kind, kind_id),
{
    let mut name: String = kind_name(kind).to_owned();
    name.append("-");
    push_decimal(&mut name, kind_id as u64);
    name
}

/// The mode in the first [`MODEINFO_SIZE`] bytes, read in `order`: the sizes
/// shown, the refresh in millihertz, and the preference bit of the type.
pub open spec fn mode_of(order: ByteOrder, raw: Seq<u8>, index: usize) -> Mode {
    let mhz = u32_of(order, raw.skip(24)) * 1000;
    Mode {
        width: u16_of(order, raw.skip(4)) as u16,
        height: u16_of(order, raw.skip(14)) as u16,
        refresh_mhz: if mhz > u32::MAX {
            u32::MAX
        } else {
            mhz as u32
        },
        preferred: (u32_of(order, raw.skip(32)) / 8) % 2 == 1,
        index,
    }
}

/// Decode one `struct drm_mode_modeinfo`, in the machine's byte order.
pub fn decode_mode(raw: &[u8; MODEINFO_SIZE], index: usize) -> (mode: Mode)
    ensures
        exists|order: ByteOrder|
            is_native(order) && mode == #[trigger] mode_of(order, raw@, index),
{
    decode_mode_in(native_order(), raw, index)
}

/// Decode one `struct drm_mode_modeinfo` read in `order`.
pub fn decode_mode_in(order: ByteOrder, raw: &[u8; MODEINFO_SIZE], index: usize) -> (mode: Mode)
    ensures
        mode == mode_of(order, raw@, index),
{
    let mode: Mode = mode_at(order, raw, 0, index);
    assert(raw@.skip(0) =~= raw@);
    mode
}

fn mode_at(order: ByteOrder, raw: &[u8], at: usize, index: usize) -> (mode: Mode)
    requires
        at + MODEINFO_SIZE <= raw@.len(),
    ensures
        mode == mode_of(order, raw@.skip(at as int), index),
{
    assert(raw.len() == raw@.len());
    let hz: u64 = u32_at(order, raw, at + 24) as u64;
    let kind: u32 = u32_at(order, raw, at + 32);
    let mode = Mode {
        width: u16_at(order, raw, at + 4),
        height: u16_at(order, raw, at + 14),
        refresh_mhz: if hz * 1000 > u32::MAX as u64 {
            u32::MAX
        } else {
            (hz * 1000) as u32
        },
        preferred: kind & DRM_MODE_TYPE_PREFERRED != 0,
        index,
    };
    proof {
        let here = raw@.skip(at as int);
        assert(here.skip(4) =~= raw@.skip(at + 4));
        assert(here.skip(14) =~= raw@.skip(at + 14));
        assert(here.skip(24) =~= raw@.skip(at + 24));
        assert(here.skip(32) =~= raw@.skip(at + 32));
        assert((kind & 8 != 0) == ((kind / 8) % 2 == 1)) by (bit_vector);
    }
    mode
}

/// What the kernel filled in about a connector, beside its modes.
#[derive(Clone, Copy, Debug, PartialEq, Eq, Structural)]
pub struct ConnectorInfo {
    pub count_modes: u32,
    pub connector_type: u32,
    pub connector_type_id: u32,
    pub connection: u32,
}

/// The modes in a buffer of `struct drm_mode_modeinfo`: whole ones, no more than
/// the kernel filled.
pub open spec fn modes_of(order: ByteOrder, raw: Seq<u8>, filled: u32) -> Seq<Mode> {
    let whole = raw.len() / MODEINFO_SIZE as nat;
    Seq::new(
        if filled < whole {
            filled as nat
        } else {
            whole
        },
        |i: int| mode_of(order, raw.skip(i * MODEINFO_SIZE as int), i as usize),
    )
}

/// Whether `connector` is the one `info` and the modes in `raw` describe.
pub open spec fn describes(
    order: ByteOrder,
    id: u32,
    raw: Seq<u8>,
    info: ConnectorInfo,
    connector: Connector,
) -> bool {
    &&& connector.id == id
    &&& connector.name@ == name_of(info.connector_type, info.connector_type_id)
    &&& connector.connected == (info.connection == DRM_MODE_CONNECTED)
    &&& connector.modes@ == modes_of(order, raw, info.count_modes)
}

/// The connector the kernel described, with its modes in kernel order, or
/// `None` where it now counts more modes than the `count` there was room for:
/// count again.
pub fn filled_connector(id: u32, raw: &[u8], count: u32, info: ConnectorInfo) -> (connector: Option<
    Connector,
>)
    ensures
        match connector {
            Some(c) => info.count_modes <= count && exists|order: ByteOrder|
                is_native(order) && #[trigger] describes(order, id, raw@, info, c),
            None => info.count_modes > count,
        },
{
    filled_connector_in(native_order(), id, raw, count, info)
}

/// [`filled_connector`], with the modes read in `order`.
pub fn filled_connector_in(
    order: ByteOrder,
    id: u32,
    raw: &[u8],
    count: u32,
    info: ConnectorInfo,
) -> (connector: Option<Connector>)
    ensures
        match connector {
            Some(c) => info.count_modes <= count && describes(order, id, raw@, info, c),
            None => info.count_modes > count,
        },
{
    if info.count_modes > count {
        return None;
    }
    let mut modes: Vec<Mode> = Vec::new();
    let mut at: usize = 0;
    while modes.len() < info.count_modes as usize && raw.len() - at >= MODEINFO_SIZE
        invariant
            at <= raw@.len(),
            at == modes@.len() * MODEINFO_SIZE,
            modes@.len() <= info.count_modes,
            forall|i: int|
                0 <= i < modes@.len() ==> #[trigger] modes@[i] == mode_of(
                    order,
                    raw@.skip(i * MODEINFO_SIZE as int),
                    i as usize,
                ),
        decreases raw@.len() - at,
    {
        let index: usize = modes.len();
        modes.push(mode_at(order, raw, at, index));
        at += MODEINFO_SIZE;
    }
    assert(modes@ =~= modes_of(order, raw@, info.count_modes));
    Some(
        Connector {
            id,
            name: connector_name(info.connector_type, info.connector_type_id),
            connected: info.connection == DRM_MODE_CONNECTED,
            modes,
        },
    )
}

/// The processes that entries of `/proc` name, other than this one.
pub open spec fn pids_in(names: Seq<String>, me: u32) -> Seq<u32>
    decreases names.len(),
{
    if names.len() == 0 {
        Seq::empty()
    } else {
        let before = pids_in(names.drop_last(), me);
        match number_of(names.last()@) {
            Some(pid) => if pid != me {
                before.push(pid)
            } else {
                before
            },
            None => before,
        }
    }
}

/// The processes that entries of `/proc` name, other than `me`, in order.
pub fn other_pids(names: &Vec<String>, me: u32) -> (pids: Vec<u32>)
    ensures
        pids@ == pids_in(names@, me),
{
    let mut pids: Vec<u32> = Vec::new();
    let mut i: usize = 0;
    assert(names@.take(0) =~= Seq::<String>::empty());
    while i < names.len()
        invariant
            i <= names@.len(),
            pids@ == pids_in(names@.take(i as int), me),
        decreases names@.len() - i,
    {
        proof {
            let next = names@.take(i + 1);
            assert(next.drop_last() =~= names@.take(i as int));
            assert(next.last() == names@[i as int]);
        }
        if let Some(pid) = parse_u32(names[i].as_str()) {
            if pid != me {
                pids.push(pid);
            }
        }
        i += 1;
    }
    assert(names@.take(i as int) =~= names@);
    pids
}

/// A process and what its file descriptors are open on.
#[derive(Clone, Debug, PartialEq, Eq)]
pub struct OpenFiles {
    pub pid: u32,
    pub targets: Vec<Vec<u8>>,
}

/// Whether a process has `card` open.
pub open spec fn has_open(process: OpenFiles, card: Seq<u8>) -> bool {
    exists|i: int| 0 <= i < process.targets@.len() && #[trigger] process.targets@[i]@ == card
}

/// The processes that have `card` open, in the order given.
pub open spec fn holding(processes: Seq<OpenFiles>, card: Seq<u8>) -> Seq<u32>
    decreases processes.len(),
{
    if processes.len() == 0 {
        Seq::empty()
    } else {
        let before = holding(processes.drop_last(), card);
        if has_open(processes.last(), card) {
            before.push(processes.last().pid)
        } else {
            before
        }
    }
}

fn same_bytes(a: &Vec<u8>, b: &Vec<u8>) -> (same: bool)
    ensures
        same == (a@ == b@),
{
    if a.len() != b.len() {
        return false;
    }
    let mut i: usize = 0;
    while i < a.len()
        invariant
            i <= a@.len(),
            a@.len() == b@.len(),
            forall|k: int| 0 <= k < i ==> a@[k] == b@[k],
        decreases a@.len() - i,
    {
        if a[i] != b[i] {
            return false;
        }
        i += 1;
    }
    assert(a@ =~= b@);
    true
}

fn holds(process: &OpenFiles, card: &Vec<u8>) -> (open: bool)
    ensures
        open == has_open(*process, card@),
{
    let mut i: usize = 0;
    while i < process.targets.len()
        invariant
            i <= process.targets@.len(),
            forall|k: int| 0 <= k < i ==> #[trigger] process.targets@[k]@ != card@,
        decreases process.targets@.len() - i,
    {
        if same_bytes(&process.targets[i], card) {
            return true;
        }
        i += 1;
    }
    false
}

/// Whether the numbers never decrease.
pub open spec fn ascending(s: Seq<u32>) -> bool {
    forall|i: int, j: int| 0 <= i <= j < s.len() ==> s[i] <= s[j]
}

fn insert_sorted(list: &mut Vec<u32>, pid: u32)
    requires
        ascending(old(list)@),
    ensures
        ascending(final(list)@),
        final(list)@.to_multiset() == old(list)@.to_multiset().insert(pid),
{
    broadcast use group_multiset_axioms, vstd::seq_lib::group_to_multiset_ensures;

    let mut at: usize = list.len();
    while at > 0 && list[at - 1] > pid
        invariant
            at <= list@.len(),
            list@ == old(list)@,
            ascending(list@),
            forall|k: int| at <= k < list@.len() ==> list@[k] > pid,
        ensures
            at <= list@.len(),
            at > 0 ==> list@[at - 1] <= pid,
            forall|k: int| at <= k < list@.len() ==> list@[k] > pid,
        decreases at,
    {
        at -= 1;
    }
    list.insert(at, pid);
    proof {
        vstd::seq_lib::to_multiset_insert(old(list)@, at as int, pid);
    }
}

/// Pids, among the processes given, that hold `card` open, in ascending order.
pub fn holders(processes: &Vec<OpenFiles>, card: &Vec<u8>) -> (pids: Vec<u32>)
    ensures
        ascending(pids@),
        pids@.to_multiset() == holding(processes@, card@).to_multiset(),
{
    broadcast use group_multiset_axioms, vstd::seq_lib::group_to_multiset_ensures;

    let mut pids: Vec<u32> = Vec::new();
    let mut i: usize = 0;
    assert(processes@.take(0) =~= Seq::<OpenFiles>::empty());
    while i < processes.len()
        invariant
            i <= processes@.len(),
            ascending(pids@),
            pids@.to_multiset() == holding(processes@.take(i as int), card@).to_multiset(),
        decreases processes@.len() - i,
    {
        proof {
            let next = processes@.take(i + 1);
            assert(next.drop_last() =~= processes@.take(i as int));
            assert(next.last() == processes@[i as int]);
        }
        if holds(&processes[i], card) {
            proof {
                vstd::seq_lib::to_multiset_build(
                    holding(processes@.take(i as int), card@),
                    processes@[i as int].pid,
                );
            }
            insert_sorted(&mut pids, processes[i].pid);
        }
        i += 1;
    }
    assert(processes@.take(i as int) =~= processes@);
    pids
}

/// A connector's modes are in kernel order: each carries its own position, and
/// there are no more of them than the kernel filled.
pub proof fn law_modes_keep_kernel_order(
    order: ByteOrder,
    id: u32,
    raw: Seq<u8>,
    info: ConnectorInfo,
    connector: Connector,
    i: int,
)
    requires
        describes(order, id, raw, info, connector),
        0 <= i < connector.modes@.len(),
    ensures
        connector.modes@[i].index == i,
        connector.modes@.len() <= info.count_modes,
{
}

/// A process never counts itself among those that hold the card.
pub proof fn law_this_process_is_no_holder(names: Seq<String>, me: u32)
    ensures
        !pids_in(names, me).contains(me),
    decreases names.len(),
{
    if names.len() > 0 {
        law_this_process_is_no_holder(names.drop_last(), me);
        let before = pids_in(names.drop_last(), me);
        if let Some(pid) = number_of(names.last()@) {
            lemma_push_distinct(before, pid);
        }
    }
}

/// Where a mode's fields are: its width in bytes 4 and 5, its height in bytes 14
/// and 15, its refresh in hertz in bytes 24 to 27, told in thousandths as far as
/// 32 bits count, and its preference in one bit of bytes 32 to 35, whatever the
/// other bits say.
pub proof fn law_a_mode_is_its_bytes(raw: Seq<u8>, index: usize)
    requires
        raw.len() >= 68,
    ensures
        ({
            let mode = mode_of(ByteOrder::Little, raw, index);
            let hz = raw[24] + 256 * (raw[25] + 256 * (raw[26] + 256 * raw[27]));
            &&& mode.width == raw[4] + 256 * raw[5]
            &&& mode.height == raw[14] + 256 * raw[15]
            &&& mode.refresh_mhz == if hz * 1000 <= 4294967295 {
                hz * 1000
            } else {
                4294967295
            }
            &&& mode.preferred == (raw[32] & 8 != 0)
            &&& mode.index == index
        }),
        ({
            let mode = mode_of(ByteOrder::Big, raw, index);
            let hz = raw[27] + 256 * (raw[26] + 256 * (raw[25] + 256 * raw[24]));
            &&& mode.width == 256 * raw[4] + raw[5]
            &&& mode.height == 256 * raw[14] + raw[15]
            &&& mode.refresh_mhz == if hz * 1000 <= 4294967295 {
                hz * 1000
            } else {
                4294967295
            }
            &&& mode.preferred == (raw[35] & 8 != 0)
            &&& mode.index == index
        }),
{
    let (low, high) = (raw[32], raw[35]);
    assert((low & 8 != 0) == ((low / 8) % 2 == 1)) by (bit_vector);
    assert((high & 8 != 0) == ((high / 8) % 2 == 1)) by (bit_vector);
}

/// Two modes whose types agree in the preference bit are both preferred or both
/// not, whatever their other bits are; and the bit is that of value 8.
pub proof fn law_preference_is_one_bit(order: ByteOrder, a: Seq<u8>, b: Seq<u8>, index: usize)
    requires
        a.len() >= 68,
        b.len() >= 68,
    ensures
        mode_of(order, a, index).preferred == ((u32_of(order, a.skip(32)) as u32) & 8 != 0),
        (u32_of(order, a.skip(32)) as u32) & 8 == (u32_of(order, b.skip(32)) as u32) & 8 ==> mode_of(
            order,
            a,
            index,
        ).preferred == mode_of(order, b, index).preferred,
{
    let (s, t) = (u32_of(order, a.skip(32)) as u32, u32_of(order, b.skip(32)) as u32);
    assert((s & 8 != 0) == ((s / 8) % 2 == 1)) by (bit_vector);
    assert((t & 8 != 0) == ((t / 8) % 2 == 1)) by (bit_vector);
}

/// A connector is told as the kernel filled it in: connected where its state is
/// 1, with the modes in as many whole 68 bytes as were filled, each from its own.
pub proof fn law_a_connector_is_what_was_filled(
    order: ByteOrder,
    id: u32,
    raw: Seq<u8>,
    info: ConnectorInfo,
    connector: Connector,
    k: int,
)
    requires
        describes(order, id, raw, info, connector),
    ensures
        connector.id == id,
        connector.connected <==> info.connection == 1,
        68 * connector.modes@.len() <= raw.len(),
        connector.modes@.len() <= info.count_modes,
        connector.modes@.len() < info.count_modes ==> raw.len() < 68 * (connector.modes@.len() + 1),
        0 <= k < connector.modes@.len() ==> connector.modes@[k] == mode_of(
            order,
            raw.subrange(68 * k, 68 * k + 68),
            k as usize,
        ),
{
    if 0 <= k < connector.modes@.len() {
        let own = raw.subrange(68 * k, 68 * k + 68);
        let from = raw.skip(68 * k);
        assert(own.len() == 68);
        assert(forall|i: int| 0 <= i < 68 ==> own[i] == from[i]);
        assert(forall|at: int, i: int|
            0 <= at && 0 <= i && at + i < 68 ==> #[trigger] own.skip(at)[i] == from.skip(at)[i]);
    }
}

/// Every type of connector has the kernel's name, and a number after it.
pub proof fn law_connectors_are_named_as_the_kernel_names_them(kind: u32, id: u32)
    ensures
        ({
            let number = "-"@ + decimal(id as nat);
            &&& name_of(1, id) == "VGA"@ + number
            &&& name_of(2, id) == "DVI-I"@ + number
            &&& name_of(3, id) == "DVI-D"@ + number
            &&& name_of(4, id) == "DVI-A"@ + number
            &&& name_of(5, id) == "Composite"@ + number
            &&& name_of(6, id) == "SVIDEO"@ + number
            &&& name_of(7, id) == "LVDS"@ + number
            &&& name_of(8, id) == "Component"@ + number
            &&& name_of(9, id) == "DIN"@ + number
            &&& name_of(10, id) == "DP"@ + number
            &&& name_of(11, id) == "HDMI-A"@ + number
            &&& name_of(12, id) == "HDMI-B"@ + number
            &&& name_of(13, id) == "TV"@ + number
            &&& name_of(14, id) == "eDP"@ + number
            &&& name_of(15, id) == "Virtual"@ + number
            &&& name_of(16, id) == "DSI"@ + number
            &&& name_of(17, id) == "DPI"@ + number
            &&& name_of(18, id) == "Writeback"@ + number
            &&& name_of(19, id) == "SPI"@ + number
            &&& name_of(20, id) == "USB"@ + number
            &&& kind == 0 || kind > 20 ==> name_of(kind, id) == "Unknown"@ + number
        }),
{
    lemma_joined(kind, id);
    lemma_joined(1, id);
    lemma_joined(2, id);
    lemma_joined(3, id);
    lemma_joined(4, id);
    lemma_joined(5, id);
    lemma_joined(6, id);
    lemma_joined(7, id);
    lemma_joined(8, id);
    lemma_joined(9, id);
    lemma_joined(10, id);
    lemma_joined(11, id);
    lemma_joined(12, id);
    lemma_joined(13, id);
    lemma_joined(14, id);
    lemma_joined(15, id);
    lemma_joined(16, id);
    lemma_joined(17, id);
    lemma_joined(18, id);
    lemma_joined(19, id);
    lemma_joined(20, id);
}

proof fn lemma_joined(kind: u32, id: u32)
    ensures
        name_of(kind, id) == (if kind < kind_names().len() {
            kind_names()[kind as int]
        } else {
            "Unknown"@
        }) + ("-"@ + decimal(id as nat)),
{
    let name = if kind < kind_names().len() {
        kind_names()[kind as int]
    } else {
        "Unknown"@
    };
    assert(name + "-"@ + decimal(id as nat) =~= name + ("-"@ + decimal(id as nat)));
}

/// The processes looked at are exactly those that an entry of `/proc` names by a
/// number, other than this one.
pub proof fn law_every_other_process_is_looked_at(names: Seq<String>, me: u32, pid: u32)
    ensures
        pids_in(names, me).contains(pid) <==> pid != me && exists|i: int|
            0 <= i < names.len() && number_of((#[trigger] names[i])@) == Some(pid),
{
    if pids_in(names, me).contains(pid) {
        let i = lemma_pid_is_named(names, me, pid);
        assert(number_of(names[i]@) == Some(pid));
    }
    if pid != me && exists|i: int|
        0 <= i < names.len() && number_of((#[trigger] names[i])@) == Some(pid) {
        let i = choose|i: int|
            0 <= i < names.len() && number_of((#[trigger] names[i])@) == Some(pid);
        lemma_named_pid_is_in(names, me, pid, i);
    }
}

proof fn lemma_pid_is_named(names: Seq<String>, me: u32, pid: u32) -> (i: int)
    requires
        pids_in(names, me).contains(pid),
    ensures
        0 <= i < names.len(),
        number_of(names[i]@) == Some(pid),
        pid != me,
    decreases names.len(),
{
    let fewer = names.drop_last();
    let before = pids_in(fewer, me);
    let last = number_of(names.last()@);
    if last is Some {
        lemma_push_distinct(before, last->0);
    }
    if before.contains(pid) {
        lemma_pid_is_named(fewer, me, pid)
    } else {
        names.len() - 1
    }
}

proof fn lemma_named_pid_is_in(names: Seq<String>, me: u32, pid: u32, i: int)
    requires
        0 <= i < names.len(),
        number_of(names[i]@) == Some(pid),
        pid != me,
    ensures
        pids_in(names, me).contains(pid),
    decreases names.len(),
{
    let fewer = names.drop_last();
    let before = pids_in(fewer, me);
    let last = number_of(names.last()@);
    if last is Some {
        lemma_push_distinct(before, last->0);
    }
    if i < fewer.len() {
        lemma_named_pid_is_in(fewer, me, pid, i);
    }
}

/// The holders are exactly the processes that have a file descriptor open on the
/// card.
pub proof fn law_holders_have_the_card_open(
    processes: Seq<OpenFiles>,
    card: Seq<u8>,
    pid: u32,
)
    ensures
        holding(processes, card).contains(pid) <==> exists|i: int, j: int|
            {
                &&& 0 <= i < processes.len()
                &&& 0 <= j < processes[i].targets@.len()
                &&& processes[i].pid == pid
                &&& #[trigger] processes[i].targets@[j]@ == card
            },
    decreases processes.len(),
{
    if processes.len() > 0 {
        let fewer = processes.drop_last();
        let n = fewer.len() as int;
        let last = processes.last();
        law_holders_have_the_card_open(fewer, card, pid);
        assert(processes[n] == last);
        lemma_push_distinct(holding(fewer, card), last.pid);
        if holding(fewer, card).contains(pid) {
            let (i, j) = choose|i: int, j: int|
                {
                    &&& 0 <= i < fewer.len()
                    &&& 0 <= j < fewer[i].targets@.len()
                    &&& fewer[i].pid == pid
                    &&& #[trigger] fewer[i].targets@[j]@ == card
                };
            assert(processes[i].targets@[j]@ == card);
        }
        if has_open(last, card) {
            let j = choose|j: int| 0 <= j < last.targets@.len() && #[trigger] last.targets@[j]@ == card;
            assert(processes[n].targets@[j]@ == card);
        }
        if exists|i: int, j: int|
            {
                &&& 0 <= i < processes.len()
                &&& 0 <= j < processes[i].targets@.len()
                &&& processes[i].pid == pid
                &&& #[trigger] processes[i].targets@[j]@ == card
            } {
            let (i, j) = choose|i: int, j: int|
                {
                    &&& 0 <= i < processes.len()
                    &&& 0 <= j < processes[i].targets@.len()
                    &&& processes[i].pid == pid
                    &&& #[trigger] processes[i].targets@[j]@ == card
                };
            if i < n {
                assert(fewer[i].targets@[j]@ == card);
            } else {
                assert(last.targets@[j]@ == card);
            }
        }
    }
}

} // verus!
