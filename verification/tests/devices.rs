use reims_vgpu::bytes::{order_of_probe, ByteOrder};
use reims_vgpu::host_input::devices::{
    after_read, device_name, event_nodes, eviocgbit, eviocgname, finds_nothing, finish,
    is_event_node, node_events, node_path, read_inotify, read_inotify_in, try_attach, try_node,
    watch, Attached, NodeEvent, ReadOutcome, ReaderStep, TryEvent, TryStep, Trying, Watch,
    WatchEvent, IN_CREATE, INPUT_DIR, KEY_BITS, REL_BITS,
};
use reims_vgpu::host_input::evdev::{InputEvent, Kind, Translator};
use reims_vgpu::runtime::host::HostAction;

fn strings(list: &[&str]) -> Vec<String> {
    list.iter().map(|s| s.to_string()).collect()
}

#[test]
fn requests_encode_their_number_and_length() {
    assert_eq!(eviocgbit(1, KEY_BITS), 0x8060_4521);
    assert_eq!(eviocgbit(2, REL_BITS), 0x8002_4522);
    assert_eq!(eviocgname(256), 0x8100_4506);
}

#[test]
fn the_byte_order_is_told_by_one_probe() {
    assert_eq!(order_of_probe(1), ByteOrder::Little);
    assert_eq!(order_of_probe(0x100), ByteOrder::Big);
    assert_eq!(order_of_probe(u16::from_le_bytes([1, 0])), ByteOrder::Little);
    assert_eq!(order_of_probe(u16::from_be_bytes([1, 0])), ByteOrder::Big);
}

#[test]
fn event_nodes_are_found_and_sorted() {
    assert!(is_event_node("event0"));
    assert!(is_event_node("event"));
    assert!(!is_event_node("mouse0"));
    assert!(!is_event_node("even"));
    let entries = strings(&["event2", "mice", "event10", "by-id", "event1", "event"]);
    let nodes = event_nodes(&entries);
    assert_eq!(nodes, strings(&["event", "event1", "event10", "event2"]));
    let mut expected: Vec<String> = entries.into_iter().filter(|e| e.starts_with("event")).collect();
    expected.sort();
    assert_eq!(nodes, expected);
    assert_eq!(node_path("event3"), format!("{INPUT_DIR}/event3"));
}

fn record(order: ByteOrder, mask: u32, name: &[u8], pad: usize) -> Vec<u8> {
    let number = |v: u32| match order {
        ByteOrder::Little => v.to_le_bytes(),
        ByteOrder::Big => v.to_be_bytes(),
    };
    let mut raw = vec![9u8; 4];
    raw.extend(number(mask));
    raw.extend([7u8; 4]);
    raw.extend(number((name.len() + pad) as u32));
    raw.extend(name);
    raw.extend(vec![0u8; pad]);
    raw
}

fn node(name: &str, created: bool) -> NodeEvent {
    NodeEvent { name: name.to_string(), created }
}

#[test]
fn inotify_records_come_out_in_order() {
    for order in [ByteOrder::Little, ByteOrder::Big] {
        let mut raw = record(order, IN_CREATE, b"event7", 10);
        raw.extend(record(order, 4, b"js0", 0));
        raw.extend(record(order, IN_CREATE | 0x4000_0000, b"", 0));
        assert_eq!(
            read_inotify_in(order, &raw),
            vec![node("event7", true), node("js0", false), node("", true)]
        );
    }
    assert!(read_inotify(&[0; 15]).is_empty());
    let mut native = vec![0u8; 4];
    assert_eq!(libc::IN_CREATE, IN_CREATE);
    native.extend(libc::IN_CREATE.to_ne_bytes());
    native.extend([0u8; 4]);
    native.extend(6u32.to_ne_bytes());
    native.extend(b"event5");
    assert_eq!(read_inotify(&native), vec![node("event5", true)]);
}

#[test]
fn a_record_cut_short_ends_with_the_buffer() {
    let raw = record(ByteOrder::Little, 4, b"event12", 9);
    assert_eq!(
        read_inotify_in(ByteOrder::Little, &raw[..20]),
        vec![node("even", false)]
    );
    let mut endless = record(ByteOrder::Little, 4, b"x", 0);
    endless[12..16].copy_from_slice(&[0xff; 4]);
    assert_eq!(
        read_inotify_in(ByteOrder::Little, &endless),
        vec![node("x", false)]
    );
    let lossy = record(ByteOrder::Little, 4, &[b'a', 0xff], 1);
    assert_eq!(
        read_inotify_in(ByteOrder::Little, &lossy),
        vec![node("a\u{fffd}", false)]
    );
}

#[test]
fn only_event_nodes_are_worth_a_try() {
    let events = vec![node("event3", true), node("js1", true), node("event3", false)];
    assert_eq!(
        node_events(&events),
        vec![node("event3", true), node("event3", false)]
    );
}

#[test]
fn a_device_name_ends_at_its_nul() {
    assert_eq!(device_name(Some(b"Dell \xe2\x82\xac\0junk")), "Dell \u{20ac}");
    assert_eq!(device_name(Some(b"full")), "full");
    assert_eq!(device_name(Some(&[0xff, 0])), "\u{fffd}");
    assert_eq!(device_name(None), "");
}

#[test]
fn attached_devices_are_kept_by_path() {
    let mut attached = Attached::new();
    assert!(attached.is_empty());
    assert!(finds_nothing(&None, &attached));
    assert!(!finds_nothing(&Some("x".to_string()), &attached));
    attached.insert("/dev/input/event1");
    attached.insert("/dev/input/event2");
    attached.insert("/dev/input/event1");
    assert!(attached.contains("/dev/input/event1"));
    assert!(!finds_nothing(&None, &attached));
    attached.remove("/dev/input/event1");
    assert!(!attached.contains("/dev/input/event1"));
    assert!(attached.contains("/dev/input/event2"));
    attached.remove("/dev/input/event9");
    attached.remove("/dev/input/event2");
    assert!(attached.is_empty());
}

fn keyboard_bits() -> Vec<u8> {
    let mut keys = vec![0u8; KEY_BITS];
    keys[3] = 1 << 4 | 1 << 6;
    keys
}

#[test]
fn a_keyboard_is_tried_grabbed_and_attached() {
    let path = "/dev/input/event4";
    let mut attached = Attached::new();
    assert_eq!(try_node(&attached, path), TryStep::Next(Trying::Opening));
    let steps = [
        (TryEvent::Opened(true), TryStep::Next(Trying::Naming)),
        (TryEvent::Grabbed(true), TryStep::Next(Trying::Naming)),
        (TryEvent::Named("kbd".to_string()), TryStep::Next(Trying::Probing)),
        (
            TryEvent::Probed(keyboard_bits(), vec![0; REL_BITS]),
            TryStep::Next(Trying::Grabbing(Kind::Keyboard)),
        ),
    ];
    let mut at = Trying::Opening;
    for (event, expected) in steps {
        let step = try_attach(&mut attached, path, &Some("kbd".to_string()), at, event);
        assert_eq!(step, expected);
        assert!(attached.is_empty());
        match step {
            TryStep::Next(next) => at = next,
            other => panic!("{other:?}"),
        }
    }
    let step = try_attach(&mut attached, path, &None, at, TryEvent::Grabbed(true));
    assert_eq!(step, TryStep::Read(Kind::Keyboard));
    assert!(attached.contains(path));
    assert_eq!(try_node(&attached, path), TryStep::Skip);
}

#[test]
fn a_node_that_is_not_ours_is_left_alone() {
    let mut attached = Attached::new();
    let path = "/dev/input/event4";
    let only = Some("kbd".to_string());
    let none = vec![0u8; KEY_BITS];
    assert_eq!(
        try_attach(&mut attached, path, &None, Trying::Opening, TryEvent::Opened(false)),
        TryStep::Skip
    );
    assert_eq!(
        try_attach(
            &mut attached,
            path,
            &only,
            Trying::Naming,
            TryEvent::Named("other".to_string())
        ),
        TryStep::Skip
    );
    assert_eq!(
        try_attach(
            &mut attached,
            path,
            &None,
            Trying::Probing,
            TryEvent::Probed(none, vec![0; REL_BITS])
        ),
        TryStep::Skip
    );
    assert_eq!(
        try_attach(
            &mut attached,
            path,
            &None,
            Trying::Grabbing(Kind::Mouse),
            TryEvent::Grabbed(false)
        ),
        TryStep::Refused
    );
    assert!(attached.is_empty());
}

#[test]
fn a_read_that_ends_or_fails_loses_the_device() {
    assert_eq!(after_read(ReadOutcome::Bytes(48)), ReaderStep::Feed(48));
    assert_eq!(after_read(ReadOutcome::Bytes(0)), ReaderStep::Lost);
    assert_eq!(after_read(ReadOutcome::WouldBlock), ReaderStep::Wait);
    assert_eq!(after_read(ReadOutcome::Interrupted), ReaderStep::Wait);
    assert_eq!(after_read(ReadOutcome::Failed), ReaderStep::Lost);
}

#[test]
fn a_reader_that_ends_releases_its_keys_or_its_grab() {
    for lost in [true, false] {
        let mut t = Translator::new(1920, 1080);
        t.feed(InputEvent { kind: 1, code: 29, value: 1 });
        let farewell = finish(&mut t, lost);
        assert_eq!(farewell.ungrab, !lost);
        let released = if lost { vec![HostAction::input_key(29, false)] } else { vec![] };
        assert_eq!(farewell.actions, released);
        let left = if lost { vec![] } else { vec![HostAction::input_key(29, false)] };
        assert_eq!(t.lost(), left);
    }
}

#[test]
fn the_watcher_follows_before_it_scans_and_joins_before_it_ends() {
    let changed = vec![node("event3", true), node("mouse0", true), node("event4", false)];
    let steps = [
        (WatchEvent::Following(true), Watch::Scan),
        (
            WatchEvent::Listed(strings(&["event2", "mice", "event1"])),
            Watch::TryScanned(strings(&["event1", "event2"])),
        ),
        (WatchEvent::Done, Watch::Survey),
        (WatchEvent::Done, Watch::Check),
        (WatchEvent::Stop(false), Watch::Wait),
        (WatchEvent::Readable(false), Watch::Check),
        (WatchEvent::Stop(false), Watch::Wait),
        (WatchEvent::Readable(true), Watch::Read),
        (
            WatchEvent::Changed(changed),
            Watch::TryChanged(vec![node("event3", true), node("event4", false)]),
        ),
        (WatchEvent::Done, Watch::Check),
        (WatchEvent::Done, Watch::Check),
        (WatchEvent::Stop(true), Watch::Join),
        (WatchEvent::Done, Watch::End),
        (WatchEvent::Done, Watch::End),
    ];
    let mut following = false;
    let mut at = Watch::Follow;
    for (event, expected) in steps {
        at = watch(at, event, &mut following);
        assert_eq!(at, expected);
        assert!(following);
    }
}

#[test]
fn a_watcher_that_cannot_follow_sleeps() {
    let mut following = true;
    let at = watch(Watch::Follow, WatchEvent::Following(false), &mut following);
    assert_eq!((at, following), (Watch::Scan, false));
    let at = watch(Watch::Check, WatchEvent::Stop(false), &mut following);
    assert_eq!(at, Watch::Sleep);
    assert_eq!(watch(at, WatchEvent::Done, &mut following), Watch::Check);
}
