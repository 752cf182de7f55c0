use reims_vgpu::bytes::ByteOrder;
use reims_vgpu::host_input::evdev::{
    classify, decode, decode_all, decode_all_in, decode_in, share, InputEvent, Kind, Translator,
};
use reims_vgpu::host_window::pointer::Pointer;
use reims_vgpu::runtime::host::HostAction;
use reims_vgpu::runtime::input::ReimsVgpuButton;

const EV_SYN: u16 = 0;
const EV_KEY: u16 = 1;
const EV_REL: u16 = 2;
const KEY_A: u16 = 30;
const BTN_LEFT: u16 = 0x110;
const REL_X: u16 = 0;
const REL_Y: u16 = 1;
const REL_HWHEEL: u16 = 6;
const REL_WHEEL: u16 = 8;

fn ev(kind: u16, code: u16, value: i32) -> InputEvent {
    InputEvent { kind, code, value }
}

#[test]
fn decodes_a_64_bit_input_event() {
    let mut raw = [0u8; 24];
    raw[16..18].copy_from_slice(&EV_KEY.to_ne_bytes());
    raw[18..20].copy_from_slice(&KEY_A.to_ne_bytes());
    raw[20..24].copy_from_slice(&1i32.to_ne_bytes());
    assert_eq!(decode(&raw), ev(EV_KEY, KEY_A, 1));
}

#[test]
fn an_event_reads_in_either_byte_order() {
    let mut raw = [0xaau8; 24];
    raw[16..24].copy_from_slice(&[0, 2, 1, 0x10, 0xff, 0xff, 0xff, 0xd8]);
    assert_eq!(decode_in(ByteOrder::Big, &raw), ev(2, 0x110, -40));
    raw[16..24].copy_from_slice(&[2, 0, 0x10, 1, 0, 0, 0, 0x80]);
    assert_eq!(decode_in(ByteOrder::Little, &raw), ev(2, 0x110, i32::MIN));
}

#[test]
fn a_read_holds_one_event_for_each_24_bytes() {
    let mut raw = vec![0u8; 24 * 2 + 23];
    raw[16..18].copy_from_slice(&EV_KEY.to_ne_bytes());
    raw[24 + 20..24 + 24].copy_from_slice(&(-7i32).to_ne_bytes());
    assert_eq!(decode_all(&raw), vec![ev(EV_KEY, 0, 0), ev(EV_SYN, 0, -7)]);
    assert!(decode_all(&raw[..23]).is_empty());
    assert_eq!(decode_all_in(ByteOrder::Little, &[0; 24]), vec![ev(0, 0, 0)]);
}

#[test]
fn a_key_press_and_release_become_guest_keys() {
    let mut t = Translator::new(1920, 1080);
    assert_eq!(
        t.feed(ev(EV_KEY, KEY_A, 1)),
        vec![HostAction::input_key(30, true)]
    );
    assert_eq!(t.feed(ev(EV_KEY, KEY_A, 2)), vec![]); // autorepeat: the guest repeats on its own
    assert_eq!(
        t.feed(ev(EV_KEY, KEY_A, 0)),
        vec![HostAction::input_key(30, false)]
    );
}

#[test]
fn relative_motion_is_one_absolute_move_per_report() {
    let mut t = Translator::new(1920, 1080);
    assert_eq!(t.feed(ev(EV_REL, REL_X, 40)), vec![]);
    assert_eq!(t.feed(ev(EV_REL, REL_Y, -40)), vec![]);
    assert_eq!(
        t.feed(ev(EV_SYN, 0, 0)),
        vec![HostAction::input_pointer_move(1000, 500, 1920, 1080)]
    );
}

#[test]
fn a_report_without_motion_says_nothing() {
    let mut t = Translator::new(1920, 1080);
    assert_eq!(t.feed(ev(EV_SYN, 0, 0)), vec![]);
    t.feed(ev(EV_REL, REL_X, i32::MAX));
    t.feed(ev(EV_REL, REL_X, i32::MAX));
    assert_eq!(t.feed(ev(EV_SYN, 3, 0)), vec![], "SYN_DROPPED ends no report");
    assert_eq!(
        t.feed(ev(EV_SYN, 0, 0)),
        vec![HostAction::input_pointer_move(1919, 540, 1920, 1080)]
    );
    assert_eq!(t.feed(ev(EV_SYN, 0, 0)), vec![]);
}

#[test]
fn buttons_and_wheel_map_to_neutral_buttons() {
    let mut t = Translator::new(1920, 1080);
    assert_eq!(
        t.feed(ev(EV_KEY, BTN_LEFT, 1)),
        vec![HostAction::input_pointer_button(
            ReimsVgpuButton::Left,
            true
        )]
    );
    assert_eq!(
        t.feed(ev(EV_REL, REL_WHEEL, -1)),
        vec![
            HostAction::input_pointer_button(ReimsVgpuButton::WheelDown, true),
            HostAction::input_pointer_button(ReimsVgpuButton::WheelDown, false)
        ]
    );
}

#[test]
fn every_button_and_wheel_direction_has_its_own() {
    let mut t = Translator::new(1920, 1080);
    let buttons = [
        (0x110, ReimsVgpuButton::Left),
        (0x111, ReimsVgpuButton::Right),
        (0x112, ReimsVgpuButton::Middle),
        (0x113, ReimsVgpuButton::Side),
        (0x114, ReimsVgpuButton::Extra),
    ];
    for (code, b) in buttons {
        assert_eq!(
            t.feed(ev(EV_KEY, code, 1)),
            vec![HostAction::input_pointer_button(b, true)]
        );
        assert_eq!(t.feed(ev(EV_KEY, code, 1)), vec![], "held already");
        assert_eq!(
            t.feed(ev(EV_KEY, code, 0)),
            vec![HostAction::input_pointer_button(b, false)]
        );
        assert_eq!(t.feed(ev(EV_KEY, code, 0)), vec![], "up already");
    }
    let wheels = [
        (REL_WHEEL, 1, ReimsVgpuButton::WheelUp),
        (REL_WHEEL, -1, ReimsVgpuButton::WheelDown),
        (REL_HWHEEL, 1, ReimsVgpuButton::WheelRight),
        (REL_HWHEEL, -1, ReimsVgpuButton::WheelLeft),
    ];
    for (code, sign, b) in wheels {
        let pair = [
            HostAction::input_pointer_button(b, true),
            HostAction::input_pointer_button(b, false),
        ];
        assert_eq!(t.feed(ev(EV_REL, code, 3 * sign)), pair.repeat(3));
        assert_eq!(t.feed(ev(EV_REL, code, 0)), vec![]);
    }
    // Joystick and touch buttons are not a keyboard's; past them codes are keys.
    assert_eq!(t.feed(ev(EV_KEY, 0x120, 1)), vec![]);
    assert_eq!(t.feed(ev(EV_KEY, 0x15f, 1)), vec![]);
    assert_eq!(
        t.feed(ev(EV_KEY, 0x160, 1)),
        vec![HostAction::input_key(0x160, true)]
    );
    assert_eq!(t.feed(ev(4, 4, 1)), vec![], "EV_MSC is not input");
}

#[test]
fn a_lost_device_releases_every_held_key() {
    let mut t = Translator::new(1920, 1080);
    t.feed(ev(EV_KEY, 29, 1)); // LEFTCTRL
    t.feed(ev(EV_KEY, KEY_A, 1));
    let released = t.lost();
    assert_eq!(released.len(), 2);
    assert!(released.contains(&HostAction::input_key(29, false)));
    assert!(released.contains(&HostAction::input_key(30, false)));
}

#[test]
fn a_lost_mouse_releases_its_held_buttons() {
    let mut t = Translator::new(1920, 1080);
    t.feed(ev(EV_KEY, BTN_LEFT, 1));
    assert_eq!(
        t.lost(),
        vec![HostAction::input_pointer_button(
            ReimsVgpuButton::Left,
            false
        )]
    );
}

#[test]
fn a_lost_device_forgets_its_motion() {
    let mut t = Translator::new(1920, 1080);
    t.feed(ev(EV_REL, REL_X, 5));
    t.feed(ev(EV_KEY, KEY_A, 1));
    assert_eq!(t.lost(), vec![HostAction::input_key(30, false)]);
    assert_eq!(t.lost(), vec![]);
    assert_eq!(t.feed(ev(EV_SYN, 0, 0)), vec![]);
}

/// The guest has one cursor: a second mouse carries on from where the
/// first one left it, instead of jumping to a position of its own.
#[test]
fn two_mice_share_one_pointer() {
    let shared = share(Pointer::new(1920, 1080));
    let mut script = Translator::with_pointer(shared.clone());
    let mut dell = Translator::with_pointer(shared);
    script.feed(ev(EV_REL, REL_X, -10_000));
    script.feed(ev(EV_REL, REL_Y, -10_000));
    script.feed(ev(EV_SYN, 0, 0));
    script.feed(ev(EV_REL, REL_X, 1500));
    script.feed(ev(EV_REL, REL_Y, 700));
    assert_eq!(
        script.feed(ev(EV_SYN, 0, 0)),
        vec![HostAction::input_pointer_move(1500, 700, 1920, 1080)]
    );
    dell.feed(ev(EV_REL, REL_X, 1));
    assert_eq!(
        dell.feed(ev(EV_SYN, 0, 0)),
        vec![HostAction::input_pointer_move(1501, 700, 1920, 1080)]
    );
}

#[test]
fn a_given_pointer_is_moved_instead_of_the_shared_one() {
    let mut t = Translator::new(1920, 1080);
    let mut p = Pointer::new(100, 50);
    assert_eq!(t.feed_at(&mut p, ev(EV_REL, REL_Y, 7)), vec![]);
    assert_eq!(
        t.feed_at(&mut p, ev(EV_SYN, 0, 0)),
        vec![HostAction::input_pointer_move(50, 32, 100, 50)]
    );
    assert_eq!(p.moved(0, 0), (50, 32));
    t.feed(ev(EV_REL, REL_X, 1));
    assert_eq!(
        t.feed(ev(EV_SYN, 0, 0)),
        vec![HostAction::input_pointer_move(961, 540, 1920, 1080)]
    );
}

#[test]
fn every_press_is_released_by_the_end() {
    let mut t = Translator::new(1920, 1080);
    let mut down: Vec<HostAction> = Vec::new();
    let mut told: Vec<HostAction> = Vec::new();
    for (code, value) in [(30, 1), (29, 1), (56, 1), (0x111, 1), (30, 0), (1, 1), (31, 1), (31, 2)] {
        told.extend(t.feed(ev(EV_KEY, code, value)));
    }
    told.extend(t.feed(ev(EV_REL, REL_WHEEL, 2)));
    told.extend(t.lost());
    for action in told {
        let up = |a: &HostAction| match *a {
            HostAction::Key { code, .. } => HostAction::input_key(code, false),
            HostAction::PointerButton { button, .. } => {
                HostAction::input_pointer_button(button, false)
            }
            other => other,
        };
        if up(&action) == action {
            let held = down.iter().position(|a| up(a) == action).expect("it is down");
            down.remove(held);
        } else {
            assert!(!down.contains(&action), "it is up");
            down.push(action);
        }
    }
    assert!(down.is_empty());
}

#[test]
fn keyboards_and_mice_are_told_apart_by_capabilities() {
    const KEY_ENTER: u16 = 28;
    let mut keys = vec![0u8; 96];
    keys[(KEY_A / 8) as usize] |= 1 << (KEY_A % 8);
    keys[(KEY_ENTER / 8) as usize] |= 1 << (KEY_ENTER % 8);
    assert_eq!(classify(&keys, &[0u8; 2]), Kind::Keyboard);
    let mut mouse_keys = vec![0u8; 96];
    mouse_keys[(BTN_LEFT / 8) as usize] |= 1 << (BTN_LEFT % 8);
    assert_eq!(classify(&mouse_keys, &[0b11, 0]), Kind::Mouse);
    assert_eq!(classify(&[0u8; 96], &[0u8; 2]), Kind::Other);
}

#[test]
fn a_bitmap_that_ends_early_has_no_more_bits() {
    let mut mouse_keys = vec![0u8; 35];
    mouse_keys[34] = 1;
    assert_eq!(classify(&mouse_keys, &[0b11]), Kind::Mouse);
    assert_eq!(classify(&mouse_keys, &[0b01]), Kind::Other);
    assert_eq!(classify(&mouse_keys[..34], &[0b11]), Kind::Other);
    assert_eq!(classify(&[], &[]), Kind::Other);
}

#[test]
fn a_whole_report_is_one_move_held_inside_once() {
    let mut t = Translator::new(1920, 1080);
    t.feed(ev(EV_REL, REL_X, 5));
    t.feed(ev(EV_SYN, 0, 0));
    let report = [
        ev(EV_REL, REL_X, 5000),
        ev(EV_KEY, KEY_A, 1),
        ev(EV_REL, REL_Y, 0),
        ev(EV_REL, REL_WHEEL, 1),
        ev(EV_REL, REL_X, -5000),
        ev(EV_REL, REL_Y, -3),
    ];
    for event in report {
        let told = t.feed(event);
        assert!(event.kind != EV_REL || event.code == REL_WHEEL || told.is_empty());
    }
    assert_eq!(
        t.feed(ev(EV_SYN, 0, 0)),
        vec![HostAction::input_pointer_move(965, 537, 1920, 1080)]
    );
    assert_eq!(t.feed(ev(EV_SYN, 0, 0)), vec![]);
}

#[test]
fn ignored_events_change_nothing() {
    let ignored = [
        ev(EV_KEY, KEY_A, 2),
        ev(EV_KEY, KEY_A, -1),
        ev(EV_KEY, 0x115, 1),
        ev(EV_REL, 0x0b, 120),
        ev(EV_SYN, 3, 0),
        ev(3, 0, 9),
        ev(0x15, 0, 1),
    ];
    let mut t = Translator::new(1920, 1080);
    t.feed(ev(EV_KEY, KEY_A, 1));
    t.feed(ev(EV_REL, REL_X, 7));
    for event in ignored {
        assert_eq!(t.feed(event), vec![]);
    }
    assert_eq!(
        t.feed(ev(EV_SYN, 0, 0)),
        vec![HostAction::input_pointer_move(967, 540, 1920, 1080)]
    );
    assert_eq!(t.lost(), vec![HostAction::input_key(30, false)]);
}

#[test]
fn a_lost_device_starts_over() {
    let shared = share(Pointer::new(100, 100));
    let mut t = Translator::with_pointer(shared.clone());
    let mut other = Translator::with_pointer(shared);
    t.feed(ev(EV_KEY, BTN_LEFT, 1));
    t.feed(ev(EV_REL, REL_X, 9));
    assert_eq!(
        t.lost(),
        vec![HostAction::input_pointer_button(ReimsVgpuButton::Left, false)]
    );
    assert_eq!(t.lost(), vec![]);
    assert_eq!(t.feed(ev(EV_SYN, 0, 0)), vec![]);
    other.feed(ev(EV_REL, REL_Y, 1));
    assert_eq!(
        other.feed(ev(EV_SYN, 0, 0)),
        vec![HostAction::input_pointer_move(50, 51, 100, 100)]
    );
    assert_eq!(
        t.feed(ev(EV_KEY, BTN_LEFT, 1)),
        vec![HostAction::input_pointer_button(ReimsVgpuButton::Left, true)]
    );
}

fn bytes_of(events: &[InputEvent]) -> Vec<u8> {
    let mut raw = Vec::new();
    for event in events {
        raw.extend([0u8; 16]);
        raw.extend(event.kind.to_ne_bytes());
        raw.extend(event.code.to_ne_bytes());
        raw.extend(event.value.to_ne_bytes());
    }
    raw
}

#[test]
fn a_read_is_fed_event_by_event() {
    let events = [
        ev(EV_KEY, KEY_A, 1),
        ev(EV_REL, REL_X, -10),
        ev(EV_SYN, 0, 0),
        ev(EV_REL, REL_Y, 4),
        ev(EV_SYN, 0, 0),
        ev(EV_KEY, KEY_A, 0),
    ];
    let mut raw = bytes_of(&events);
    raw.extend([1u8; 23]);
    let mut t = Translator::new(1920, 1080);
    let mut pointer = Pointer::new(1920, 1080);
    let mut one_by_one = Translator::new(1920, 1080);
    let told = t.feed_all(&mut pointer, &raw);
    let each: Vec<HostAction> = events.into_iter().flat_map(|e| one_by_one.feed(e)).collect();
    assert_eq!(told, each);
    assert_eq!(
        told,
        vec![
            HostAction::input_key(30, true),
            HostAction::input_pointer_move(950, 540, 1920, 1080),
            HostAction::input_pointer_move(950, 544, 1920, 1080),
            HostAction::input_key(30, false),
        ]
    );
    assert_eq!(pointer.moved(0, 0), (950, 544));
    assert!(t.feed_all(&mut pointer, &[]).is_empty());
    let mut big = [0u8; 24];
    big[17] = 1;
    big[19] = 30;
    big[23] = 1;
    assert_eq!(
        t.feed_all_at(&mut pointer, ByteOrder::Big, &big),
        vec![HostAction::input_key(30, true)]
    );
}

#[test]
fn reads_of_two_mice_carry_on_from_one_another() {
    let mut pointer = Pointer::new(1920, 1080);
    let mut script = Translator::new(1920, 1080);
    let mut dell = Translator::new(1920, 1080);
    let corner = [ev(EV_REL, REL_X, -10_000), ev(EV_REL, REL_Y, -10_000), ev(EV_SYN, 0, 0)];
    let there = [ev(EV_REL, REL_X, 1500), ev(EV_REL, REL_Y, 700), ev(EV_SYN, 0, 0)];
    let mut raw = bytes_of(&corner);
    raw.extend(bytes_of(&there));
    assert_eq!(
        script.feed_all(&mut pointer, &raw),
        vec![
            HostAction::input_pointer_move(0, 0, 1920, 1080),
            HostAction::input_pointer_move(1500, 700, 1920, 1080),
        ]
    );
    let step = bytes_of(&[ev(EV_REL, REL_X, 1), ev(EV_SYN, 0, 0)]);
    assert_eq!(
        dell.feed_all(&mut pointer, &step),
        vec![HostAction::input_pointer_move(1501, 700, 1920, 1080)]
    );
}

#[test]
fn a_pointer_of_its_own_carries_on_from_report_to_report() {
    let mut t = Translator::new(1920, 1080);
    for (dx, at) in [(-10_000, 0), (1500, 1500), (1, 1501)] {
        t.feed(ev(EV_REL, REL_X, dx));
        assert_eq!(
            t.feed(ev(EV_SYN, 0, 0)),
            vec![HostAction::input_pointer_move(at, 540, 1920, 1080)]
        );
    }
}
