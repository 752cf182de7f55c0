use reims_vgpu::bytes::ByteOrder;
use reims_vgpu::host_display::drm::{
    after_ioctl, connector_name, decode_mode, decode_mode_in, filled_connector, filled_ids, holders,
    other_pids, ConnectorInfo, IoctlStep, OpenFiles, EAGAIN, EINTR,
};

#[test]
fn names_connectors_like_the_kernel() {
    assert_eq!(connector_name(11, 1), "HDMI-A-1");
    assert_eq!(connector_name(10, 1), "DP-1");
    assert_eq!(connector_name(14, 2), "eDP-2");
    assert_eq!(connector_name(99, 3), "Unknown-3");
}

#[test]
fn every_type_of_connector_has_its_name() {
    let names = [
        "Unknown", "VGA", "DVI-I", "DVI-D", "DVI-A", "Composite", "SVIDEO", "LVDS", "Component",
        "DIN", "DP", "HDMI-A", "HDMI-B", "TV", "eDP", "Virtual", "DSI", "DPI", "Writeback", "SPI",
        "USB", "Unknown",
    ];
    for (kind, name) in names.iter().enumerate() {
        assert_eq!(
            connector_name(kind as u32, u32::MAX),
            format!("{name}-4294967295")
        );
    }
}

#[test]
fn a_mode_info_decodes_size_refresh_and_preference() {
    // struct drm_mode_modeinfo, 68 bytes: clock, hdisplay.., vrefresh, flags, type, name[32]
    let mut raw = [0u8; 68];
    raw[0..4].copy_from_slice(&148_500u32.to_ne_bytes());
    raw[4..6].copy_from_slice(&1920u16.to_ne_bytes());
    raw[14..16].copy_from_slice(&1080u16.to_ne_bytes());
    raw[24..28].copy_from_slice(&60u32.to_ne_bytes());
    raw[32..36].copy_from_slice(&(1u32 << 3).to_ne_bytes()); // DRM_MODE_TYPE_PREFERRED
    let mode = decode_mode(&raw, 4);
    assert_eq!(
        (
            mode.width,
            mode.height,
            mode.refresh_mhz,
            mode.preferred,
            mode.index
        ),
        (1920, 1080, 60_000, true, 4)
    );
}

#[test]
fn a_mode_reads_in_either_byte_order() {
    let mut raw = [0u8; 68];
    raw[4..6].copy_from_slice(&[0x07, 0x80]);
    raw[24..28].copy_from_slice(&[0xff, 0xff, 0xff, 0xff]);
    raw[32..36].copy_from_slice(&[0, 0, 0, 0xf7]);
    let big = decode_mode_in(ByteOrder::Big, &raw, 0);
    assert_eq!((big.width, big.refresh_mhz, big.preferred), (1920, u32::MAX, false));
    let little = decode_mode_in(ByteOrder::Little, &raw, 1);
    assert_eq!((little.width, little.preferred, little.index), (0x8007, false, 1));
}

#[test]
fn an_interrupted_ioctl_is_made_again() {
    assert_eq!((libc::EINTR, libc::EAGAIN), (EINTR, EAGAIN));
    assert_eq!(after_ioctl(0, libc::EINTR), IoctlStep::Done);
    assert_eq!(after_ioctl(-1, libc::EINTR), IoctlStep::Again);
    assert_eq!(after_ioctl(-1, libc::EAGAIN), IoctlStep::Again);
    assert_eq!(after_ioctl(-1, libc::ENOENT), IoctlStep::Failed);
}

#[test]
fn a_list_that_grew_is_counted_again() {
    assert_eq!(filled_ids(vec![5, 6, 0], 2), Some(vec![5, 6]));
    assert_eq!(filled_ids(vec![5, 6], 2), Some(vec![5, 6]));
    assert_eq!(filled_ids(vec![5, 6], 3), None);
    assert_eq!(filled_ids(vec![], 0), Some(vec![]));
}

#[test]
fn a_connector_has_the_modes_the_kernel_filled() {
    let info = ConnectorInfo {
        count_modes: 2,
        connector_type: 11,
        connector_type_id: 1,
        connection: 1,
    };
    let mut raw = vec![0u8; 68 * 3];
    for n in 0..3usize {
        raw[68 * n + 4..68 * n + 6].copy_from_slice(&(100 + n as u16).to_ne_bytes());
    }
    let connector = filled_connector(90, &raw, 3, info).expect("no more modes than room");
    assert_eq!(connector.id, 90);
    assert_eq!(connector.name, "HDMI-A-1");
    assert!(connector.connected);
    let modes: Vec<(u16, usize)> = connector.modes.iter().map(|m| (m.width, m.index)).collect();
    assert_eq!(modes, vec![(100, 0), (101, 1)]);
    assert!(filled_connector(90, &raw, 1, info).is_none());
    let unplugged = ConnectorInfo { count_modes: 0, connection: 2, ..info };
    let empty = filled_connector(91, &[], 0, unplugged).expect("no modes");
    assert!(!empty.connected && empty.modes.is_empty());
}

#[test]
fn only_other_processes_are_looked_at() {
    let names: Vec<String> = ["1", "self", "42", "+7", "4294967296", "0008", "", "+", "-3", "9x"]
        .iter()
        .map(|s| s.to_string())
        .collect();
    assert_eq!(other_pids(&names, 42), vec![1, 7, 8]);
    let parsed: Vec<u32> = names
        .iter()
        .filter_map(|s| s.parse::<u32>().ok())
        .filter(|&p| p != 42)
        .collect();
    assert_eq!(other_pids(&names, 42), parsed);
}

#[test]
fn holders_are_the_processes_with_the_card_open_in_order() {
    let card = b"/dev/dri/card1".to_vec();
    let open = |pid: u32, targets: &[&[u8]]| OpenFiles {
        pid,
        targets: targets.iter().map(|t| t.to_vec()).collect(),
    };
    let processes = vec![
        open(30, &[b"/dev/null", b"/dev/dri/card1"]),
        open(4, &[b"/dev/dri/card0"]),
        open(12, &[b"/dev/dri/card1", b"/dev/dri/card1"]),
        open(7, &[]),
    ];
    assert_eq!(holders(&processes, &card), vec![12, 30]);
    assert_eq!(holders(&vec![], &card), Vec::<u32>::new());
}
