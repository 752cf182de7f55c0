use std::sync::mpsc::sync_channel;

use reims_vgpu::host_display::cursor::{
    applied_count, last_error, note_applied, note_error, plane_image, publish_glyph,
    publish_position, screen_position, CursorLog, Glyph, Shared,
};

fn glyph(w: u16, h: u16, hot: (u16, u16), px: u32) -> Glyph {
    Glyph {
        width: w,
        height: h,
        hot_x: hot.0,
        hot_y: hot.1,
        pixels: vec![px; usize::from(w) * usize::from(h)],
    }
}

#[test]
fn a_small_glyph_sits_top_left_in_the_plane_image() {
    let image = plane_image(&glyph(2, 2, (0, 0), 0xFF11_2233), 64);
    assert_eq!(image.len(), 64 * 64);
    assert_eq!(&image[0..3], &[0xFF11_2233, 0xFF11_2233, 0]);
    assert_eq!(&image[64..66], &[0xFF11_2233, 0xFF11_2233]);
    assert_eq!(image[2 * 64], 0);
}

#[test]
fn a_glyph_wider_than_the_plane_is_cropped_not_wrapped() {
    let image = plane_image(&glyph(70, 1, (0, 0), 0xFFFF_FFFF), 64);
    assert!(image[..64].iter().all(|&p| p == 0xFFFF_FFFF));
    assert!(image[64..].iter().all(|&p| p == 0));
}

#[test]
fn a_malformed_glyph_shows_nothing() {
    let mut torn = glyph(2, 2, (0, 0), 7);
    torn.pixels.pop();
    assert_eq!(plane_image(&torn, 2), vec![0; 4]);
    assert!(plane_image(&torn, 0).is_empty());
    let mut spare = glyph(1, 2, (0, 0), 7);
    spare.pixels = vec![1, 2, 3];
    assert_eq!(plane_image(&spare, 2), vec![1, 0, 2, 0]);
}

#[test]
fn the_hotspot_lands_on_the_guest_position_on_an_unscaled_frame() {
    // Guest frame = mode: no letterbox, no scale.
    assert_eq!(
        screen_position((500, 300), (4, 2), (1920, 1080), (1920, 1080)),
        (496, 298)
    );
}

#[test]
fn a_letterboxed_frame_offsets_and_scales_the_position() {
    // 1440x900 (16:10) fits 1920x1080 as 1728x1080 at x=96.
    assert_eq!(
        screen_position((720, 450), (4, 4), (1440, 900), (1920, 1080)),
        (956, 536)
    );
}

#[test]
fn a_hotspot_past_the_left_edge_goes_negative() {
    assert_eq!(
        screen_position((0, 0), (5, 3), (1920, 1080), (1920, 1080)),
        (-5, -3)
    );
}

#[test]
fn a_position_past_all_screens_wraps() {
    // One guest pixel over the whole width: 2 * u32::MAX, cut to 32 bits.
    assert_eq!(
        screen_position((2, 0), (0, 0), (1, 1), (u32::MAX, u32::MAX)),
        (-2, 0)
    );
}

#[test]
fn a_publication_is_taken_once_per_change() {
    let mut shared = Shared::default();
    shared.set_active(true);
    assert!(shared.take().is_none());
    shared.position(10, 20, true);
    let seen = shared.take().expect("a new position");
    assert_eq!((seen.x, seen.y, seen.show), (10, 20, true));
    assert!(seen.glyph.is_none());
    assert!(shared.take().is_none());
    shared.glyph(glyph(1, 1, (0, 0), 1));
    assert!(shared.take().expect("a new glyph").glyph.is_some());
}

#[test]
fn nothing_is_kept_while_no_display_runs() {
    let mut shared = Shared::default();
    shared.position(10, 20, true);
    shared.set_active(true);
    assert!(shared.take().is_none());
}

#[test]
fn a_loop_that_stops_leaves_nothing_behind() {
    let (tx, rx) = sync_channel(1);
    let mut shared = Shared::default();
    shared.set_wake(tx);
    shared.set_active(true);
    assert!(publish_position(&mut shared, 1, 2, true).is_some());
    publish_glyph(&mut shared, glyph(1, 1, (0, 0), 1));
    shared.set_active(false);
    assert!(rx.recv().is_err(), "the channel is dropped");
    assert!(publish_position(&mut shared, 3, 4, true).is_none());
    shared.set_active(true);
    assert!(shared.take().is_none());
}

#[test]
fn only_news_wakes_the_display_loop() {
    let (tx, rx) = sync_channel(1);
    let mut shared = Shared::default();
    shared.set_wake(tx);
    assert!(shared.position(1, 2, true).is_none(), "no loop runs");
    shared.set_active(true);
    let wake = shared.position(1, 2, true).expect("a new position");
    wake.try_send(()).unwrap();
    assert_eq!(rx.try_recv(), Ok(()));
    assert!(shared.position(1, 2, true).is_some(), "not taken yet");
    shared.take().expect("a change");
    assert!(shared.position(1, 2, true).is_none(), "nothing new");
    assert!(shared.position(1, 2, false).is_some(), "hidden");
    assert!(shared.glyph(glyph(1, 1, (0, 0), 1)).is_some());
}

#[test]
fn the_latest_cursor_is_taken() {
    let mut shared = Shared::default();
    shared.set_active(true);
    shared.position(1, 1, true);
    shared.glyph(glyph(1, 1, (0, 0), 5));
    shared.glyph(glyph(1, 1, (0, 0), 6));
    shared.position(2, 3, false);
    let seen = shared.take().expect("a change");
    assert_eq!((seen.x, seen.y, seen.show), (2, 3, false));
    assert_eq!(seen.glyph.expect("the image").pixels, vec![6]);
    shared.position(4, 4, true);
    assert!(shared.take().expect("a move").glyph.is_none(), "seen already");
}

#[test]
fn a_failure_is_logged_once_per_distinct_message() {
    let mut log = CursorLog::new();
    assert_eq!(applied_count(&log), 0);
    assert_eq!(last_error(&log), None);
    assert!(note_error(&mut log, "EINVAL".to_string()));
    assert!(!note_error(&mut log, "EINVAL".to_string()));
    assert!(note_error(&mut log, "EBUSY".to_string()));
    assert_eq!(last_error(&log), Some("EBUSY".to_string()));
    assert!(!note_error(&mut log, "EINVAL".to_string()), "logged before");
    assert_eq!(last_error(&log), Some("EINVAL".to_string()));
    note_applied(&mut log);
    note_applied(&mut log);
    assert_eq!(applied_count(&log), 2);
    assert_eq!(last_error(&log), Some("EINVAL".to_string()));
    assert!(!note_error(&mut log, "EBUSY".to_string()));
}

#[test]
fn each_distinct_message_is_logged_once() {
    let mut log = CursorLog::new();
    let logged: Vec<&str> = ["a", "a", "b", "a"]
        .into_iter()
        .filter(|m| note_error(&mut log, m.to_string()))
        .collect();
    assert_eq!(logged, vec!["a", "b"]);
    assert_eq!(last_error(&log), Some("a".to_string()));
}
