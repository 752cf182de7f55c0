use reims_vgpu::host_window::pointer::Pointer;

#[test]
fn relative_motion_starts_at_the_centre_and_is_clamped() {
    let mut p = Pointer::new(1920, 1080);
    assert_eq!(p.moved(0, 0), (960, 540));
    assert_eq!(p.moved(10_000, 10_000), (1919, 1079));
    assert_eq!(p.moved(-100_000, -100_000), (0, 0));
    assert_eq!(p.moved(i32::MAX, i32::MIN), (1919, 0));
}

#[test]
fn a_frame_is_at_least_one_pixel() {
    let mut p = Pointer::new(0, 0);
    assert_eq!(p.size(), (1, 1));
    assert_eq!(p.moved(5, -5), (0, 0));
    let mut wide = Pointer::new(u32::MAX, 1);
    assert_eq!(wide.moved(i32::MAX, 0), (u32::MAX - 1, 0));
}
