use reims_vgpu::backend::window::viewport::{aspect_fit, Viewport};
use reims_vgpu::backend::window::{
    RailRefusal, SurfaceSource, WindowCpuFrame, WindowDecline, WindowDeclineReason,
    WindowPresentSource, WindowResident, WindowSurface, NEUTRAL_OWNER,
};
use reims_vgpu::host_window::present::{needs_present, window_cpu_frame, Frame};

#[test]
fn a_cpu_frame_shorter_than_its_own_geometry_is_refused() {
    let full = vec![0u8; 8 * 4 * 4];
    assert!(WindowCpuFrame::complete(&WindowCpuFrame {
        bgra: &full,
        width: 8,
        height: 4,
        seq: 1,
    }));
    // Slop is fine: the copy reads exactly what the geometry names.
    assert!(WindowCpuFrame::complete(&WindowCpuFrame {
        bgra: &full,
        width: 8,
        height: 3,
        seq: 1,
    }));
    assert!(
        !WindowCpuFrame::complete(&WindowCpuFrame {
            bgra: &full[..full.len() - 1],
            width: 8,
            height: 4,
            seq: 1,
        }),
        "one byte short is still a torn last row"
    );
    assert!(
        !WindowCpuFrame::complete(&WindowCpuFrame {
            bgra: &[],
            width: 8,
            height: 4,
            seq: 1,
        }),
        "the elided-readback publish carries no bytes at all"
    );
    assert!(
        !WindowCpuFrame::complete(&WindowCpuFrame {
            bgra: &full,
            width: 0,
            height: 4,
            seq: 1,
        }),
        "a zero dimension names no pixels and blits nothing"
    );
}

#[test]
fn a_geometry_past_all_memory_is_never_complete() {
    let bytes = [0u8; 16];
    let frame = WindowCpuFrame {
        bgra: &bytes,
        width: u32::MAX,
        height: u32::MAX,
        seq: 1,
    };
    assert!(!frame.complete());
}

#[test]
fn only_a_lost_presenter_asks_the_window_to_rebuild() {
    let lost = WindowDecline::PresenterLost(WindowDeclineReason::ResidentFromOtherRail);
    let refused = WindowDecline::Refused(WindowDeclineReason::ResidentFromOtherRail);
    assert!(lost.presenter_lost());
    assert!(!refused.presenter_lost());
    // Both render the rail's reason, so the disposition never becomes a
    // second `reason=` the reader has to reconcile.
    assert_eq!(lost.slug(), "window_resident_other_rail");
    assert_eq!(lost.slug(), refused.slug());
    assert_eq!(lost.to_string(), "reason=window_resident_other_rail");
}

#[test]
fn the_neutral_window_reasons_do_not_share_a_slug() {
    let no_presenter = WindowDeclineReason::RailHasNoPresenter;
    let other_rail = WindowDeclineReason::ResidentFromOtherRail;
    assert_ne!(no_presenter.slug(), other_rail.slug());
    assert_eq!(no_presenter.owner(), other_rail.owner());
    for reason in [no_presenter, other_rail] {
        assert!(reason.fields().is_empty(), "{} names no value", reason.to_string());
        assert!(reason.slug().starts_with("window_"));
    }
}

#[test]
fn a_rail_refusal_keeps_its_own_slug_fields_and_owner() {
    let refusal = RailRefusal {
        slug: "vk_display_acquire",
        fields: vec![("result", "-3".to_string()), ("step", "acquire".to_string())],
        owner: "engine::DrawError",
    };
    let metal = RailRefusal {
        slug: "metal_layer_gone",
        fields: vec![],
        owner: "metal::Decline",
    };
    let decline = WindowDecline::Refused(WindowDeclineReason::Vulkan(refusal));
    assert_eq!(decline.slug(), "vk_display_acquire");
    assert_eq!(decline.owner(), "engine::DrawError");
    assert_eq!(
        decline.fields(),
        vec![("result", "-3".to_string()), ("step", "acquire".to_string())]
    );
    assert_eq!(
        decline.to_string(),
        "reason=vk_display_acquire result=-3 step=acquire"
    );
    let lost = WindowDecline::PresenterLost(WindowDeclineReason::Metal(metal));
    assert_eq!(lost.reason().slug(), "metal_layer_gone");
    assert_eq!(lost.owner(), "metal::Decline");
    assert!(lost.fields().is_empty());
    assert_eq!(
        WindowDeclineReason::RailHasNoPresenter.owner(),
        NEUTRAL_OWNER
    );
}

#[test]
fn a_native_surface_carries_its_handles() {
    let surface = WindowSurface {
        source: SurfaceSource::Native {
            display: raw_window_handle::RawDisplayHandle::UiKit(
                raw_window_handle::UiKitDisplayHandle::new(),
            ),
            window: raw_window_handle::RawWindowHandle::Web(
                raw_window_handle::WebWindowHandle::new(7),
            ),
        },
        width: 640,
        height: 480,
    };
    let copy = surface;
    match copy.source {
        SurfaceSource::Native { window, .. } => assert_eq!(
            window,
            raw_window_handle::RawWindowHandle::Web(raw_window_handle::WebWindowHandle::new(7))
        ),
        SurfaceSource::Display { .. } => panic!("a native surface"),
    }
}

#[test]
fn a_frame_fits_its_area_centred() {
    assert_eq!(
        aspect_fit((1440, 900), (1920, 1080)),
        Viewport { x: 96, y: 0, width: 1728, height: 1080 }
    );
    assert_eq!(
        aspect_fit((1920, 1080), (1920, 1200)),
        Viewport { x: 0, y: 60, width: 1920, height: 1080 }
    );
    assert_eq!(
        aspect_fit((800, 600), (800, 600)),
        Viewport { x: 0, y: 0, width: 800, height: 600 }
    );
    assert_eq!(
        aspect_fit((0, 0), (10, 20)),
        Viewport { x: 0, y: 5, width: 10, height: 10 }
    );
    assert_eq!(
        aspect_fit((u32::MAX, u32::MAX), (u32::MAX, 1)),
        Viewport { x: u32::MAX / 2, y: 0, width: 1, height: 1 }
    );
}

#[test]
fn a_present_is_needed_for_a_redraw_or_a_new_frame() {
    assert!(needs_present(None, true, None));
    assert!(needs_present(Some(3), true, Some(3)));
    assert!(!needs_present(None, false, None));
    assert!(needs_present(None, false, Some(1)));
    assert!(needs_present(Some(1), false, Some(2)));
    assert!(!needs_present(Some(2), false, Some(2)));
    assert!(!needs_present(Some(2), false, None));
}

#[test]
fn a_frame_is_offered_with_its_own_bytes() {
    let frame = Frame {
        seq: 9,
        width: 1,
        height: 2,
        bgra: vec![1, 2, 3, 4, 5, 6, 7, 8],
        resident: Some(WindowResident::Vulkan(WindowPresentSource { id: 4 })),
    };
    let cpu = window_cpu_frame(&frame);
    assert_eq!(cpu.bgra, &[1, 2, 3, 4, 5, 6, 7, 8]);
    assert_eq!((cpu.width, cpu.height, cpu.seq), (1, 2, 9));
    assert!(cpu.complete());
}
