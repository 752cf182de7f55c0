use std::sync::Arc;

use reims_vgpu::backend::window::{
    SurfaceSource, WindowDecline, WindowDeclineReason, WindowPresentOutcome,
};
use reims_vgpu::host_display::cursor::{applied_count, last_error, CursorChange, CursorLog, Glyph};
use reims_vgpu::host_display::run::{
    after_crtc, attach_refusal, frame_size, take_screen, CrtcStep, CursorNeed, CursorView,
    DisplayError, Place, PresentLoop, ScreenRequest, Taken, Taking, TakingEvent, TakingStep, Turn,
    TurnEvent,
};
use reims_vgpu::host_display::select::{Connector, Mode, SelectError};
use reims_vgpu::host_window::present::Frame;

#[test]
fn every_refusal_has_the_slug_the_spec_names() {
    let no_connector = DisplayError::Select(SelectError::NoConnector { wanted: None });
    let no_mode = DisplayError::Select(SelectError::NoMode {
        connector: "HDMI-A-1".into(),
    });
    let busy = DisplayError::Busy { holders: vec![42] };
    let open = DisplayError::Open(std::io::Error::from_raw_os_error(libc::ENOENT));
    assert_eq!(no_connector.slug(), "no_connector");
    assert_eq!(no_mode.slug(), "no_mode");
    assert_eq!(busy.slug(), "drm_busy");
    assert_eq!(open.slug(), "drm_open");
}

#[test]
fn every_refusal_exits_with_its_own_code() {
    let errors = [
        DisplayError::Open(std::io::Error::from_raw_os_error(libc::ENOENT)),
        DisplayError::Busy { holders: vec![] },
        DisplayError::Select(SelectError::NoConnector { wanted: None }),
        DisplayError::Select(SelectError::NoMode {
            connector: "HDMI-A-1".into(),
        }),
        attach_refusal("vk_display_acquire", "x".into()),
        attach_refusal("display_plane_missing", "x".into()),
    ];
    let mut codes: Vec<i32> = errors.iter().map(DisplayError::exit_code).collect();
    assert!(codes.iter().all(|&c| c > 2 && c < 126), "{codes:?}");
    codes.sort_unstable();
    codes.dedup();
    assert_eq!(codes.len(), errors.len());
}

#[test]
fn the_exit_codes_run_from_70_to_75() {
    let open = DisplayError::Open(std::io::Error::from_raw_os_error(libc::ENOENT));
    assert_eq!(open.exit_code(), 70);
    assert_eq!(DisplayError::Busy { holders: vec![] }.exit_code(), 71);
    let none = SelectError::NoConnector { wanted: None };
    assert_eq!(DisplayError::Select(none).exit_code(), 72);
    let no_mode = SelectError::NoMode { connector: "DP-1".into() };
    assert_eq!(DisplayError::Select(no_mode).exit_code(), 73);
    assert_eq!(attach_refusal("vk_display_get", "x".into()).exit_code(), 74);
    assert_eq!(attach_refusal("", "x".into()).exit_code(), 75);
}

#[test]
fn only_the_vulkan_acquire_is_an_acquire_refusal() {
    for slug in ["vk_display_get", "vk_display_acquire"] {
        assert_eq!(attach_refusal(slug, "x".into()).slug(), "acquire_refused");
    }
    assert_eq!(
        attach_refusal("display_plane_missing", "x".into()).slug(),
        "display_attach"
    );
}

#[test]
fn a_refusal_reads_with_its_detail() {
    let no_mode = DisplayError::Select(SelectError::NoMode { connector: "DP-1".into() });
    assert_eq!(no_mode.to_string(), "no_mode (no_mode connector=DP-1)");
    assert_eq!(
        no_mode.fields(),
        vec![("detail", "no_mode connector=DP-1".to_string())]
    );
    let busy = DisplayError::Busy { holders: vec![4, 17, 230] };
    assert_eq!(busy.to_string(), "drm_busy holders=[4, 17, 230]");
    assert_eq!(DisplayError::Busy { holders: vec![] }.to_string(), "drm_busy holders=[]");
    let os = std::io::Error::from_raw_os_error(libc::ENOENT);
    let expected = format!("drm_open error={os}");
    let open = DisplayError::Open(os);
    assert_eq!(open.to_string(), expected);
    assert_eq!(open.render("gone"), "drm_open error=gone");
    assert_eq!(open.detail("gone"), "gone");
    let attach = attach_refusal("vk_display_get", "reason=vk_display_get".into());
    assert_eq!(attach.to_string(), "acquire_refused vk=reason=vk_display_get");
    assert_eq!(attach.fields(), vec![("detail", "reason=vk_display_get".to_string())]);
}

#[test]
fn a_request_comes_from_the_variables_that_are_set() {
    let none = ScreenRequest::from_vars(None, None, None);
    assert_eq!(none.card, "/dev/dri/card1");
    assert_eq!(none.wanted, None);
    assert!(none.check_master);
    let set = ScreenRequest::from_vars(
        Some("/dev/dri/card0".into()),
        Some("DP-1".into()),
        Some("ignore".into()),
    );
    assert_eq!(set.card, "/dev/dri/card0");
    assert_eq!(set.wanted, Some("DP-1".to_string()));
    assert!(!set.check_master);
    let odd = ScreenRequest::from_vars(None, Some(String::new()), Some("Ignore".into()));
    assert_eq!(odd.wanted, None);
    assert!(odd.check_master);
}

fn tv() -> Connector {
    Connector {
        id: 90,
        name: "HDMI-A-1".into(),
        connected: true,
        modes: vec![Mode {
            width: 1920,
            height: 1080,
            refresh_mhz: 60_000,
            preferred: true,
            index: 0,
        }],
    }
}

fn advance(request: &ScreenRequest, at: Taking, event: TakingEvent) -> Taking {
    match take_screen(request, at, event) {
        TakingStep::Next(next) => next,
        other => panic!("{other:?}"),
    }
}

#[test]
fn the_screen_is_taken_step_by_step() {
    let request = ScreenRequest::from_vars(None, None, None);
    let at = advance(&request, Taking::Opening, TakingEvent::Opened(Ok(())));
    assert!(matches!(at, Taking::CheckingMaster));
    let at = advance(&request, at, TakingEvent::Opened(Ok(())));
    assert!(matches!(at, Taking::CheckingMaster), "not waited for");
    let at = advance(&request, at, TakingEvent::Master(true));
    assert!(matches!(at, Taking::Listing));
    let at = advance(&request, at, TakingEvent::Listed(Ok(vec![tv()])));
    let surface = match &at {
        Taking::Attaching(choice) => choice.surface(5),
        other => panic!("{other:?}"),
    };
    assert_eq!((surface.width, surface.height), (1920, 1080));
    let taken = match take_screen(&request, at, TakingEvent::Attached(Ok(()))) {
        TakingStep::Taken(taken) => taken,
        other => panic!("{other:?}"),
    };
    assert_eq!(
        taken,
        Taken {
            connector: "HDMI-A-1".to_string(),
            connector_id: 90,
            width: 1920,
            height: 1080,
            refresh_mhz: 60_000,
        }
    );
    match taken.surface(5).source {
        SurfaceSource::Display { drm_fd, connector_id, width, height, refresh_mhz } => assert_eq!(
            (drm_fd, connector_id, width, height, refresh_mhz),
            (5, 90, 1920, 1080, 60_000)
        ),
        SurfaceSource::Native { .. } => panic!("a display"),
    }
}

#[test]
fn each_step_can_be_refused() {
    let request = ScreenRequest::from_vars(None, Some("DP-9".into()), None);
    let refused = |at: Taking, event: TakingEvent| match take_screen(&request, at, event) {
        TakingStep::Refused(error) => error.slug(),
        other => panic!("{other:?}"),
    };
    let gone = || std::io::Error::from_raw_os_error(libc::ENOENT);
    assert_eq!(refused(Taking::Opening, TakingEvent::Opened(Err(gone()))), "drm_open");
    assert_eq!(refused(Taking::Listing, TakingEvent::Listed(Err(gone()))), "drm_open");
    assert_eq!(
        refused(Taking::Listing, TakingEvent::Listed(Ok(vec![tv()]))),
        "no_connector"
    );
    assert!(matches!(
        advance(&request, Taking::CheckingMaster, TakingEvent::Master(false)),
        Taking::FindingHolders
    ));
    assert_eq!(
        refused(Taking::FindingHolders, TakingEvent::Holders(vec![3])),
        "drm_busy"
    );
    let unchecked = ScreenRequest::from_vars(None, None, Some("ignore".into()));
    let at = advance(&unchecked, Taking::Opening, TakingEvent::Opened(Ok(())));
    assert!(matches!(at, Taking::Listing));
    let at = advance(&unchecked, at, TakingEvent::Listed(Ok(vec![tv()])));
    let refusal = ("vk_display_acquire".to_string(), "x".to_string());
    assert_eq!(refused(at, TakingEvent::Attached(Err(refusal))), "acquire_refused");
}

fn change(x: u16, glyph: Option<Arc<Glyph>>) -> CursorChange {
    CursorChange { x, y: 20, show: true, glyph }
}

fn dot() -> Arc<Glyph> {
    Arc::new(Glyph { width: 1, height: 1, hot_x: 3, hot_y: 4, pixels: vec![9] })
}

#[test]
fn a_cursor_is_drawn_once_its_plane_can_be_made() {
    let mode = (1920, 1080);
    let mut log = CursorLog::new();
    let mut view = CursorView::default();
    assert_eq!(view.need(), CursorNeed::Nothing);
    assert!(view.draw(mode, mode).is_none());
    view.update(change(10, Some(dot())));
    assert_eq!(view.need(), CursorNeed::Crtc);
    assert!(view.draw(mode, mode).is_none(), "nothing to draw on");
    assert_eq!(after_crtc(&mut log, Ok(None)), CrtcStep::Later);
    assert_eq!(after_crtc(&mut log, Ok(Some(7))), CrtcStep::MakePlane(7));
    assert_eq!(view.plane_made(&mut log, Ok(2)), None);
    assert_eq!(view.need(), CursorNeed::Draw);
    let draw = view.draw(mode, mode).expect("a plane and a change");
    assert_eq!(draw.image, Some(vec![9, 0, 0, 0]));
    assert_eq!(draw.place, Place::At(7, 16));
    assert_eq!(view.drawn(&mut log, Ok(())), None);
    assert_eq!(applied_count(&log), 1);
    assert_eq!(view.need(), CursorNeed::Nothing);
    view.update(change(11, None));
    let moved = view.draw(mode, mode).expect("a change");
    assert_eq!((moved.image, moved.place), (None, Place::At(8, 16)));
    view.drawn(&mut log, Ok(()));
    view.update(CursorChange { show: false, ..change(11, None) });
    assert_eq!(view.draw(mode, mode).expect("a change").place, Place::Hidden);
}

#[test]
fn a_plane_that_refuses_is_logged_once() {
    let mut log = CursorLog::new();
    assert_eq!(
        after_crtc(&mut log, Err("EIO".to_string())),
        CrtcStep::Failed(Some("crtc_of: EIO".to_string()))
    );
    assert_eq!(after_crtc(&mut log, Err("EIO".to_string())), CrtcStep::Failed(None));
    let mut view = CursorView::default();
    view.update(change(1, None));
    assert_eq!(
        view.plane_made(&mut log, Err("ENOMEM".to_string())),
        Some("cursor_plane: ENOMEM".to_string())
    );
    assert_eq!(view.need(), CursorNeed::Nothing, "the change is dropped");
    view.update(change(2, None));
    view.plane_made(&mut log, Ok(64));
    assert_eq!(view.draw((1, 1), (1, 1)).expect("a change").place, Place::Hidden);
    assert_eq!(
        view.drawn(&mut log, Err("EINVAL".to_string())),
        Some("cursor2: EINVAL".to_string())
    );
    assert_eq!(view.drawn(&mut log, Err("EINVAL".to_string())), None);
    assert_eq!(last_error(&log), Some("cursor2: EINVAL".to_string()));
    assert_eq!(applied_count(&log), 0);
}

fn shown(suboptimal: bool) -> Result<WindowPresentOutcome, WindowDecline> {
    Ok(WindowPresentOutcome::Presented {
        direct: false,
        width: 1920,
        height: 1080,
        buffers: 3,
        suboptimal,
    })
}

#[test]
fn a_frame_is_presented_once_and_the_first_is_logged() {
    let mut state = PresentLoop::new();
    assert!(state.wants(None), "the first present is owed");
    let busy = state.presented(Some(1), &Ok(WindowPresentOutcome::Busy), 3);
    assert_eq!((busy.log_first, busy.log_error, busy.reattach), (None, false, false));
    assert!(state.wants(Some(1)), "tried again");
    assert_eq!(state.presented(Some(1), &shown(false), 3).log_first, Some((1920, 1080)));
    assert!(!state.wants(Some(1)));
    assert!(state.wants(Some(2)));
    assert_eq!(state.presented(Some(2), &shown(true), 3).log_first, None);
    assert!(state.wants(Some(2)), "a rebuild is armed");
    state.presented(Some(2), &shown(false), 3);
    assert!(!state.wants(Some(2)));
    state.capture_queued();
    assert!(state.wants(Some(2)), "a capture needs a present");
}

#[test]
fn a_lost_presenter_is_rebuilt_within_its_budget_and_logged_once() {
    let lost = Err(WindowDecline::PresenterLost(WindowDeclineReason::RailHasNoPresenter));
    let refused = Err(WindowDecline::Refused(WindowDeclineReason::RailHasNoPresenter));
    let mut state = PresentLoop::new();
    state.presented(Some(1), &shown(false), 2);
    let first = state.presented(Some(2), &lost, 2);
    assert_eq!((first.log_error, first.reattach), (true, true));
    let second = state.presented(Some(2), &lost, 2);
    assert_eq!((second.log_error, second.reattach), (false, true));
    let third = state.presented(Some(2), &lost, 2);
    assert_eq!((third.log_error, third.reattach), (false, false));
    state.presented(Some(2), &shown(false), 2);
    let again = state.presented(Some(3), &lost, 2);
    assert_eq!((again.log_error, again.reattach), (true, true));
    let plain = state.presented(Some(3), &refused, 2);
    assert!(!plain.reattach, "only a lost presenter is rebuilt");
}

#[test]
fn the_cursor_moves_on_the_published_frame() {
    let frame = Frame { seq: 1, width: 0, height: 900, bgra: vec![], resident: None };
    assert_eq!(frame_size(Some(&frame), (1920, 1080)), (1, 900));
    assert_eq!(frame_size(None, (1920, 1080)), (1920, 1080));
}

#[test]
fn the_loop_presents_until_it_is_told_to_stop_and_ends_in_order() {
    let lost = || Err(WindowDecline::PresenterLost(WindowDeclineReason::RailHasNoPresenter));
    let events = vec![
        (TurnEvent::Done, Turn::Check),
        (TurnEvent::Stop(false), Turn::Wait),
        (TurnEvent::Done, Turn::Recheck),
        (TurnEvent::Stop(false), Turn::Serve),
        (TurnEvent::Served(false), Turn::Look),
        (TurnEvent::Frame(Some(1)), Turn::Present(Some(1))),
        (TurnEvent::Presented(lost()), Turn::Attach),
        (TurnEvent::Done, Turn::Collect),
        (TurnEvent::Done, Turn::Draw),
        (TurnEvent::Done, Turn::Check),
        (TurnEvent::Stop(false), Turn::Wait),
        (TurnEvent::Done, Turn::Recheck),
        (TurnEvent::Stop(false), Turn::Serve),
        (TurnEvent::Served(false), Turn::Look),
        (TurnEvent::Frame(Some(1)), Turn::Present(Some(1))),
        (TurnEvent::Presented(lost()), Turn::Collect),
        (TurnEvent::Done, Turn::Draw),
        (TurnEvent::Done, Turn::Check),
        (TurnEvent::Stop(false), Turn::Wait),
        (TurnEvent::Done, Turn::Recheck),
        (TurnEvent::Stop(true), Turn::Deactivate),
        (TurnEvent::Done, Turn::Hide),
        (TurnEvent::Done, Turn::Detach),
        (TurnEvent::Done, Turn::Close),
        (TurnEvent::Done, Turn::End),
        (TurnEvent::Done, Turn::End),
    ];
    let mut state = PresentLoop::new();
    let mut at = Turn::Activate;
    for (event, expected) in events {
        let step = state.turn(at, &event, 1);
        assert_eq!(step.next, expected, "{event:?}");
        at = step.next;
    }
}

#[test]
fn a_turn_keeps_what_is_owed() {
    let mut state = PresentLoop::new();
    let first = state.turn(Turn::Present(Some(4)), &TurnEvent::Presented(shown(false)), 1);
    assert_eq!(first.report.log_first, Some((1920, 1080)));
    assert_eq!(first.next, Turn::Collect);
    let same = TurnEvent::Frame(Some(4));
    assert_eq!(state.turn(Turn::Look, &same, 1).next, Turn::Collect);
    assert_eq!(state.turn(Turn::Serve, &TurnEvent::Served(true), 1).next, Turn::Look);
    assert_eq!(state.turn(Turn::Look, &same, 1).next, Turn::Present(Some(4)));
    let busy = TurnEvent::Presented(Ok(WindowPresentOutcome::Busy));
    assert_eq!(state.turn(Turn::Present(Some(4)), &busy, 1).next, Turn::Collect);
    assert_eq!(state.turn(Turn::Look, &same, 1).next, Turn::Present(Some(4)));
    assert_eq!(state.turn(Turn::Check, &TurnEvent::Stop(true), 1).next, Turn::Deactivate);
    assert_eq!(state.turn(Turn::Wait, &TurnEvent::Stop(true), 1).next, Turn::Wait);
}
