use reims_vgpu::host_display::select::{choose_connector, Connector, Mode, SelectError};

fn mode(w: u16, h: u16, preferred: bool, index: usize) -> Mode {
    Mode {
        width: w,
        height: h,
        refresh_mhz: 60_000,
        preferred,
        index,
    }
}

fn hdmi(connected: bool, modes: Vec<Mode>) -> Connector {
    Connector {
        id: 90,
        name: "HDMI-A-1".into(),
        connected,
        modes,
    }
}

fn dp() -> Connector {
    Connector {
        id: 80,
        name: "DP-1".into(),
        connected: false,
        modes: vec![],
    }
}

#[test]
fn takes_1080p_over_the_preferred_mode() {
    let tv = hdmi(
        true,
        vec![mode(1360, 768, true, 0), mode(1920, 1080, false, 1)],
    );
    let choice = choose_connector(&[dp(), tv], None).unwrap();
    assert_eq!(choice.connector, "HDMI-A-1");
    assert_eq!(
        (choice.mode.width, choice.mode.height, choice.mode.index),
        (1920, 1080, 1)
    );
}

#[test]
fn falls_back_to_the_preferred_mode_without_1080p() {
    let tv = hdmi(
        true,
        vec![mode(1280, 720, false, 0), mode(1360, 768, true, 1)],
    );
    assert_eq!(choose_connector(&[tv], None).unwrap().mode.index, 1);
}

#[test]
fn falls_back_to_the_first_mode_when_none_is_preferred() {
    let tv = hdmi(
        true,
        vec![mode(1280, 720, false, 0), mode(1024, 768, false, 1)],
    );
    assert_eq!(choose_connector(&[tv], None).unwrap().mode.index, 0);
}

#[test]
fn a_named_connector_without_a_screen_is_refused() {
    let tv = hdmi(true, vec![mode(1920, 1080, true, 0)]);
    let error = choose_connector(&[dp(), tv], Some("DP-1")).unwrap_err();
    assert_eq!(error.slug(), "no_connector");
}

#[test]
fn no_connected_connector_is_refused() {
    let error = choose_connector(&[dp()], None).unwrap_err();
    assert_eq!(error, SelectError::NoConnector { wanted: None });
}

#[test]
fn a_connected_connector_without_modes_is_refused() {
    let error = choose_connector(&[hdmi(true, vec![])], None).unwrap_err();
    assert_eq!(error.slug(), "no_mode");
}

#[test]
fn the_named_connector_is_taken_over_an_earlier_one() {
    let mut second = hdmi(true, vec![mode(800, 600, false, 0)]);
    second.name = "DP-2".into();
    second.id = 7;
    let first = hdmi(true, vec![mode(1920, 1080, true, 0), mode(1920, 1080, true, 1)]);
    let list = [first, second];
    assert_eq!(choose_connector(&list, Some("DP-2")).unwrap().connector_id, 7);
    let choice = choose_connector(&list, None).unwrap();
    assert_eq!((choice.connector_id, choice.mode.index), (90, 0));
}

#[test]
fn a_refusal_names_what_it_is_about() {
    let wanted = SelectError::NoConnector { wanted: Some("DP-1".to_string()) };
    assert_eq!(wanted.to_string(), "no_connector wanted=DP-1");
    assert_eq!(wanted.fields(), vec![("wanted", "DP-1".to_string())]);
    let none = SelectError::NoConnector { wanted: None };
    assert_eq!(none.to_string(), "no_connector");
    assert!(none.fields().is_empty());
    let no_mode = choose_connector(&[hdmi(true, vec![])], None).unwrap_err();
    assert_eq!(no_mode.to_string(), "no_mode connector=HDMI-A-1");
    assert_eq!(no_mode.fields(), vec![("connector", "HDMI-A-1".to_string())]);
}
