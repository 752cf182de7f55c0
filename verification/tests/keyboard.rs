use reims_vgpu::host_window::keyboard::{
    Keyboard, KEY_ESC, KEY_LEFTALT, KEY_LEFTCTRL, KEY_RIGHTALT, KEY_RIGHTCTRL,
};
use reims_vgpu::runtime::host::HostAction;

#[test]
fn a_repeated_press_or_release_says_nothing() {
    let mut k = Keyboard::new();
    assert_eq!(k.key(30, true).actions, vec![HostAction::input_key(30, true)]);
    assert!(k.key(30, true).actions.is_empty());
    assert_eq!(k.key(30, false).actions, vec![HostAction::input_key(30, false)]);
    assert!(k.key(30, false).actions.is_empty());
}

#[test]
fn the_chord_is_consumed_and_releases_the_held_keys() {
    for (ctrl, alt) in [(KEY_LEFTCTRL, KEY_LEFTALT), (KEY_RIGHTCTRL, KEY_RIGHTALT)] {
        let mut k = Keyboard::new();
        k.key(ctrl, true);
        k.key(30, true);
        k.key(alt, true);
        let struck = k.key(KEY_ESC, true);
        assert!(struck.ungrab);
        assert_eq!(
            struck.actions,
            vec![
                HostAction::input_key(ctrl, false),
                HostAction::input_key(30, false),
                HostAction::input_key(alt, false),
            ]
        );
        assert!(k.key(KEY_ESC, false).actions.is_empty());
        assert!(k.key(ctrl, false).actions.is_empty());
        assert!(k.shutdown().actions.is_empty());
    }
}

#[test]
fn escape_alone_is_a_key() {
    let mut k = Keyboard::new();
    k.key(KEY_LEFTCTRL, true);
    let esc = k.key(KEY_ESC, true);
    assert!(!esc.ungrab);
    assert_eq!(esc.actions, vec![HostAction::input_key(KEY_ESC, true)]);
    assert_eq!(
        k.shutdown().actions,
        vec![
            HostAction::input_key(KEY_LEFTCTRL, false),
            HostAction::input_key(KEY_ESC, false),
        ]
    );
}
