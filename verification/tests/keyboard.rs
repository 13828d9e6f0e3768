use blur_autoclicker::keyboard::{
    is_alphabetic_vk, keyboard_diagnostic, send_key_presses, send_key_presses_cross_platform,
    should_hold_shift_for_case, token_is_alphabetic, token_to_evdev_key,
};
use blur_autoclicker::script::{InputAction, InputTarget};

#[test]
fn alphabetic_virtual_keys() {
    assert!(is_alphabetic_vk(b'A' as u16));
    assert!(is_alphabetic_vk(b'Z' as u16));
    assert!(!is_alphabetic_vk(b'a' as u16));
    assert!(!is_alphabetic_vk(b'0' as u16));
}

#[test]
fn shift_follows_caps_lock() {
    assert!(should_hold_shift_for_case(b'Q' as u16, true, false));
    assert!(!should_hold_shift_for_case(b'Q' as u16, true, true));
    assert!(should_hold_shift_for_case(b'Q' as u16, false, true));
    assert!(!should_hold_shift_for_case(b'1' as u16, true, false));
}

#[test]
fn key_names_match_evdev() {
    assert_eq!(token_to_evdev_key("a"), Some(evdev::Key::KEY_A.code()));
    assert_eq!(token_to_evdev_key("Z"), Some(evdev::Key::KEY_Z.code()));
    assert_eq!(token_to_evdev_key(" "), Some(evdev::Key::KEY_SPACE.code()));
    assert_eq!(token_to_evdev_key("return"), Some(evdev::Key::KEY_ENTER.code()));
    assert_eq!(token_to_evdev_key("printscreen"), Some(evdev::Key::KEY_SYSRQ.code()));
    assert_eq!(token_to_evdev_key("capslock"), Some(evdev::Key::KEY_CAPSLOCK.code()));
    assert_eq!(token_to_evdev_key("f12"), Some(evdev::Key::KEY_F12.code()));
    assert_eq!(token_to_evdev_key("f13"), None);
    assert_eq!(token_to_evdev_key("Space"), None);
    assert_eq!(token_to_evdev_key("\\"), Some(evdev::Key::KEY_BACKSLASH.code()));
    assert_eq!(token_to_evdev_key("'"), Some(evdev::Key::KEY_APOSTROPHE.code()));
}

#[test]
fn alphabetic_tokens() {
    assert!(token_is_alphabetic("q"));
    assert!(token_is_alphabetic("Q"));
    assert!(!token_is_alphabetic("1"));
    assert!(!token_is_alphabetic("qq"));
    assert!(!token_is_alphabetic("é"));
}

#[test]
fn uppercase_letter_presses_hold_shift() {
    let mut session = send_key_presses("a", 2, 5, true, 30, true).unwrap();
    let trace = session.run_with_answers(&vec![]);
    let key = InputTarget::Key { code: evdev::Key::KEY_A.code() };
    let press_once = vec![
        InputAction::CheckActive,
        InputAction::Press { target: InputTarget::Shift },
        InputAction::Press { target: key },
        InputAction::Sleep { ms: 5 },
        InputAction::CheckActive,
        InputAction::Release { target: key },
        InputAction::Release { target: InputTarget::Shift },
    ];
    let mut expected = press_once.clone();
    expected.push(InputAction::Sleep { ms: 30 });
    expected.extend(press_once);
    expected.push(InputAction::Finish { completed: true });
    assert_eq!(trace, expected);
}

#[test]
fn stopped_key_hold_releases_key_then_shift() {
    let mut session = send_key_presses("b", 3, 5, false, 0, true).unwrap();
    let trace = session.run_with_answers(&vec![true, false]);
    let key = InputTarget::Key { code: evdev::Key::KEY_B.code() };
    assert_eq!(
        trace,
        vec![
            InputAction::CheckActive,
            InputAction::Press { target: InputTarget::Shift },
            InputAction::Press { target: key },
            InputAction::Sleep { ms: 5 },
            InputAction::CheckActive,
            InputAction::Release { target: key },
            InputAction::Release { target: InputTarget::Shift },
            InputAction::Finish { completed: false },
        ]
    );
}

#[test]
fn unknown_key_is_refused_unless_nothing_is_asked() {
    assert!(send_key_presses("nosuchkey", 1, 0, false, 0, false).is_none());
    let mut session = send_key_presses("nosuchkey", 0, 0, false, 0, false).unwrap();
    assert_eq!(session.run_with_answers(&vec![]), vec![InputAction::Finish { completed: true }]);
    assert!(send_key_presses_cross_platform(0, "nosuchkey", 2, 0, false, 0, false).is_none());
}

#[test]
fn digit_keys_never_hold_shift() {
    let mut session = send_key_presses_cross_platform(0x31, "1", 1, 0, false, 0, true).unwrap();
    let key = InputTarget::Key { code: evdev::Key::KEY_1.code() };
    assert_eq!(
        session.run_with_answers(&vec![]),
        vec![
            InputAction::CheckActive,
            InputAction::Press { target: key },
            InputAction::Release { target: key },
            InputAction::Finish { completed: true },
        ]
    );
}

#[test]
fn keyboard_diagnostic_texts() {
    assert_eq!(keyboard_diagnostic(true), "Wayland uinput keyboard backend - available");
    assert_eq!(keyboard_diagnostic(false), "Wayland uinput keyboard backend unavailable");
}
