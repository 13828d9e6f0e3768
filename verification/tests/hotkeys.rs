use std::collections::HashSet;

use blur_autoclicker::hotkeys::{
    apply_key_event, format_hotkey_binding, handle_hotkey_pressed, handle_hotkey_released,
    hold_release_stop_reason, hotkey_listener_step, is_binding_pressed, modifiers_match,
    modifiers_ok, normalize_hotkey, parse_hotkey_binding, parse_hotkey_main_key,
    register_hotkey_inner, token_to_evdev_key, ClickerCommand, HotkeyBinding, HotkeyEdge,
    ScrollTimes, VK_F1, VK_NUMPAD_ENTER_PSEUDO, VK_OEM_102, VK_SCROLL_UP_PSEUDO,
};
use blur_autoclicker::keycodes::{BTN_SIDE, KEY_A, KEY_KPENTER, KEY_LEFTCTRL, KEY_LEFTSHIFT, KEY_RIGHTALT};

#[test]
fn numpad_tokens_round_trip() {
    for token in [
        "numpad0", "numpad1", "numpad2", "numpad3", "numpad4",
        "numpad5", "numpad6", "numpad7", "numpad8", "numpad9",
        "numpadadd", "numpadsubtract", "numpadmultiply",
        "numpaddivide", "numpaddecimal", "numpadenter",
    ] {
        let hotkey = format!("ctrl+shift+{token}");
        let binding = parse_hotkey_binding(&hotkey).expect("token should parse");
        assert_eq!(binding.key_token, token);
        assert_eq!(format_hotkey_binding(&binding), hotkey);
    }
}

#[test]
fn empty_hotkeys_are_rejected() {
    assert!(parse_hotkey_binding("").is_err());
    assert!(parse_hotkey_binding("ctrl+").is_err());
}

#[test]
fn extra_modifiers_do_not_block_hotkeys_in_relaxed_mode() {
    let binding = parse_hotkey_binding("f11").expect("hotkey should parse");
    assert!(modifiers_match(&binding, false, false, true, false, false));
    assert!(modifiers_match(&binding, true, true, true, true, false));
}

#[test]
fn extra_modifiers_block_hotkeys_in_strict_mode() {
    let binding = parse_hotkey_binding("f11").expect("hotkey should parse");
    assert!(!modifiers_match(&binding, false, false, true, false, true));
    assert!(!modifiers_match(&binding, true, true, true, true, true));
    assert!(modifiers_match(&binding, false, false, false, false, true));
}

#[test]
fn normalize_lowercases_trims_and_renames_modifiers() {
    assert_eq!(normalize_hotkey("  Control+Shift+A "), "ctrl+shift+a");
    assert_eq!(normalize_hotkey("Command+Meta+Win+x"), "super+super+super+x");
}

#[test]
fn parse_reads_modifiers_and_key() {
    let b = parse_hotkey_binding("Ctrl + Alt + Shift + Super + F5").unwrap();
    assert!(b.ctrl && b.alt && b.shift && b.super_key);
    assert_eq!(b.main_vk, VK_F1 + 4);
    assert_eq!(b.key_token, "f5");
    assert_eq!(format_hotkey_binding(&b), "ctrl+alt+shift+super+f5");
}

#[test]
fn parse_error_messages() {
    assert_eq!(
        parse_hotkey_binding("ctrl+").unwrap_err(),
        "Invalid hotkey 'ctrl+': found empty key token"
    );
    assert_eq!(
        parse_hotkey_binding("a+b").unwrap_err(),
        "Invalid hotkey 'a+b': use modifiers first and only one main key"
    );
    assert_eq!(
        parse_hotkey_binding("ctrl+shift").unwrap_err(),
        "Invalid hotkey 'ctrl+shift': missing main key"
    );
    assert_eq!(
        parse_hotkey_binding("ctrl+x1").unwrap_err(),
        "Couldn't recognize 'x1' as a valid key in 'ctrl+x1'"
    );
}

#[test]
fn main_key_forms() {
    assert_eq!(parse_hotkey_main_key("keyA", "keyA"), Ok((65, String::from("a"))));
    assert_eq!(parse_hotkey_main_key("Digit5", "Digit5"), Ok((0x35, String::from("5"))));
    assert_eq!(parse_hotkey_main_key("F13", "F13"), Ok((VK_F1 + 12, String::from("f13"))));
    assert_eq!(parse_hotkey_main_key("f01", "f01"), Ok((VK_F1, String::from("f01"))));
    assert_eq!(parse_hotkey_main_key(" < ", "<"), Ok((VK_OEM_102, String::from("IntlBackslash"))));
    assert_eq!(parse_hotkey_main_key("wheelup", "wheelup"), Ok((VK_SCROLL_UP_PSEUDO, String::from("scrollup"))));
    assert_eq!(
        parse_hotkey_main_key("f25", "ctrl+f25"),
        Err(String::from("Couldn't recognize 'f25' as a valid key in 'ctrl+f25'"))
    );
    assert_eq!(
        parse_hotkey_main_key("key!", "key!"),
        Err(String::from("Couldn't recognize '!' as a valid key in 'key!'"))
    );
}

#[test]
fn format_writes_modifiers_in_order() {
    let b = HotkeyBinding {
        ctrl: false,
        alt: true,
        shift: false,
        super_key: true,
        main_vk: 0x41,
        key_token: String::from("a"),
    };
    assert_eq!(format_hotkey_binding(&b), "alt+super+a");
}

#[test]
fn register_sets_suppression_time() {
    let reg = register_hotkey_inner("ctrl+f6", 1_000).unwrap();
    assert_eq!(reg.suppress_until_ms, 1_250);
    assert!(reg.suppress_until_release);
    assert_eq!(reg.display, "ctrl+f6");
    let reg = register_hotkey_inner("f6", u64::MAX - 10).unwrap();
    assert_eq!(reg.suppress_until_ms, u64::MAX);
    assert!(register_hotkey_inner("", 0).is_err());
}

#[test]
fn listener_reports_edges_only_outside_suppression() {
    let t = hotkey_listener_step(false, true, false, false, 0, 10);
    assert_eq!(t.edge, HotkeyEdge::Pressed);
    assert!(t.was_pressed);
    let t = hotkey_listener_step(true, false, false, false, 0, 10);
    assert_eq!(t.edge, HotkeyEdge::Released);
    let t = hotkey_listener_step(false, true, true, false, 0, 10);
    assert_eq!(t.edge, HotkeyEdge::Idle);
    let t = hotkey_listener_step(false, true, false, false, 100, 10);
    assert_eq!(t.edge, HotkeyEdge::Idle);
    assert!(t.was_pressed);
}

#[test]
fn registered_hotkey_waits_for_release() {
    let mut was = false;
    let mut until_release = true;
    let mut edges = Vec::new();
    for pressed in [true, true, false, true, false] {
        let t = hotkey_listener_step(was, pressed, false, until_release, 0, 1_000);
        was = t.was_pressed;
        if t.clear_release_suppression {
            until_release = false;
        }
        edges.push(t.edge);
    }
    assert_eq!(
        edges,
        vec![HotkeyEdge::Idle, HotkeyEdge::Idle, HotkeyEdge::Idle, HotkeyEdge::Pressed, HotkeyEdge::Released]
    );
}

#[test]
fn hotkey_commands_by_mode() {
    assert_eq!(handle_hotkey_pressed("Toggle"), ClickerCommand::Toggle);
    assert_eq!(handle_hotkey_pressed("Hold"), ClickerCommand::Start);
    assert_eq!(handle_hotkey_pressed("Other"), ClickerCommand::Nothing);
    assert_eq!(handle_hotkey_released("Hold"), ClickerCommand::Stop);
    assert_eq!(handle_hotkey_released("Toggle"), ClickerCommand::Nothing);
    assert_eq!(hold_release_stop_reason(), "Stopped from hold hotkey");
}

#[test]
fn hotkey_key_names_match_evdev() {
    assert_eq!(token_to_evdev_key("a"), Some(evdev::Key::KEY_A.code()));
    assert_eq!(token_to_evdev_key("A"), None);
    assert_eq!(token_to_evdev_key("f24"), Some(evdev::Key::KEY_F24.code()));
    assert_eq!(token_to_evdev_key("numpadenter"), Some(evdev::Key::KEY_KPENTER.code()));
    assert_eq!(token_to_evdev_key("intlbackslash"), Some(evdev::Key::KEY_102ND.code()));
    assert_eq!(token_to_evdev_key("/"), Some(evdev::Key::KEY_SLASH.code()));
    assert_eq!(token_to_evdev_key("esc"), None);
}

#[test]
fn key_events_track_held_keys() {
    let mut keys = HashSet::new();
    apply_key_event(&mut keys, KEY_A, 1);
    assert!(keys.contains(&KEY_A));
    apply_key_event(&mut keys, KEY_A, 2);
    assert!(keys.contains(&KEY_A));
    apply_key_event(&mut keys, KEY_A, 0);
    assert!(!keys.contains(&KEY_A));
    apply_key_event(&mut keys, KEY_A, 7);
    assert!(!keys.contains(&KEY_A));
}

#[test]
fn binding_pressed_from_held_keys() {
    let binding = parse_hotkey_binding("ctrl+a").unwrap();
    let scroll = ScrollTimes::new();
    let mut keys = HashSet::new();
    keys.insert(KEY_A);
    assert!(!is_binding_pressed(&binding, false, &keys, &scroll, 0));
    keys.insert(KEY_LEFTCTRL);
    assert!(modifiers_ok(&binding, true, &keys));
    assert!(is_binding_pressed(&binding, false, &keys, &scroll, 0));
    keys.insert(KEY_LEFTSHIFT);
    assert!(is_binding_pressed(&binding, false, &keys, &scroll, 0));
    assert!(!is_binding_pressed(&binding, true, &keys, &scroll, 0));
    keys.insert(KEY_RIGHTALT);
    assert!(!modifiers_ok(&binding, true, &keys));
}

#[test]
fn scroll_and_pseudo_keys() {
    let up = parse_hotkey_binding("scrollup").unwrap();
    assert_eq!(up.main_vk, VK_SCROLL_UP_PSEUDO);
    let keys = HashSet::new();
    let mut scroll = ScrollTimes::new();
    assert!(!is_binding_pressed(&up, false, &keys, &scroll, 5_000));
    scroll.record_wheel(1, 5_000);
    assert!(is_binding_pressed(&up, false, &keys, &scroll, 5_100));
    assert!(!is_binding_pressed(&up, false, &keys, &scroll, 5_200));
    scroll.record_wheel(-3, 6_000);
    assert_eq!(scroll.up_at, 5_000);
    assert_eq!(scroll.down_at, 6_000);

    let enter = parse_hotkey_binding("numpadenter").unwrap();
    assert_eq!(enter.main_vk, VK_NUMPAD_ENTER_PSEUDO);
    let mut keys = HashSet::new();
    keys.insert(KEY_KPENTER);
    assert!(is_binding_pressed(&enter, false, &keys, &scroll, 0));

    let side = parse_hotkey_binding("mouse4").unwrap();
    let mut keys = HashSet::new();
    keys.insert(BTN_SIDE);
    assert!(is_binding_pressed(&side, false, &keys, &scroll, 0));
}

#[test]
fn parsed_hotkeys_read_back_after_writing() {
    for text in ["ctrl+F12", "Ctrl + <", "shift+Digit5", "Meta+F01", "alt+keyQ", "win+period", "numpadenter"] {
        let binding = parse_hotkey_binding(text).expect("hotkey should parse");
        let written = format_hotkey_binding(&binding);
        assert_eq!(parse_hotkey_binding(&written), Ok(binding));
    }
    let b = parse_hotkey_binding("ctrl+<").unwrap();
    assert_eq!(format_hotkey_binding(&b), "ctrl+IntlBackslash");
}

#[test]
fn non_ascii_hotkeys_read_back_after_writing() {
    let binding = parse_hotkey_binding("Ctrl+\u{212A}").expect("the Kelvin sign lowercases to k");
    assert_eq!(binding.key_token, "k");
    assert_eq!(binding.main_vk, 0x4B);
    let written = format_hotkey_binding(&binding);
    assert_eq!(written, "ctrl+k");
    assert_eq!(parse_hotkey_binding(&written), Ok(binding));
    assert!(parse_hotkey_binding("ctrl+\u{e9}").is_err());
}
