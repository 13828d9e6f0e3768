use blur_autoclicker::keycodes;
use evdev::Key;

#[test]
fn key_codes_match_evdev() {
    let pairs: [(u16, Key); 122] = [
        (keycodes::KEY_ESC, Key::KEY_ESC),
        (keycodes::KEY_1, Key::KEY_1),
        (keycodes::KEY_2, Key::KEY_2),
        (keycodes::KEY_3, Key::KEY_3),
        (keycodes::KEY_4, Key::KEY_4),
        (keycodes::KEY_5, Key::KEY_5),
        (keycodes::KEY_6, Key::KEY_6),
        (keycodes::KEY_7, Key::KEY_7),
        (keycodes::KEY_8, Key::KEY_8),
        (keycodes::KEY_9, Key::KEY_9),
        (keycodes::KEY_0, Key::KEY_0),
        (keycodes::KEY_MINUS, Key::KEY_MINUS),
        (keycodes::KEY_EQUAL, Key::KEY_EQUAL),
        (keycodes::KEY_BACKSPACE, Key::KEY_BACKSPACE),
        (keycodes::KEY_TAB, Key::KEY_TAB),
        (keycodes::KEY_Q, Key::KEY_Q),
        (keycodes::KEY_W, Key::KEY_W),
        (keycodes::KEY_E, Key::KEY_E),
        (keycodes::KEY_R, Key::KEY_R),
        (keycodes::KEY_T, Key::KEY_T),
        (keycodes::KEY_Y, Key::KEY_Y),
        (keycodes::KEY_U, Key::KEY_U),
        (keycodes::KEY_I, Key::KEY_I),
        (keycodes::KEY_O, Key::KEY_O),
        (keycodes::KEY_P, Key::KEY_P),
        (keycodes::KEY_LEFTBRACE, Key::KEY_LEFTBRACE),
        (keycodes::KEY_RIGHTBRACE, Key::KEY_RIGHTBRACE),
        (keycodes::KEY_ENTER, Key::KEY_ENTER),
        (keycodes::KEY_LEFTCTRL, Key::KEY_LEFTCTRL),
        (keycodes::KEY_A, Key::KEY_A),
        (keycodes::KEY_S, Key::KEY_S),
        (keycodes::KEY_D, Key::KEY_D),
        (keycodes::KEY_F, Key::KEY_F),
        (keycodes::KEY_G, Key::KEY_G),
        (keycodes::KEY_H, Key::KEY_H),
        (keycodes::KEY_J, Key::KEY_J),
        (keycodes::KEY_K, Key::KEY_K),
        (keycodes::KEY_L, Key::KEY_L),
        (keycodes::KEY_SEMICOLON, Key::KEY_SEMICOLON),
        (keycodes::KEY_APOSTROPHE, Key::KEY_APOSTROPHE),
        (keycodes::KEY_GRAVE, Key::KEY_GRAVE),
        (keycodes::KEY_LEFTSHIFT, Key::KEY_LEFTSHIFT),
        (keycodes::KEY_BACKSLASH, Key::KEY_BACKSLASH),
        (keycodes::KEY_Z, Key::KEY_Z),
        (keycodes::KEY_X, Key::KEY_X),
        (keycodes::KEY_C, Key::KEY_C),
        (keycodes::KEY_V, Key::KEY_V),
        (keycodes::KEY_B, Key::KEY_B),
        (keycodes::KEY_N, Key::KEY_N),
        (keycodes::KEY_M, Key::KEY_M),
        (keycodes::KEY_COMMA, Key::KEY_COMMA),
        (keycodes::KEY_DOT, Key::KEY_DOT),
        (keycodes::KEY_SLASH, Key::KEY_SLASH),
        (keycodes::KEY_RIGHTSHIFT, Key::KEY_RIGHTSHIFT),
        (keycodes::KEY_KPASTERISK, Key::KEY_KPASTERISK),
        (keycodes::KEY_LEFTALT, Key::KEY_LEFTALT),
        (keycodes::KEY_SPACE, Key::KEY_SPACE),
        (keycodes::KEY_CAPSLOCK, Key::KEY_CAPSLOCK),
        (keycodes::KEY_F1, Key::KEY_F1),
        (keycodes::KEY_F2, Key::KEY_F2),
        (keycodes::KEY_F3, Key::KEY_F3),
        (keycodes::KEY_F4, Key::KEY_F4),
        (keycodes::KEY_F5, Key::KEY_F5),
        (keycodes::KEY_F6, Key::KEY_F6),
        (keycodes::KEY_F7, Key::KEY_F7),
        (keycodes::KEY_F8, Key::KEY_F8),
        (keycodes::KEY_F9, Key::KEY_F9),
        (keycodes::KEY_F10, Key::KEY_F10),
        (keycodes::KEY_NUMLOCK, Key::KEY_NUMLOCK),
        (keycodes::KEY_SCROLLLOCK, Key::KEY_SCROLLLOCK),
        (keycodes::KEY_KP7, Key::KEY_KP7),
        (keycodes::KEY_KP8, Key::KEY_KP8),
        (keycodes::KEY_KP9, Key::KEY_KP9),
        (keycodes::KEY_KPMINUS, Key::KEY_KPMINUS),
        (keycodes::KEY_KP4, Key::KEY_KP4),
        (keycodes::KEY_KP5, Key::KEY_KP5),
        (keycodes::KEY_KP6, Key::KEY_KP6),
        (keycodes::KEY_KPPLUS, Key::KEY_KPPLUS),
        (keycodes::KEY_KP1, Key::KEY_KP1),
        (keycodes::KEY_KP2, Key::KEY_KP2),
        (keycodes::KEY_KP3, Key::KEY_KP3),
        (keycodes::KEY_KP0, Key::KEY_KP0),
        (keycodes::KEY_KPDOT, Key::KEY_KPDOT),
        (keycodes::KEY_102ND, Key::KEY_102ND),
        (keycodes::KEY_F11, Key::KEY_F11),
        (keycodes::KEY_F12, Key::KEY_F12),
        (keycodes::KEY_KPENTER, Key::KEY_KPENTER),
        (keycodes::KEY_RIGHTCTRL, Key::KEY_RIGHTCTRL),
        (keycodes::KEY_KPSLASH, Key::KEY_KPSLASH),
        (keycodes::KEY_SYSRQ, Key::KEY_SYSRQ),
        (keycodes::KEY_RIGHTALT, Key::KEY_RIGHTALT),
        (keycodes::KEY_HOME, Key::KEY_HOME),
        (keycodes::KEY_UP, Key::KEY_UP),
        (keycodes::KEY_PAGEUP, Key::KEY_PAGEUP),
        (keycodes::KEY_LEFT, Key::KEY_LEFT),
        (keycodes::KEY_RIGHT, Key::KEY_RIGHT),
        (keycodes::KEY_END, Key::KEY_END),
        (keycodes::KEY_DOWN, Key::KEY_DOWN),
        (keycodes::KEY_PAGEDOWN, Key::KEY_PAGEDOWN),
        (keycodes::KEY_INSERT, Key::KEY_INSERT),
        (keycodes::KEY_DELETE, Key::KEY_DELETE),
        (keycodes::KEY_PAUSE, Key::KEY_PAUSE),
        (keycodes::KEY_LEFTMETA, Key::KEY_LEFTMETA),
        (keycodes::KEY_RIGHTMETA, Key::KEY_RIGHTMETA),
        (keycodes::KEY_F13, Key::KEY_F13),
        (keycodes::KEY_F14, Key::KEY_F14),
        (keycodes::KEY_F15, Key::KEY_F15),
        (keycodes::KEY_F16, Key::KEY_F16),
        (keycodes::KEY_F17, Key::KEY_F17),
        (keycodes::KEY_F18, Key::KEY_F18),
        (keycodes::KEY_F19, Key::KEY_F19),
        (keycodes::KEY_F20, Key::KEY_F20),
        (keycodes::KEY_F21, Key::KEY_F21),
        (keycodes::KEY_F22, Key::KEY_F22),
        (keycodes::KEY_F23, Key::KEY_F23),
        (keycodes::KEY_F24, Key::KEY_F24),
        (keycodes::KEY_MICMUTE, Key::KEY_MICMUTE),
        (keycodes::BTN_LEFT, Key::BTN_LEFT),
        (keycodes::BTN_RIGHT, Key::BTN_RIGHT),
        (keycodes::BTN_MIDDLE, Key::BTN_MIDDLE),
        (keycodes::BTN_SIDE, Key::BTN_SIDE),
        (keycodes::BTN_EXTRA, Key::BTN_EXTRA),
    ];
    for (code, key) in pairs {
        assert_eq!(code, key.code());
    }
}
