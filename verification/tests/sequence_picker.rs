use blur_autoclicker::sequence_picker::{
    classify_keyboard_message, classify_mouse_message, KeyboardHookDecision, MouseHookDecision,
};
use windows_sys::Win32::UI::Input::KeyboardAndMouse::{VK_ESCAPE, VK_SPACE};
use windows_sys::Win32::UI::WindowsAndMessaging::{
    WM_KEYDOWN, WM_KEYUP, WM_LBUTTONDOWN, WM_RBUTTONDOWN, WM_RBUTTONUP, WM_SYSKEYDOWN,
};

#[test]
fn right_button_down_picks_and_exits_without_shift() {
    assert_eq!(
        classify_mouse_message(WM_RBUTTONDOWN, false, false),
        MouseHookDecision::Pick {
            continue_picking: false
        }
    );
}

#[test]
fn shift_right_button_down_keeps_pick_mode_active() {
    assert_eq!(
        classify_mouse_message(WM_RBUTTONDOWN, true, false),
        MouseHookDecision::Pick {
            continue_picking: true
        }
    );
}

#[test]
fn right_button_up_is_swallowed() {
    assert_eq!(
        classify_mouse_message(WM_RBUTTONUP, false, false),
        MouseHookDecision::Swallow
    );
}

#[test]
fn non_right_clicks_pass_through() {
    assert_eq!(
        classify_mouse_message(WM_LBUTTONDOWN, false, false),
        MouseHookDecision::Pass
    );
}

#[test]
fn ctrl_right_button_down_deletes_point() {
    assert_eq!(
        classify_mouse_message(WM_RBUTTONDOWN, false, true),
        MouseHookDecision::Delete
    );
}

#[test]
fn ctrl_wins_over_shift_for_right_button_down() {
    assert_eq!(
        classify_mouse_message(WM_RBUTTONDOWN, true, true),
        MouseHookDecision::Delete
    );
}

#[test]
fn escape_key_down_cancels_picker() {
    assert_eq!(
        classify_keyboard_message(WM_KEYDOWN, VK_ESCAPE as u32),
        KeyboardHookDecision::Cancel
    );
}

#[test]
fn escape_sys_key_down_cancels_picker() {
    assert_eq!(
        classify_keyboard_message(WM_SYSKEYDOWN, VK_ESCAPE as u32),
        KeyboardHookDecision::Cancel
    );
}

#[test]
fn escape_key_up_passes_through() {
    assert_eq!(
        classify_keyboard_message(WM_KEYUP, VK_ESCAPE as u32),
        KeyboardHookDecision::Pass
    );
}

#[test]
fn other_keys_pass_through() {
    assert_eq!(
        classify_keyboard_message(WM_KEYDOWN, VK_SPACE as u32),
        KeyboardHookDecision::Pass
    );
}

#[test]
fn picker_constants_match_windows() {
    assert_eq!(blur_autoclicker::sequence_picker::WM_RBUTTONDOWN, WM_RBUTTONDOWN);
    assert_eq!(blur_autoclicker::sequence_picker::WM_RBUTTONUP, WM_RBUTTONUP);
    assert_eq!(blur_autoclicker::sequence_picker::WM_RBUTTONDBLCLK, windows_sys::Win32::UI::WindowsAndMessaging::WM_RBUTTONDBLCLK);
    assert_eq!(blur_autoclicker::sequence_picker::WM_KEYDOWN, WM_KEYDOWN);
    assert_eq!(blur_autoclicker::sequence_picker::WM_SYSKEYDOWN, WM_SYSKEYDOWN);
    assert_eq!(blur_autoclicker::sequence_picker::VK_ESCAPE, VK_ESCAPE as u32);
}
