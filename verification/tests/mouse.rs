use blur_autoclicker::cycle::ClickCyclePlan;
use blur_autoclicker::mouse::{
    current_cursor_position, current_monitor_rects, current_virtual_screen_rect, decode_linux_flag,
    get_button_flags, get_cursor_pos, linux_mouse_diagnostic, move_mouse, send_batch, send_clicks,
    send_mouse_event, set_cached_monitor_rects, set_cached_virtual_screen_rect, sort_by_position,
    uinput, virtual_screen_bounds, x11, BackendProbe, MouseButtonEvent, ScreenCache,
    VirtualScreenRect, LEFT_DOWN, LEFT_UP, MIDDLE_DOWN, RIGHT_DOWN, RIGHT_UP,
};
use blur_autoclicker::script::{InputAction, InputTarget};

#[test]
fn rect_edges_and_containment() {
    let r = VirtualScreenRect::new(-100, 50, 300, 200);
    assert_eq!(r.right(), 200);
    assert_eq!(r.bottom(), 250);
    assert!(r.contains(-100, 50));
    assert!(r.contains(199, 249));
    assert!(!r.contains(200, 100));
    assert!(!r.contains(0, 250));
    let o = r.offset_from(VirtualScreenRect::new(-200, 10, 1, 1));
    assert_eq!(o, VirtualScreenRect::new(100, 40, 300, 200));
}

#[test]
fn cache_reads_back_what_was_set() {
    let mut cache = ScreenCache::new();
    assert_eq!(current_virtual_screen_rect(&cache, None), None);
    let screen = VirtualScreenRect::new(0, 0, 1920, 1080);
    set_cached_virtual_screen_rect(&mut cache, screen);
    assert_eq!(current_virtual_screen_rect(&cache, None), Some(screen));
    let live = VirtualScreenRect::new(0, 0, 800, 600);
    assert_eq!(current_virtual_screen_rect(&cache, Some(live)), Some(live));
    assert_eq!(current_monitor_rects(&cache, false, None), Some(vec![screen]));
    let monitors = vec![VirtualScreenRect::new(0, 0, 960, 1080), VirtualScreenRect::new(960, 0, 960, 1080)];
    set_cached_monitor_rects(&mut cache, monitors.clone());
    assert_eq!(current_monitor_rects(&cache, true, None), Some(monitors.clone()));
    assert_eq!(current_monitor_rects(&cache, true, Some(vec![live])), Some(vec![live]));
    assert_eq!(current_monitor_rects(&cache, false, None), Some(monitors.clone()));
}

#[test]
fn wayland_monitors_prefer_cached_monitors() {
    let mut cache = ScreenCache::new();
    assert_eq!(current_monitor_rects(&cache, false, None), None);
    assert_eq!(current_monitor_rects(&cache, true, None), None);
    let monitors = vec![VirtualScreenRect::new(0, 0, 1920, 1080), VirtualScreenRect::new(1920, 0, 1280, 1024)];
    set_cached_virtual_screen_rect(&mut cache, VirtualScreenRect::new(0, 0, 3200, 1080));
    set_cached_monitor_rects(&mut cache, monitors.clone());
    assert_eq!(current_monitor_rects(&cache, false, None), Some(monitors));
}

#[test]
fn cursor_position_only_under_x11() {
    assert_eq!(current_cursor_position(true, Some((3, 4))), Some((3, 4)));
    assert_eq!(current_cursor_position(false, Some((3, 4))), None);
    assert_eq!(get_cursor_pos(None), (0, 0));
    assert_eq!(get_cursor_pos(Some((7, -2))), (7, -2));
    assert_eq!(x11::cursor_pos(Some((-5, 6))), Some((-5, 6)));
}

#[test]
fn cursor_moves_wrap_to_16_bits_under_x11() {
    assert_eq!(move_mouse(true, 70_000, -1), Some((4_464, -1)));
    assert_eq!(move_mouse(false, 10, 10), None);
}

#[test]
fn button_flags_round_trip() {
    assert_eq!(get_button_flags(1), (LEFT_DOWN, LEFT_UP));
    assert_eq!(get_button_flags(2), (RIGHT_DOWN, RIGHT_UP));
    assert_eq!(get_button_flags(7), (LEFT_DOWN, LEFT_UP));
    assert_eq!(decode_linux_flag(RIGHT_DOWN), (2, true));
    assert_eq!(decode_linux_flag(RIGHT_UP), (2, false));
    assert_eq!(decode_linux_flag(MIDDLE_DOWN), (3, true));
}

#[test]
fn backend_button_events() {
    assert_eq!(x11::send_button(LEFT_DOWN), (4, 1));
    assert_eq!(x11::send_button(RIGHT_UP), (5, 3));
    assert_eq!(x11::send_button(MIDDLE_DOWN), (4, 2));
    assert_eq!(uinput::send_button(RIGHT_DOWN), (evdev::Key::BTN_RIGHT.code(), 1));
    assert_eq!(uinput::send_button(MIDDLE_DOWN), (evdev::Key::BTN_MIDDLE.code(), 1));
    assert_eq!(uinput::send_button(LEFT_UP), (evdev::Key::BTN_LEFT.code(), 0));
    assert_eq!(send_mouse_event(true, RIGHT_DOWN), MouseButtonEvent::X11 { event_type: 4, button: 3 });
    assert_eq!(
        send_mouse_event(false, RIGHT_UP),
        MouseButtonEvent::Uinput { code: evdev::Key::BTN_RIGHT.code(), value: 0 }
    );
}

#[test]
fn instant_single_clicks_go_out_as_a_batch() {
    let t = InputTarget::MouseButton { down_flag: LEFT_DOWN, up_flag: LEFT_UP };
    let mut s = send_clicks(LEFT_DOWN, LEFT_UP, 2, ClickCyclePlan::single(0));
    assert_eq!(
        s.run_with_answers(&vec![false]),
        vec![
            InputAction::Press { target: t },
            InputAction::Release { target: t },
            InputAction::Press { target: t },
            InputAction::Release { target: t },
            InputAction::Finish { completed: true },
        ]
    );
    let mut b = send_batch(LEFT_DOWN, LEFT_UP, 0);
    assert_eq!(b.run_with_answers(&vec![]), vec![InputAction::Finish { completed: true }]);
}

#[test]
fn held_clicks_check_each_cycle_and_stop() {
    let t = InputTarget::MouseButton { down_flag: LEFT_DOWN, up_flag: LEFT_UP };
    let mut s = send_clicks(LEFT_DOWN, LEFT_UP, 3, ClickCyclePlan::single(10));
    assert_eq!(
        s.run_with_answers(&vec![true, true, false]),
        vec![
            InputAction::CheckActive,
            InputAction::Press { target: t },
            InputAction::Sleep { ms: 10 },
            InputAction::CheckActive,
            InputAction::Release { target: t },
            InputAction::CheckActive,
            InputAction::Finish { completed: false },
        ]
    );
}

#[test]
fn monitors_sort_by_top_then_left_stably() {
    let a = VirtualScreenRect::new(1920, 0, 1280, 1024);
    let b = VirtualScreenRect::new(0, 0, 1920, 1080);
    let c = VirtualScreenRect::new(0, -300, 800, 300);
    let d = VirtualScreenRect::new(0, 0, 640, 480);
    assert_eq!(sort_by_position(vec![a, b, c, d]), vec![c, b, d, a]);
}

#[test]
fn randr_monitors_or_screen() {
    let got = x11::monitor_rects(Some(vec![(1920, 0, 1280, 1024), (0, 0, 1920, 1080)]), None);
    assert_eq!(
        got,
        Some(vec![VirtualScreenRect::new(0, 0, 1920, 1080), VirtualScreenRect::new(1920, 0, 1280, 1024)])
    );
    let screen = x11::virtual_screen(2560, 1440);
    assert_eq!(screen, VirtualScreenRect::new(0, 0, 2560, 1440));
    assert_eq!(x11::monitor_rects(Some(vec![]), Some(screen)), Some(vec![screen]));
    assert_eq!(x11::monitor_rects(None, None), None);
}

#[test]
fn bounds_around_monitors() {
    let rects = vec![VirtualScreenRect::new(-1280, 100, 1280, 1024), VirtualScreenRect::new(0, 0, 1920, 1080)];
    assert_eq!(virtual_screen_bounds(&rects), Some(VirtualScreenRect::new(-1280, 0, 3200, 1124)));
    assert_eq!(virtual_screen_bounds(&vec![]), None);
}

#[test]
fn mouse_backend_reports() {
    assert_eq!(
        linux_mouse_diagnostic(
            "Some(\":0\")",
            &BackendProbe::X11 { connection: Ok(true), wayland_display_set: false }
        ),
        "X11 backend (DISPLAY=Some(\":0\")) - XTEST extension available"
    );
    assert_eq!(
        linux_mouse_diagnostic(
            "Some(\":0\")",
            &BackendProbe::X11 { connection: Ok(false), wayland_display_set: true }
        ),
        "X11 backend (DISPLAY=Some(\":0\")) - XTEST extension MISSING | WARNING: running under XWayland - clicks only affect X11 windows, not native Wayland apps"
    );
    assert_eq!(
        linux_mouse_diagnostic(
            "None",
            &BackendProbe::X11 { connection: Err(String::from("refused")), wayland_display_set: false }
        ),
        "X11 backend (DISPLAY=None) - CONNECTION FAILED: refused"
    );
    assert_eq!(
        linux_mouse_diagnostic("None", &BackendProbe::Uinput { exists: true, writable: false }),
        "Wayland uinput backend - /dev/uinput exists but is NOT writable (user not in 'input' group?)"
    );
}
