use blur_autoclicker::engine::{use_sequence, SequenceTarget};
use blur_autoclicker::system_check::{check_linux, display_server, get_group_gid, is_in_input_group};

#[test]
fn display_server_names() {
    assert_eq!(display_server(true, true), "x11");
    assert_eq!(display_server(false, true), "wayland");
    assert_eq!(display_server(false, false), "unknown");
}

#[test]
fn wayland_without_uinput_module() {
    let info = check_linux(false, true, false, false, false, false, String::from("Wayland uinput backend"));
    assert_eq!(info.display_server, "wayland");
    assert_eq!(
        info.warnings,
        vec![String::from(
            "uinput module not loaded.\nFix: sudo modprobe uinput\nTo persist: add 'uinput' to /etc/modules"
        )]
    );
}

#[test]
fn wayland_without_input_group() {
    let info = check_linux(false, true, false, true, false, false, String::new());
    assert_eq!(info.warnings.len(), 1);
    assert!(info.warnings[0].starts_with("User is not in the 'input' group"));
    let info = check_linux(false, true, false, true, false, true, String::new());
    assert_eq!(
        info.warnings,
        vec![String::from("/dev/uinput exists but is not accessible.\nFix: sudo chmod 660 /dev/uinput")]
    );
    let info = check_linux(false, true, true, true, true, true, String::new());
    assert!(info.warnings.is_empty());
    assert!(info.is_root);
}

#[test]
fn xwayland_with_failed_connection() {
    let backend = String::from("X11 backend (DISPLAY=None) - CONNECTION FAILED: refused");
    let info = check_linux(true, true, false, false, false, false, backend.clone());
    assert_eq!(info.display_server, "x11");
    assert_eq!(info.mouse_backend, backend);
    assert_eq!(info.warnings.len(), 2);
    assert!(info.warnings[0].starts_with("XWayland detected"));
    assert!(info.warnings[1].starts_with("X11 connection failed"));
}

#[test]
fn group_ids_from_group_file() {
    let file = "root:x:0:\nwheel:x:10:alice\r\ninput:x:104:alice,bob\n";
    assert_eq!(get_group_gid(file, "input"), Some(104));
    assert_eq!(get_group_gid(file, "wheel"), Some(10));
    assert_eq!(get_group_gid(file, "video"), None);
    assert_eq!(get_group_gid("input:x:+7", "input"), Some(7));
    assert_eq!(get_group_gid("input:x:", "input"), None);
    assert_eq!(get_group_gid("input:x:-1:", "input"), None);
    assert_eq!(get_group_gid("broken\ninput:x:104:", "input"), None);
    assert_eq!(get_group_gid("\ninput:x:104:", "input"), None);
    assert_eq!(get_group_gid("", "input"), None);
    assert_eq!(get_group_gid("input:x:4294967296:", "input"), None);
}

#[test]
fn input_group_membership() {
    let file = "input:x:104:\n";
    assert!(is_in_input_group(file, &vec![1000, 104]));
    assert!(!is_in_input_group(file, &vec![1000]));
    assert!(!is_in_input_group("video:x:44:\n", &vec![44]));
}

#[test]
fn sequences_need_points() {
    let p = SequenceTarget { x: 1, y: 2, clicks: 3 };
    assert!(use_sequence(true, &vec![p]));
    assert!(!use_sequence(true, &vec![]));
    assert!(!use_sequence(false, &vec![p]));
}
