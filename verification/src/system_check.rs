use vstd::prelude::*;

use crate::text::{chars_of, contains_seq, contains_str, lines, lines_of, parse_u32, spec_parse_u32, split_chars, split_on, views};

verus! {

broadcast use vstd::string::group_string_axioms;

/// What the system offers the clicker, and what the user should fix.
#[derive(Debug, Clone)]
pub struct SystemDepsInfo {
    pub display_server: String,
    pub uinput_accessible: bool,
    pub in_input_group: bool,
    pub uinput_module_loaded: bool,
    pub is_root: bool,
    pub mouse_backend: String,
    pub warnings: Vec<String>,
}

/// The texts of a list of strings.
pub open spec fn strings_view(v: Seq<String>) -> Seq<Seq<char>> {
    v.map_values(|s: String| s@)
}

/// The display server: X11 when `DISPLAY` is set, else Wayland when
/// `WAYLAND_DISPLAY` is set, else unknown.
pub open spec fn display_server_name(has_x11: bool, has_wayland: bool) -> Seq<char> {
    if has_x11 {
        "x11"@
    } else if has_wayland {
        "wayland"@
    } else {
        "unknown"@
    }
}

/// The name of the display server: `x11`, `wayland` or `unknown`.
pub fn display_server(has_x11: bool, has_wayland: bool) -> (r: String)
    ensures
        r@ == display_server_name(has_x11, has_wayland),
{
    if has_x11 {
        String::from_str("x11")
    } else if has_wayland {
        String::from_str("wayland")
    } else {
        String::from_str("unknown")
    }
}

/// The warning that the uinput module is not loaded.
pub open spec fn uinput_not_loaded_warning() -> Seq<char> {
    "uinput module not loaded.\nFix: sudo modprobe uinput\nTo persist: add 'uinput' to /etc/modules"@
}

/// The warning that the user is not in the input group.
pub open spec fn not_in_input_group_warning() -> Seq<char> {
    "User is not in the 'input' group - mouse clicking won't work on Wayland.\nFix: sudo usermod -aG input $USER\nThen log out and back in."@
}

/// The warning that the uinput device cannot be opened.
pub open spec fn uinput_not_accessible_warning() -> Seq<char> {
    "/dev/uinput exists but is not accessible.\nFix: sudo chmod 660 /dev/uinput"@
}

/// The warning that X11 runs under XWayland.
pub open spec fn xwayland_warning() -> Seq<char> {
    "XWayland detected: the X11 click backend only works on X11 windows. Native Wayland applications will not receive clicks."@
}

/// The warning that the X11 connection failed.
pub open spec fn x11_failed_warning() -> Seq<char> {
    "X11 connection failed. Check your DISPLAY environment variable and ensure X11 authentication is configured."@
}

/// The warnings for a system: without X11, what keeps uinput from working
/// (the module, then access, blamed on the input group when the user is not
/// in it); with X11 and Wayland both, that clicks reach X11 windows only;
/// and with X11, a failed connection.
pub open spec fn system_warnings(
    has_x11: bool,
    has_wayland: bool,
    uinput_module_loaded: bool,
    uinput_accessible: bool,
    in_input_group: bool,
    mouse_backend: Seq<char>,
) -> Seq<Seq<char>> {
    (if !has_x11 {
        if !uinput_module_loaded {
            seq![uinput_not_loaded_warning()]
        } else if !uinput_accessible {
            if !in_input_group {
                seq![not_in_input_group_warning()]
            } else {
                seq![uinput_not_accessible_warning()]
            }
        } else {
            seq![]
        }
    } else {
        seq![]
    }) + (if has_x11 && has_wayland {
        seq![xwayland_warning()]
    } else {
        seq![]
    }) + (if has_x11 && contains_seq(mouse_backend, "CONNECTION FAILED"@) {
        seq![x11_failed_warning()]
    } else {
        seq![]
    })
}

fn push_warning(warnings: &mut Vec<String>, text: &str)
    ensures
        strings_view(final(warnings)@) == strings_view(old(warnings)@).push(text@),
{
    warnings.push(String::from_str(text));
    proof {
        assert(strings_view(warnings@) =~= strings_view(old(warnings)@).push(text@));
    }
}

/// The report on a Linux system from what was found on it.
pub fn check_linux(
    has_x11: bool,
    has_wayland: bool,
    is_root: bool,
    uinput_module_loaded: bool,
    uinput_accessible: bool,
    in_input_group: bool,
    mouse_backend: String,
) -> (r: SystemDepsInfo)
    ensures
        r.display_server@ == display_server_name(has_x11, has_wayland),
        r.uinput_accessible == uinput_accessible,
        r.in_input_group == in_input_group,
        r.uinput_module_loaded == uinput_module_loaded,
        r.is_root == is_root,
        r.mouse_backend@ == mouse_backend@,
        strings_view(r.warnings@) == system_warnings(
            has_x11,
            has_wayland,
            uinput_module_loaded,
            uinput_accessible,
            in_input_group,
            mouse_backend@,
        ),
{
    let mut warnings: Vec<String> = Vec::new();
    if !has_x11 {
        if !uinput_module_loaded {
            push_warning(
                &mut warnings,
                "uinput module not loaded.\nFix: sudo modprobe uinput\nTo persist: add 'uinput' to /etc/modules",
            );
        } else if !uinput_accessible {
            if !in_input_group {
                push_warning(
                    &mut warnings,
                    "User is not in the 'input' group - mouse clicking won't work on Wayland.\nFix: sudo usermod -aG input $USER\nThen log out and back in.",
                );
            } else {
                push_warning(
                    &mut warnings,
                    "/dev/uinput exists but is not accessible.\nFix: sudo chmod 660 /dev/uinput",
                );
            }
        }
    }
    if has_x11 && has_wayland {
        push_warning(
            &mut warnings,
            "XWayland detected: the X11 click backend only works on X11 windows. Native Wayland applications will not receive clicks.",
        );
    }
    if has_x11 && contains_str(mouse_backend.as_str(), "CONNECTION FAILED") {
        push_warning(
            &mut warnings,
            "X11 connection failed. Check your DISPLAY environment variable and ensure X11 authentication is configured.",
        );
    }
    proof {
        assert(strings_view(warnings@) =~= system_warnings(
            has_x11,
            has_wayland,
            uinput_module_loaded,
            uinput_accessible,
            in_input_group,
            mouse_backend@,
        ));
    }
    SystemDepsInfo {
        display_server: display_server(has_x11, has_wayland),
        uinput_accessible,
        in_input_group,
        uinput_module_loaded,
        is_root,
        mouse_backend,
        warnings,
    }
}

/// The id of the group `name` in the group file lines `lines`: read in
/// order, each as `name:password:gid...`; a line with fewer than two colons
/// ends the search with nothing, and the id is what `u32::from_str` reads.
pub open spec fn group_gid(lines: Seq<Seq<char>>, name: Seq<char>) -> Option<nat>
    decreases lines.len(),
{
    if lines.len() == 0 {
        None
    } else {
        let fields = split_on(lines[0], ':');
        if fields.len() < 3 {
            None
        } else if fields[0] == name {
            spec_parse_u32(fields[2])
        } else {
            group_gid(lines.drop_first(), name)
        }
    }
}

/// The id of the group `name` in the contents of a group file.
pub fn get_group_gid(content: &str, name: &str) -> (r: Option<u32>)
    ensures
        match r {
            Some(g) => group_gid(lines(content@), name@) == Some(g as nat),
            None => group_gid(lines(content@), name@) is None,
        },
{
    let chars = chars_of(content);
    let all = lines_of(&chars);
    let ghost ls = views(all@);
    let name_chars = chars_of(name);
    let mut i: usize = 0;
    proof {
        assert(ls.skip(0) =~= ls);
    }
    while i < all.len()
        invariant
            ls == views(all@),
            ls == lines(content@),
            ls.len() == all@.len(),
            name_chars@ == name@,
            i <= all@.len(),
            group_gid(ls, name@) == group_gid(ls.skip(i as int), name@),
        decreases all@.len() - i,
    {
        proof {
            assert(ls.skip(i as int).drop_first() =~= ls.skip(i + 1));
            assert(ls.skip(i as int)[0] == all@[i as int]@);
        }
        let fields = split_chars(&all[i], ':');
        if fields.len() < 3 {
            return None;
        }
        let f0 = &fields[0];
        let mut same = f0.len() == name_chars.len();
        let mut k: usize = 0;
        while same && k < f0.len()
            invariant
                same ==> f0@.len() == name_chars@.len(),
                k <= f0@.len(),
                same ==> forall|j: int| 0 <= j < k ==> f0@[j] == name_chars@[j],
                !same ==> f0@ != name_chars@,
            decreases f0@.len() - k,
        {
            if f0[k] != name_chars[k] {
                same = false;
            }
            k = k + 1;
        }
        proof {
            if same {
                assert(f0@ =~= name_chars@);
            }
        }
        if same {
            return parse_u32(&fields[2]);
        }
        i = i + 1;
    }
    None
}

/// Whether the user is in the `input` group: the group file names its id
/// and it is among the user's groups.
pub fn is_in_input_group(group_file: &str, groups: &Vec<u32>) -> (r: bool)
    ensures
        r == match group_gid(lines(group_file@), "input"@) {
            Some(g) => groups@.contains(g as u32),
            None => false,
        },
{
    let gid = match get_group_gid(group_file, "input") {
        Some(g) => g,
        None => {
            return false;
        },
    };
    let mut i: usize = 0;
    while i < groups.len()
        invariant
            i <= groups@.len(),
            group_gid(lines(group_file@), "input"@) == Some(gid as nat),
            forall|j: int| 0 <= j < i ==> groups@[j] != gid,
        decreases groups@.len() - i,
    {
        if groups[i] == gid {
            proof {
                assert(groups@[i as int] == gid);
            }
            return true;
        }
        i = i + 1;
    }
    false
}

} // verus!
