use vstd::prelude::*;

use crate::keycodes::{BTN_LEFT, BTN_MIDDLE, BTN_RIGHT};
use crate::mouse::decode_linux_flag;

verus! {

/// The uinput event for a button flag: the button code and 1 for a press,
/// 0 for a release.
pub open spec fn button_event(flags: u32) -> (u16, i32) {
    let button = (flags / 16) % 256;
    let is_down = flags % 2 == 1;
    (
        if button == 2 { BTN_RIGHT } else if button == 3 { BTN_MIDDLE } else { BTN_LEFT },
        if is_down { 1i32 } else { 0i32 },
    )
}

/// The uinput button code and value for a button flag.
pub fn send_button(flags: u32) -> (r: (u16, i32))
    ensures
        r == button_event(flags),
{
    let (button, is_down) = decode_linux_flag(flags);
    let code = if button == 2 {
        BTN_RIGHT
    } else if button == 3 {
        BTN_MIDDLE
    } else {
        BTN_LEFT
    };
    let value: i32 = if is_down { 1 } else { 0 };
    (code, value)
}

} // verus!
