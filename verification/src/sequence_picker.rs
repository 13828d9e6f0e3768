use vstd::prelude::*;

verus! {

/// Window messages and a virtual key that the point picker reacts to.
pub const WM_KEYDOWN: u32 = 0x0100;
pub const WM_KEYUP: u32 = 0x0101;
pub const WM_SYSKEYDOWN: u32 = 0x0104;
pub const WM_MOUSEMOVE: u32 = 0x0200;
pub const WM_LBUTTONDOWN: u32 = 0x0201;
pub const WM_RBUTTONDOWN: u32 = 0x0204;
pub const WM_RBUTTONUP: u32 = 0x0205;
pub const WM_RBUTTONDBLCLK: u32 = 0x0206;
pub const VK_ESCAPE: u32 = 0x1B;

/// What the point picker does with a mouse message.
#[derive(Clone, Copy, Debug, PartialEq, Eq, Structural)]
pub enum MouseHookDecision {
    /// Let the message through.
    Pass,
    /// Keep the message from the rest of the system.
    Swallow,
    /// Pick the point under the cursor; keep picking when asked.
    Pick { continue_picking: bool },
    /// Delete the point under the cursor.
    Delete,
}

/// What the point picker does with a keyboard message.
#[derive(Clone, Copy, Debug, PartialEq, Eq, Structural)]
pub enum KeyboardHookDecision {
    Pass,
    Cancel,
}

/// A right press picks a point, or deletes one with ctrl held (ctrl wins
/// over shift); shift keeps the picker open. The rest of a right click is
/// swallowed; other messages pass.
pub fn classify_mouse_message(message: u32, shift_down: bool, ctrl_down: bool) -> (r: MouseHookDecision)
    ensures
        message == WM_RBUTTONDOWN && ctrl_down ==> r == MouseHookDecision::Delete,
        message == WM_RBUTTONDOWN && !ctrl_down ==> r == (MouseHookDecision::Pick {
            continue_picking: shift_down,
        }),
        (message == WM_RBUTTONUP || message == WM_RBUTTONDBLCLK) ==> r == MouseHookDecision::Swallow,
        !(message == WM_RBUTTONDOWN || message == WM_RBUTTONUP || message == WM_RBUTTONDBLCLK) ==> r
            == MouseHookDecision::Pass,
{
    if message == WM_RBUTTONDOWN {
        if ctrl_down {
            MouseHookDecision::Delete
        } else {
            MouseHookDecision::Pick { continue_picking: shift_down }
        }
    } else if message == WM_RBUTTONUP || message == WM_RBUTTONDBLCLK {
        MouseHookDecision::Swallow
    } else {
        MouseHookDecision::Pass
    }
}

/// Escape pressed (as a key or a system key) cancels the picker; anything
/// else passes.
pub fn classify_keyboard_message(message: u32, virtual_key: u32) -> (r: KeyboardHookDecision)
    ensures
        r == if (message == WM_KEYDOWN || message == WM_SYSKEYDOWN) && virtual_key == VK_ESCAPE {
            KeyboardHookDecision::Cancel
        } else {
            KeyboardHookDecision::Pass
        },
{
    if (message == WM_KEYDOWN || message == WM_SYSKEYDOWN) && virtual_key == VK_ESCAPE {
        KeyboardHookDecision::Cancel
    } else {
        KeyboardHookDecision::Pass
    }
}

} // verus!
