use vstd::prelude::*;

use crate::mouse::{
    at_position, decode_linux_flag, sort_by_position, sorted_by_position, VirtualScreenRect,
};

verus! {

/// The cursor position that a pointer query reports, widened.
pub fn cursor_pos(root: Option<(i16, i16)>) -> (r: Option<(i32, i32)>)
    ensures
        r == match root {
            Some((x, y)) => Some((x as i32, y as i32)),
            None => None::<(i32, i32)>,
        },
{
    match root {
        Some((x, y)) => Some((x as i32, y as i32)),
        None => None,
    }
}

/// The rectangle of the root window of the given size.
pub fn virtual_screen(width_in_pixels: u16, height_in_pixels: u16) -> (r: VirtualScreenRect)
    ensures
        r == (VirtualScreenRect {
            left: 0,
            top: 0,
            width: width_in_pixels as i32,
            height: height_in_pixels as i32,
        }),
{
    VirtualScreenRect::new(0, 0, width_in_pixels as i32, height_in_pixels as i32)
}

/// A point in the 16-bit coordinates of a pointer warp: each coordinate
/// keeps its low 16 bits.
pub open spec fn cursor_target(x: i32, y: i32) -> (i16, i16) {
    (x as i16, y as i16)
}

/// The target of a pointer warp to `(x, y)`.
pub fn move_cursor(x: i32, y: i32) -> (r: (i16, i16))
    ensures
        r == cursor_target(x, y),
{
    (x as i16, y as i16)
}

/// The XTEST event for a button flag: type 4 (press) or 5 (release), and the
/// X11 button, where the middle button is 2 and the right one 3.
pub open spec fn button_event(flags: u32) -> (u8, u8) {
    let button = (flags / 16) % 256;
    let is_down = flags % 2 == 1;
    (if is_down { 4u8 } else { 5u8 }, if button == 2 { 3u8 } else if button == 3 { 2u8 } else { 1u8 })
}

/// The XTEST event type and button for a button flag.
pub fn send_button(flags: u32) -> (r: (u8, u8))
    ensures
        r == button_event(flags),
{
    let (button, is_down) = decode_linux_flag(flags);
    let event_type: u8 = if is_down { 4 } else { 5 };
    let x11_btn: u8 = if button == 2 { 3 } else if button == 3 { 2 } else { 1 };
    (event_type, x11_btn)
}

/// The rectangle of a RandR monitor given as x, y, width and height.
pub open spec fn monitor_rect(m: (i16, i16, u16, u16)) -> VirtualScreenRect {
    VirtualScreenRect { left: m.0 as i32, top: m.1 as i32, width: m.2 as i32, height: m.3 as i32 }
}

/// The monitor rectangles: those that RandR lists, in reading order (stable
/// by top, then left edge), when it lists any; else the whole screen as one
/// monitor, when it is known.
pub fn monitor_rects(
    randr: Option<Vec<(i16, i16, u16, u16)>>,
    screen: Option<VirtualScreenRect>,
) -> (r: Option<Vec<VirtualScreenRect>>)
    ensures
        (randr matches Some(ms) && ms@.len() > 0) ==> (r matches Some(v) && {
            &&& sorted_by_position(v@)
            &&& forall|top: i32, left: i32| #[trigger] v@.filter(at_position(top, left)) == randr->0@.map_values(
                |m: (i16, i16, u16, u16)| monitor_rect(m),
            ).filter(at_position(top, left))
        }),
        !(randr matches Some(ms) && ms@.len() > 0) ==> match screen {
            Some(s) => r matches Some(v) && v@ == seq![s],
            None => r is None,
        },
{
    if let Some(monitors) = randr {
        if monitors.len() > 0 {
            let mut rects: Vec<VirtualScreenRect> = Vec::new();
            let mut i: usize = 0;
            while i < monitors.len()
                invariant
                    i <= monitors@.len(),
                    rects@ == monitors@.take(i as int).map_values(
                        |m: (i16, i16, u16, u16)| monitor_rect(m),
                    ),
                decreases monitors@.len() - i,
            {
                let (x, y, w, h) = monitors[i];
                rects.push(VirtualScreenRect::new(x as i32, y as i32, w as i32, h as i32));
                proof {
                    assert(rects@ =~= monitors@.take(i + 1).map_values(
                        |m: (i16, i16, u16, u16)| monitor_rect(m),
                    ));
                }
                i = i + 1;
            }
            proof {
                assert(monitors@.take(monitors@.len() as int) =~= monitors@);
            }
            return Some(sort_by_position(rects));
        }
    }
    match screen {
        Some(s) => {
            let mut v = Vec::new();
            v.push(s);
            proof {
                assert(v@ =~= seq![s]);
            }
            Some(v)
        },
        None => None,
    }
}

} // verus!
