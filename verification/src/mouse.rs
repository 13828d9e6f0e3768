pub mod uinput;
pub mod x11;

use vstd::prelude::*;

use crate::cycle::{
    click_cycle_ops, click_pattern, lemma_click_cycle_repeats, lemma_click_cycle_restores,
    lemma_press_around_restores, plan_clicks, ClickCycleKind, ClickCyclePlan,
};
use crate::script::{
    held_after, hold_ops, hold_pattern, lemma_hold_repeats, lemma_restores_check_sleep,
    lemma_session_leaves_nothing_held, lemma_session_repeats, lemma_stopped_run_shape, press_ops,
    release_ops, releases, restores_held, run_ops, runs_repeat, session_ops, stops_after_check,
    InputAction, InputOp, InputSession, InputTarget, SessionPhase,
};

verus! {

/// A rectangle of the desktop, in pixels.
#[derive(Clone, Copy, Debug, PartialEq, Eq, Structural)]
pub struct VirtualScreenRect {
    pub left: i32,
    pub top: i32,
    pub width: i32,
    pub height: i32,
}

/// Whether `v` fits in an `i32`.
pub open spec fn fits_i32(v: int) -> bool {
    i32::MIN <= v <= i32::MAX
}

impl VirtualScreenRect {
    /// The rectangle with the given left and top edges and size.
    pub fn new(left: i32, top: i32, width: i32, height: i32) -> (r: Self)
        ensures
            r == (VirtualScreenRect { left, top, width, height }),
    {
        VirtualScreenRect { left, top, width, height }
    }

    /// The first column right of the rectangle.
    pub fn right(self) -> (r: i32)
        requires
            fits_i32(self.left + self.width),
        ensures
            r == self.left + self.width,
    {
        self.left + self.width
    }

    /// The first row below the rectangle.
    pub fn bottom(self) -> (r: i32)
        requires
            fits_i32(self.top + self.height),
        ensures
            r == self.top + self.height,
    {
        self.top + self.height
    }

    /// Whether the pixel `(x, y)` lies in the rectangle.
    pub fn contains(self, x: i32, y: i32) -> (r: bool)
        requires
            fits_i32(self.left + self.width),
            fits_i32(self.top + self.height),
        ensures
            r == (self.left <= x < self.left + self.width && self.top <= y < self.top + self.height),
    {
        x >= self.left && x < self.right() && y >= self.top && y < self.bottom()
    }

    /// The rectangle in coordinates relative to the corner of `origin`.
    pub fn offset_from(self, origin: VirtualScreenRect) -> (r: Self)
        requires
            fits_i32(self.left - origin.left),
            fits_i32(self.top - origin.top),
        ensures
            r == (VirtualScreenRect {
                left: (self.left - origin.left) as i32,
                top: (self.top - origin.top) as i32,
                width: self.width,
                height: self.height,
            }),
    {
        Self::new(self.left - origin.left, self.top - origin.top, self.width, self.height)
    }
}

/// Whether `a` comes no later than `b` in reading order: by top edge, then
/// by left edge.
pub open spec fn position_le(a: VirtualScreenRect, b: VirtualScreenRect) -> bool {
    a.top < b.top || (a.top == b.top && a.left <= b.left)
}

/// Whether rectangles are in reading order.
pub open spec fn sorted_by_position(s: Seq<VirtualScreenRect>) -> bool {
    forall|i: int, j: int| 0 <= i < j < s.len() ==> position_le(#[trigger] s[i], #[trigger] s[j])
}

/// The rectangles whose corner is at `(left, top)`.
pub open spec fn at_position(top: i32, left: i32) -> spec_fn(VirtualScreenRect) -> bool {
    |r: VirtualScreenRect| r.top == top && r.left == left
}

proof fn lemma_filter_none(s: Seq<VirtualScreenRect>, pred: spec_fn(VirtualScreenRect) -> bool)
    requires
        forall|i: int| 0 <= i < s.len() ==> !pred(#[trigger] s[i]),
    ensures
        s.filter(pred) == Seq::<VirtualScreenRect>::empty(),
    decreases s.len(),
{
    reveal(Seq::filter);
    if s.len() > 0 {
        lemma_filter_none(s.drop_last(), pred);
    }
}

/// The rectangles in reading order, those at the same corner kept in the
/// order they came (a stable sort by top edge, then left edge).
pub fn sort_by_position(rects: Vec<VirtualScreenRect>) -> (r: Vec<VirtualScreenRect>)
    ensures
        sorted_by_position(r@),
        forall|top: i32, left: i32| #[trigger] r@.filter(at_position(top, left)) == rects@.filter(
            at_position(top, left),
        ),
{
    let mut out: Vec<VirtualScreenRect> = Vec::new();
    let mut i: usize = 0;
    proof {
        reveal(Seq::filter);
        assert forall|top: i32, left: i32| #[trigger] out@.filter(at_position(top, left))
            == rects@.take(0).filter(at_position(top, left)) by {
            assert(rects@.take(0) =~= Seq::<VirtualScreenRect>::empty());
        }
    }
    while i < rects.len()
        invariant
            i <= rects@.len(),
            sorted_by_position(out@),
            forall|top: i32, left: i32| #[trigger] out@.filter(at_position(top, left))
                == rects@.take(i as int).filter(at_position(top, left)),
        decreases rects@.len() - i,
    {
        let x = rects[i];
        let mut p: usize = 0;
        while p < out.len() && (out[p].top < x.top || (out[p].top == x.top && out[p].left <= x.left))
            invariant
                p <= out@.len(),
                forall|q: int| 0 <= q < p ==> position_le(#[trigger] out@[q], x),
            decreases out@.len() - p,
        {
            p = p + 1;
        }
        let ghost old_out = out@;
        proof {
            assert forall|q: int| p <= q < old_out.len() implies !position_le(#[trigger] old_out[q], x) by {
                assert(!position_le(old_out[p as int], x));
                if q > p {
                    assert(position_le(old_out[p as int], old_out[q]));
                }
            }
        }
        out.insert(p, x);
        proof {
            let a = old_out.take(p as int);
            let b = old_out.skip(p as int);
            assert(old_out =~= a + b);
            assert(out@ =~= a + seq![x] + b);
            assert forall|m: int, n: int| 0 <= m < n < out@.len() implies position_le(#[trigger] out@[m], #[trigger] out@[n]) by {
                if n < p {
                } else if n == p {
                    assert(out@[m] == old_out[m]);
                } else if m < p {
                    assert(out@[n] == old_out[n - 1]);
                    assert(position_le(old_out[m], old_out[n - 1]));
                } else if m == p {
                    assert(out@[n] == old_out[n - 1]);
                    assert(!position_le(old_out[n - 1], x));
                } else {
                    assert(out@[m] == old_out[m - 1]);
                    assert(out@[n] == old_out[n - 1]);
                }
            }
            assert(rects@.take(i + 1) =~= rects@.take(i as int).push(x));
            assert forall|top: i32, left: i32| #[trigger] out@.filter(at_position(top, left))
                == rects@.take(i + 1).filter(at_position(top, left)) by {
                let pred = at_position(top, left);
                Seq::filter_distributes_over_add(a + seq![x], b, pred);
                Seq::filter_distributes_over_add(a, seq![x], pred);
                Seq::filter_distributes_over_add(a, b, pred);
                rects@.take(i as int).lemma_filter_push(x, pred);
                Seq::<VirtualScreenRect>::empty().lemma_filter_push(x, pred);
                assert(seq![x] =~= Seq::<VirtualScreenRect>::empty().push(x));
                assert(Seq::<VirtualScreenRect>::empty().filter(pred) =~= Seq::<VirtualScreenRect>::empty()) by {
                    reveal(Seq::filter);
                }
                if pred(x) {
                    assert forall|q: int| 0 <= q < b.len() implies !pred(#[trigger] b[q]) by {
                        assert(b[q] == old_out[p + q]);
                        assert(!position_le(old_out[p + q], x));
                    }
                    lemma_filter_none(b, pred);
                    assert(a.filter(pred) + seq![x] + b.filter(pred) =~= (a.filter(pred) + b.filter(pred)).push(x));
                } else {
                    assert(a.filter(pred) + Seq::<VirtualScreenRect>::empty() + b.filter(pred) =~= a.filter(pred) + b.filter(pred));
                }
            }
        }
        i = i + 1;
    }
    proof {
        assert(rects@.take(rects@.len() as int) =~= rects@);
    }
    out
}

/// The smaller of `a` and `b`.
pub open spec fn min_i(a: int, b: int) -> int {
    if a <= b { a } else { b }
}

/// The larger of `a` and `b`.
pub open spec fn max_i(a: int, b: int) -> int {
    if a >= b { a } else { b }
}

/// The smallest left edge of non-empty `s`.
pub open spec fn min_left(s: Seq<VirtualScreenRect>) -> int
    decreases s.len(),
{
    if s.len() <= 1 { s[0].left as int } else { min_i(min_left(s.drop_last()), s.last().left as int) }
}

/// The smallest top edge of non-empty `s`.
pub open spec fn min_top(s: Seq<VirtualScreenRect>) -> int
    decreases s.len(),
{
    if s.len() <= 1 { s[0].top as int } else { min_i(min_top(s.drop_last()), s.last().top as int) }
}

/// The largest right edge of non-empty `s`.
pub open spec fn max_right(s: Seq<VirtualScreenRect>) -> int
    decreases s.len(),
{
    if s.len() <= 1 {
        s[0].left + s[0].width
    } else {
        max_i(max_right(s.drop_last()), s.last().left + s.last().width)
    }
}

/// The largest bottom edge of non-empty `s`.
pub open spec fn max_bottom(s: Seq<VirtualScreenRect>) -> int
    decreases s.len(),
{
    if s.len() <= 1 {
        s[0].top + s[0].height
    } else {
        max_i(max_bottom(s.drop_last()), s.last().top + s.last().height)
    }
}

/// Whether the edges of every rectangle, and the size of the box around
/// them all, fit in an `i32`.
pub open spec fn bounds_fit(s: Seq<VirtualScreenRect>) -> bool {
    &&& forall|i: int| 0 <= i < s.len() ==> fits_i32(#[trigger] s[i].left + s[i].width) && fits_i32(s[i].top + s[i].height)
    &&& s.len() > 0 ==> fits_i32(max_right(s) - min_left(s)) && fits_i32(max_bottom(s) - min_top(s))
}

/// The smallest rectangle around all the monitors, none when there are
/// none.
pub fn virtual_screen_bounds(rects: &Vec<VirtualScreenRect>) -> (r: Option<VirtualScreenRect>)
    requires
        bounds_fit(rects@),
    ensures
        rects@.len() == 0 ==> r is None,
        rects@.len() > 0 ==> r == Some(
            VirtualScreenRect {
                left: min_left(rects@) as i32,
                top: min_top(rects@) as i32,
                width: (max_right(rects@) - min_left(rects@)) as i32,
                height: (max_bottom(rects@) - min_top(rects@)) as i32,
            },
        ),
{
    let n = rects.len();
    if n == 0 {
        return None;
    }
    let mut left = rects[0].left;
    let mut top = rects[0].top;
    let mut right = rects[0].right();
    let mut bottom = rects[0].bottom();
    let mut i: usize = 1;
    while i < n
        invariant
            n == rects@.len(),
            1 <= i <= n,
            bounds_fit(rects@),
            left == min_left(rects@.take(i as int)),
            top == min_top(rects@.take(i as int)),
            right == max_right(rects@.take(i as int)),
            bottom == max_bottom(rects@.take(i as int)),
        decreases n - i,
    {
        let r = rects[i];
        proof {
            assert(rects@.take(i + 1).drop_last() =~= rects@.take(i as int));
            assert(rects@.take(i + 1).last() == r);
        }
        if r.left < left {
            left = r.left;
        }
        if r.top < top {
            top = r.top;
        }
        let rr = r.right();
        if rr > right {
            right = rr;
        }
        let rb = r.bottom();
        if rb > bottom {
            bottom = rb;
        }
        i = i + 1;
    }
    proof {
        assert(rects@.take(n as int) =~= rects@);
    }
    Some(VirtualScreenRect::new(left, top, right - left, bottom - top))
}

/// The screen geometry last reported by the window system, kept for when it
/// cannot be asked directly.
pub struct ScreenCache {
    pub monitor_rects: Option<Vec<VirtualScreenRect>>,
    pub virtual_screen_rect: Option<VirtualScreenRect>,
}

impl ScreenCache {
    /// Nothing cached yet.
    pub fn new() -> (r: Self)
        ensures
            r.monitor_rects is None,
            r.virtual_screen_rect is None,
    {
        ScreenCache { monitor_rects: None, virtual_screen_rect: None }
    }
}

/// Caches the monitor rectangles.
pub fn set_cached_monitor_rects(cache: &mut ScreenCache, rects: Vec<VirtualScreenRect>)
    ensures
        final(cache).monitor_rects == Some(rects),
        final(cache).virtual_screen_rect == old(cache).virtual_screen_rect,
{
    cache.monitor_rects = Some(rects);
}

/// Caches the rectangle of the whole desktop.
pub fn set_cached_virtual_screen_rect(cache: &mut ScreenCache, rect: VirtualScreenRect)
    ensures
        final(cache).virtual_screen_rect == Some(rect),
        final(cache).monitor_rects == old(cache).monitor_rects,
{
    cache.virtual_screen_rect = Some(rect);
}

/// The desktop rectangle that a lookup gives: the live one when there is
/// one, else the cached one.
pub open spec fn screen_rect_lookup(cached: Option<VirtualScreenRect>, live: Option<VirtualScreenRect>) -> Option<VirtualScreenRect> {
    match live {
        Some(rect) => Some(rect),
        None => cached,
    }
}

/// Law: without a live answer, the desktop rectangle read back is the one
/// last cached, and caching the monitors does not change it.
pub proof fn lemma_cached_screen_read_back(cache: ScreenCache, rect: VirtualScreenRect, monitors: Option<Vec<VirtualScreenRect>>)
    requires
        cache.virtual_screen_rect == Some(rect),
    ensures
        screen_rect_lookup(cache.virtual_screen_rect, None) == Some(rect),
        screen_rect_lookup(
            (ScreenCache { monitor_rects: monitors, virtual_screen_rect: cache.virtual_screen_rect }).virtual_screen_rect,
            None,
        ) == Some(rect),
{
}

/// The rectangle of the whole desktop: what X11 reports (`live`, asked only
/// under X11), else the cached one.
pub fn current_virtual_screen_rect(cache: &ScreenCache, live: Option<VirtualScreenRect>) -> (r: Option<VirtualScreenRect>)
    ensures
        r == screen_rect_lookup(cache.virtual_screen_rect, live),
{
    match live {
        Some(rect) => Some(rect),
        None => cache.virtual_screen_rect,
    }
}

/// A copy of a list of rectangles.
fn copy_rects(rects: &Vec<VirtualScreenRect>) -> (r: Vec<VirtualScreenRect>)
    ensures
        r@ == rects@,
{
    let mut out = Vec::new();
    let mut i: usize = 0;
    while i < rects.len()
        invariant
            i <= rects@.len(),
            out@ == rects@.take(i as int),
        decreases rects@.len() - i,
    {
        out.push(rects[i]);
        proof {
            assert(out@ =~= rects@.take(i + 1));
        }
        i = i + 1;
    }
    proof {
        assert(out@ =~= rects@);
    }
    out
}

/// The monitor rectangles: under X11 what it reports (`x11_monitors`),
/// failing that the cached monitors; elsewhere the cached monitors, failing
/// those the cached desktop rectangle as the one monitor.
pub fn current_monitor_rects(
    cache: &ScreenCache,
    use_x11: bool,
    x11_monitors: Option<Vec<VirtualScreenRect>>,
) -> (r: Option<Vec<VirtualScreenRect>>)
    ensures
        use_x11 && x11_monitors is Some ==> r == x11_monitors,
        (use_x11 && x11_monitors is None) || (!use_x11 && cache.monitor_rects is Some) ==> match (
            r,
            cache.monitor_rects,
        ) {
            (Some(v), Some(c)) => v@ == c@,
            (None, None) => true,
            _ => false,
        },
        !use_x11 && cache.monitor_rects is None ==> match cache.virtual_screen_rect {
            Some(rect) => r matches Some(v) && v@ == seq![rect],
            None => r is None,
        },
{
    if use_x11 {
        if let Some(v) = x11_monitors {
            return Some(v);
        }
    }
    match &cache.monitor_rects {
        Some(c) => Some(copy_rects(c)),
        None => {
            if use_x11 {
                None
            } else {
                match cache.virtual_screen_rect {
                    Some(rect) => {
                        let mut v = Vec::new();
                        v.push(rect);
                        proof {
                            assert(v@ =~= seq![rect]);
                        }
                        Some(v)
                    },
                    None => None,
                }
            }
        },
    }
}

/// The position of the cursor: what X11 reports, and nothing elsewhere.
pub fn current_cursor_position(use_x11: bool, x11_position: Option<(i32, i32)>) -> (r: Option<(i32, i32)>)
    ensures
        r == if use_x11 { x11_position } else { None::<(i32, i32)> },
{
    if use_x11 {
        x11_position
    } else {
        None
    }
}

/// The cursor position, or the origin when it is unknown.
pub fn get_cursor_pos(position: Option<(i32, i32)>) -> (r: (i32, i32))
    ensures
        r == match position {
            Some(p) => p,
            None => (0i32, 0i32),
        },
{
    match position {
        Some(p) => p,
        None => (0, 0),
    }
}

/// Where the cursor is moved to: under X11 the point in the 16-bit
/// coordinates that the protocol takes; elsewhere it cannot be moved.
pub fn move_mouse(use_x11: bool, x: i32, y: i32) -> (r: Option<(i16, i16)>)
    ensures
        r == if use_x11 { Some(x11::cursor_target(x, y)) } else { None::<(i16, i16)> },
{
    if use_x11 {
        Some(x11::move_cursor(x, y))
    } else {
        None
    }
}

/// A button event as the backend sends it.
#[derive(Clone, Copy, Debug, PartialEq, Eq, Structural)]
pub enum MouseButtonEvent {
    /// An XTEST fake input: event type and X11 button number.
    X11 { event_type: u8, button: u8 },
    /// A uinput key event: button code and value.
    Uinput { code: u16, value: i32 },
}

/// The event that sends the button flag `flags`: through XTEST under X11,
/// through uinput elsewhere.
pub fn send_mouse_event(use_x11: bool, flags: u32) -> (r: MouseButtonEvent)
    ensures
        use_x11 ==> r == (MouseButtonEvent::X11 {
            event_type: x11::button_event(flags).0,
            button: x11::button_event(flags).1,
        }),
        !use_x11 ==> r == (MouseButtonEvent::Uinput {
            code: uinput::button_event(flags).0,
            value: uinput::button_event(flags).1,
        }),
{
    if use_x11 {
        let (event_type, button) = x11::send_button(flags);
        MouseButtonEvent::X11 { event_type, button }
    } else {
        let (code, value) = uinput::send_button(flags);
        MouseButtonEvent::Uinput { code, value }
    }
}

/// What was found of the mouse backend.
pub enum BackendProbe {
    /// Under X11: whether the connection came up and then whether it has the
    /// XTEST extension, or why it failed; and whether Wayland is also set.
    X11 { connection: Result<bool, String>, wayland_display_set: bool },
    /// Elsewhere: whether `/dev/uinput` exists and can be opened for writing.
    Uinput { exists: bool, writable: bool },
}

/// The report on the mouse backend; `display` is how the `DISPLAY`
/// variable reads.
pub open spec fn mouse_diagnostic_text(display: Seq<char>, probe: BackendProbe) -> Seq<char> {
    match probe {
        BackendProbe::X11 { connection, wayland_display_set } => match connection {
            Ok(xtest) => "X11 backend (DISPLAY="@ + display + ")"@ + (if xtest {
                " - XTEST extension available"@
            } else {
                " - XTEST extension MISSING"@
            }) + (if wayland_display_set {
                " | WARNING: running under XWayland - clicks only affect X11 windows, not native Wayland apps"@
            } else {
                seq![]
            }),
            Err(e) => "X11 backend (DISPLAY="@ + display + ") - CONNECTION FAILED: "@ + e@,
        },
        BackendProbe::Uinput { exists, writable } => if exists && writable {
            "Wayland uinput backend - /dev/uinput is accessible"@
        } else if exists {
            "Wayland uinput backend - /dev/uinput exists but is NOT writable (user not in 'input' group?)"@
        } else {
            "Wayland uinput backend - /dev/uinput does not exist (uinput module not loaded?)"@
        },
    }
}

/// The report on the mouse backend.
pub fn linux_mouse_diagnostic(display: &str, probe: &BackendProbe) -> (r: String)
    ensures
        r@ == mouse_diagnostic_text(display@, *probe),
{
    match probe {
        BackendProbe::X11 { connection, wayland_display_set } => match connection {
            Ok(xtest) => {
                let mut msg = String::from_str("X11 backend (DISPLAY=").concat(display).concat(")");
                if *xtest {
                    msg = msg.concat(" - XTEST extension available");
                } else {
                    msg = msg.concat(" - XTEST extension MISSING");
                }
                let ghost before = msg@;
                if *wayland_display_set {
                    msg = msg.concat(
                        " | WARNING: running under XWayland - clicks only affect X11 windows, not native Wayland apps",
                    );
                } else {
                    proof {
                        assert(before + Seq::<char>::empty() =~= before);
                    }
                }
                msg
            },
            Err(e) => String::from_str("X11 backend (DISPLAY=").concat(display).concat(
                ") - CONNECTION FAILED: ",
            ).concat(e.as_str()),
        },
        BackendProbe::Uinput { exists, writable } => {
            if *exists && *writable {
                String::from_str("Wayland uinput backend - /dev/uinput is accessible")
            } else if *exists {
                String::from_str(
                    "Wayland uinput backend - /dev/uinput exists but is NOT writable (user not in 'input' group?)",
                )
            } else {
                String::from_str(
                    "Wayland uinput backend - /dev/uinput does not exist (uinput module not loaded?)",
                )
            }
        },
    }
}

pub const LEFT_DOWN: u32 = 0x11;
pub const LEFT_UP: u32 = 0x10;
pub const RIGHT_DOWN: u32 = 0x21;
pub const RIGHT_UP: u32 = 0x20;
pub const MIDDLE_DOWN: u32 = 0x31;
pub const MIDDLE_UP: u32 = 0x30;

/// A button flag as the button number (its upper bits) and whether it is a
/// press (its lowest bit).
pub fn decode_linux_flag(flags: u32) -> (r: (u8, bool))
    ensures
        r.0 == (flags / 16) % 256,
        r.1 == (flags % 2 == 1),
{
    let button = (flags >> 4) as u8;
    let down = (flags & 1) == 1;
    proof {
        assert(((flags >> 4) as u8) == (flags / 16) % 256) by (bit_vector);
        assert(((flags & 1) == 1) == (flags % 2 == 1)) by (bit_vector);
    }
    (button, down)
}

/// The press and release flags of a button: 2 is the right button, 3 the
/// middle one, any other the left one.
pub fn get_button_flags(button: i32) -> (r: (u32, u32))
    ensures
        r == if button == 2 {
            (RIGHT_DOWN, RIGHT_UP)
        } else if button == 3 {
            (MIDDLE_DOWN, MIDDLE_UP)
        } else {
            (LEFT_DOWN, LEFT_UP)
        },
{
    if button == 2 {
        (RIGHT_DOWN, RIGHT_UP)
    } else if button == 3 {
        (MIDDLE_DOWN, MIDDLE_UP)
    } else {
        (LEFT_DOWN, LEFT_UP)
    }
}

/// The button number that `get_button_flags` serves: 2 and 3 as they are,
/// anything else as the left button, 1.
pub open spec fn served_button(button: i32) -> int {
    if button == 2 {
        2
    } else if button == 3 {
        3
    } else {
        1
    }
}

/// Law: the flags of a button decode back to that button, as a press and as
/// a release.
pub proof fn lemma_button_flags_decode(button: i32)
    ensures
        ({
            let flags = if button == 2 {
                (RIGHT_DOWN, RIGHT_UP)
            } else if button == 3 {
                (MIDDLE_DOWN, MIDDLE_UP)
            } else {
                (LEFT_DOWN, LEFT_UP)
            };
            &&& (flags.0 / 16) % 256 == served_button(button)
            &&& flags.0 % 2 == 1
            &&& (flags.1 / 16) % 256 == served_button(button)
            &&& flags.1 % 2 == 0
        }),
{
}

/// One unchecked click: press, then release.
pub open spec fn batch_click_ops(target: InputTarget) -> Seq<InputOp> {
    seq![InputOp::Press { target }, InputOp::Release { target }]
}

/// `n` clicks sent at once, with no hold and no activity check.
pub fn send_batch(down: u32, up: u32, n: usize) -> (s: InputSession)
    ensures
        s.wf(),
        s.phase() == SessionPhase::Running,
        s.held() == Seq::<InputTarget>::empty(),
        s.remaining() == session_ops(
            batch_click_ops(InputTarget::MouseButton { down_flag: down, up_flag: up }),
            seq![],
            n as nat,
        ),
{
    let target = InputTarget::MouseButton { down_flag: down, up_flag: up };
    let mut unit = Vec::new();
    unit.push(InputOp::Press { target });
    unit.push(InputOp::Release { target });
    proof {
        assert(unit@ =~= batch_click_ops(target));
    }
    InputSession::new(unit, Vec::new(), n)
}

/// Law: a run of clicks, batched or in cycles, and whatever the answers to
/// its activity checks, ends with the button released.
pub proof fn lemma_clicks_leave_button_released(
    plan: ClickCyclePlan,
    target: InputTarget,
    count: nat,
    answers: spec_fn(nat) -> bool,
)
    ensures
        held_after(
            Seq::<InputTarget>::empty(),
            run_ops(session_ops(click_cycle_ops(plan, target), seq![], count), Seq::<InputTarget>::empty(), answers, 0),
        ) == Seq::<InputTarget>::empty(),
        held_after(
            Seq::<InputTarget>::empty(),
            run_ops(session_ops(batch_click_ops(target), seq![], count), Seq::<InputTarget>::empty(), answers, 0),
        ) == Seq::<InputTarget>::empty(),
{
    let e = Seq::<InputOp>::empty();
    lemma_restores_check_sleep(e);
    lemma_click_cycle_restores(plan, target);
    lemma_session_leaves_nothing_held(click_cycle_ops(plan, target), e, count, answers, 0);
    lemma_press_around_restores(target, e);
    assert(batch_click_ops(target) =~= seq![InputOp::Press { target }] + e + seq![InputOp::Release { target }]);
    lemma_session_leaves_nothing_held(batch_click_ops(target), e, count, answers, 0);
}

/// Whether clicks go out as one batch: several instant single clicks.
pub open spec fn batched(count: nat, plan: ClickCyclePlan) -> bool {
    plan.kind == ClickCycleKind::Single && count > 1 && plan.first_hold_ms == 0
}

/// The script of `count` clicks of `plan` with the button whose flags are
/// `down` and `up`: one batch of unchecked clicks, or `count` click cycles.
pub open spec fn click_session_ops(down: u32, up: u32, count: nat, plan: ClickCyclePlan) -> Seq<InputOp> {
    let target = InputTarget::MouseButton { down_flag: down, up_flag: up };
    if batched(count, plan) {
        session_ops(batch_click_ops(target), seq![], count)
    } else {
        session_ops(click_cycle_ops(plan, target), seq![], count)
    }
}

/// The clicks of a whole run: one per batched click, else the plan's clicks
/// per cycle.
pub open spec fn session_clicks(count: nat, plan: ClickCyclePlan) -> nat {
    if batched(count, plan) {
        count
    } else {
        plan_clicks(plan) * count
    }
}

/// Law: only instant single clicks are ever batched, so a run of `count`
/// cycles sends the plan's clicks for every cycle: `count` clicks for a
/// single-click plan and `2 * count` for a double-click plan, which always
/// runs as checked double-click cycles.
pub proof fn lemma_run_clicks_per_plan(down: u32, up: u32, count: nat, plan: ClickCyclePlan)
    ensures
        batched(count, plan) ==> plan.kind == ClickCycleKind::Single,
        session_clicks(count, plan) == plan_clicks(plan) * count,
        plan.kind == ClickCycleKind::Double ==> session_clicks(count, plan) == 2 * count,
        plan.kind == ClickCycleKind::Double ==> click_session_ops(down, up, count, plan) == session_ops(
            click_cycle_ops(plan, InputTarget::MouseButton { down_flag: down, up_flag: up }),
            seq![],
            count,
        ),
{
}

/// The session of `count` click cycles of `plan` with the button whose
/// flags are `down` and `up`. Several instant single clicks go out as a
/// batch, without activity checks; otherwise each cycle checks that the run
/// is still active, and a stopped cycle ends the session.
pub fn send_clicks(down: u32, up: u32, count: usize, plan: ClickCyclePlan) -> (s: InputSession)
    ensures
        s.wf(),
        s.phase() == SessionPhase::Running,
        s.held() == Seq::<InputTarget>::empty(),
        s.remaining() == click_session_ops(down, up, count as nat, plan),
{
    if plan.kind == ClickCycleKind::Single && count > 1 && plan.first_hold_ms == 0 {
        return send_batch(down, up, count);
    }
    let target = InputTarget::MouseButton { down_flag: down, up_flag: up };
    let unit = plan.cycle_ops(target);
    InputSession::new(unit, Vec::new(), count)
}

/// Law: whatever the answers to its activity checks, a run of clicks sends
/// the button's press and release flags alternately, a press first and a
/// release last, so the button is never left pressed: at most the run's
/// clicks, none when `count` is zero, and all of them when the run
/// completes. A stopped run sends no press after the check that stopped it.
pub proof fn lemma_clicks_alternate(down: u32, up: u32, count: nat, plan: ClickCyclePlan)
    ensures
        runs_repeat(
            click_session_ops(down, up, count, plan),
            click_pattern(InputTarget::MouseButton { down_flag: down, up_flag: up }),
            session_clicks(count, plan),
        ),
        forall|answers: spec_fn(nat) -> bool|
            stops_after_check(#[trigger] run_ops(click_session_ops(down, up, count, plan), seq![], answers, 0)),
{
    let target = InputTarget::MouseButton { down_flag: down, up_flag: up };
    let p = click_pattern(target);
    let e = Seq::<InputOp>::empty();
    if batched(count, plan) {
        let ts = seq![target];
        assert(press_ops(ts) =~= seq![InputOp::Press { target }]);
        assert(ts.drop_last() =~= Seq::<InputTarget>::empty());
        assert(release_ops(ts.drop_last()) =~= Seq::<InputOp>::empty());
        assert(release_ops(ts) =~= seq![InputOp::Release { target }]);
        assert(hold_ops(ts, 0) =~= batch_click_ops(target));
        assert(releases(ts.drop_last()) =~= Seq::<InputAction>::empty());
        assert(hold_pattern(ts) =~= p);
        lemma_hold_repeats(ts, 0);
        lemma_restores_check_sleep(e);
        lemma_press_around_restores(target, e);
        assert(batch_click_ops(target) =~= seq![InputOp::Press { target }] + e + seq![InputOp::Release { target }]);
        lemma_session_repeats(batch_click_ops(target), e, p, 1, count);
        assert(1 * count == count);
    } else {
        lemma_click_cycle_repeats(plan, target);
        lemma_click_cycle_restores(plan, target);
        lemma_session_repeats(click_cycle_ops(plan, target), e, p, plan_clicks(plan), count);
    }
    assert forall|answers: spec_fn(nat) -> bool|
        stops_after_check(#[trigger] run_ops(click_session_ops(down, up, count, plan), seq![], answers, 0)) by {
        lemma_stopped_run_shape(click_session_ops(down, up, count, plan), seq![], answers, 0);
    }
}

} // verus!
