//! The positions a window remembers for its pointing devices, and the
//! step that names window input against them.
use vstd::prelude::*;
use std::collections::HashMap;
use crate::listener::RawInput;
use crate::event::{
    name_window_input, window_input_error, window_input_history, window_input_name, HistoryUpdate,
    Naming, WindowInput,
};

verus! {

/// How long a remembered position counts for a double tap, in
/// microseconds.
pub const DOUBLE_TAP_MICROS: u64 = 300;

/// A remembered position (the bit patterns of its two `f64` coordinates)
/// and when it was recorded, in microseconds of a monotonic clock.
#[derive(Clone, Copy, Debug, PartialEq, Eq, Structural)]
pub struct Recorded {
    pub x_bits: u64,
    pub y_bits: u64,
    pub at_micros: u64,
}

/// The last position of each device, by device number.
pub struct EventHistory {
    entries: HashMap<u64, Recorded>,
}

impl View for EventHistory {
    type V = Map<u64, Recorded>;

    closed spec fn view(&self) -> Map<u64, Recorded> {
        self.entries@
    }
}

/// The time from `at` to `now`; a clock reading before `at` counts as no
/// time at all.
pub open spec fn elapsed(at: u64, now: u64) -> int {
    if now >= at {
        now - at
    } else {
        0
    }
}

/// The remembered position of `device`, unless a `timeout` is given and
/// more time than it has passed since the position was recorded.
pub open spec fn recalled(m: Map<u64, Recorded>, device: u64, timeout: Option<u64>, now: u64) -> Option<(u64, u64)> {
    if !m.contains_key(device) {
        None
    } else if timeout matches Some(ttl) && elapsed(m[device].at_micros, now) > ttl {
        None
    } else {
        Some((m[device].x_bits, m[device].y_bits))
    }
}

/// The table after a history update for `device` at `now`.
pub open spec fn updated(m: Map<u64, Recorded>, u: HistoryUpdate, device: u64, x_bits: u64, y_bits: u64, now: u64) -> Map<u64, Recorded> {
    match u {
        HistoryUpdate::Keep => m,
        HistoryUpdate::Record => m.insert(device, Recorded { x_bits, y_bits, at_micros: now }),
        HistoryUpdate::Forget => m.remove(device),
    }
}

impl EventHistory {
    pub fn new() -> (r: Self)
        ensures
            r@ == Map::<u64, Recorded>::empty(),
    {
        EventHistory { entries: HashMap::new() }
    }

    /// The remembered position of `device` (see `recalled`).
    pub fn get(&self, device: u64, timeout: Option<u64>, now_micros: u64) -> (r: Option<(u64, u64)>)
        ensures
            r == recalled(self@, device, timeout, now_micros),
    {
        broadcast use vstd::std_specs::hash::group_hash_axioms;
        match self.entries.get(&device) {
            Some(rec) => {
                let gone = match timeout {
                    Some(ttl) => now_micros >= rec.at_micros && now_micros - rec.at_micros > ttl,
                    None => false,
                };
                if gone {
                    None
                } else {
                    Some((rec.x_bits, rec.y_bits))
                }
            },
            None => None,
        }
    }

    /// Remembers the position of `device`, recorded at `now_micros`.
    pub fn update(&mut self, device: u64, x_bits: u64, y_bits: u64, now_micros: u64)
        ensures
            final(self)@ == old(self)@.insert(device, Recorded { x_bits, y_bits, at_micros: now_micros }),
    {
        broadcast use vstd::std_specs::hash::group_hash_axioms;
        self.entries.insert(device, Recorded { x_bits, y_bits, at_micros: now_micros });
    }

    /// Forgets the position of `device`.
    pub fn remove(&mut self, device: u64)
        ensures
            final(self)@ == old(self)@.remove(device),
    {
        broadcast use vstd::std_specs::hash::group_hash_axioms;
        self.entries.remove(&device);
    }
}

/// A position just recorded for a device is the one recalled for it, with
/// no timeout or until more time than the timeout has passed; after the
/// device is forgotten nothing is recalled for it.
pub proof fn law_recall_after_record(
    m: Map<u64, Recorded>,
    device: u64,
    x_bits: u64,
    y_bits: u64,
    at: u64,
    timeout: Option<u64>,
    now: u64,
)
    ensures
        recalled(m.insert(device, Recorded { x_bits, y_bits, at_micros: at }), device, timeout, now) == (
        if timeout matches Some(ttl) && elapsed(at, now) > ttl {
            None
        } else {
            Some((x_bits, y_bits))
        }),
        recalled(m.remove(device), device, timeout, now) is None,
{
}

/// `i` with its "is the position known" flags set from the history: a
/// mouse button needs the device's position, a double tap one recorded
/// no longer than `DOUBLE_TAP_MICROS` ago.
pub open spec fn with_known_positions(i: WindowInput, m: Map<u64, Recorded>, device: u64, now: u64) -> WindowInput {
    match i {
        WindowInput::MouseInput { pressed, .. } => WindowInput::MouseInput {
            pressed,
            position_known: recalled(m, device, None, now) is Some,
        },
        WindowInput::DoubleTapGesture { .. } => WindowInput::DoubleTapGesture {
            position_known: recalled(m, device, Some(DOUBLE_TAP_MICROS), now) is Some,
        },
        _ => i,
    }
}

/// The position an event's detail carries, given the position `x`, `y`
/// that the input reports: a pointer move or a touch carries the reported
/// position; a pressed mouse button the remembered pointer position, a
/// released one the origin (the bit patterns (0, 0) of 0.0), both only
/// while the pointer position is known; a wheel turn the remembered
/// pointer position if there is one; a double tap a position remembered
/// within the double-tap time. Other input carries none.
pub open spec fn detail_position(
    i: WindowInput,
    m: Map<u64, Recorded>,
    device: u64,
    x: u64,
    y: u64,
    now: u64,
) -> Option<(u64, u64)> {
    match i {
        WindowInput::MouseInput { pressed, .. } => match recalled(m, device, None, now) {
            Some(p) => if pressed {
                Some(p)
            } else {
                Some((0u64, 0u64))
            },
            None => None,
        },
        WindowInput::DoubleTapGesture { .. } => recalled(m, device, Some(DOUBLE_TAP_MICROS), now),
        WindowInput::MouseWheel => recalled(m, device, None, now),
        WindowInput::CursorMoved => Some((x, y)),
        WindowInput::Touch => Some((x, y)),
        _ => None,
    }
}

/// Names input from `device` (at position `x_bits`, `y_bits` where it
/// has one) against the remembered positions, gives back the position
/// that the event's detail carries, and records or forgets the device's
/// position as the input asks.
pub fn track_window_input(
    history: &mut EventHistory,
    i: WindowInput,
    device: u64,
    x_bits: u64,
    y_bits: u64,
    now_micros: u64,
) -> (r: (Naming, Option<(u64, u64)>))
    ensures
        r.0.name@ == window_input_name(with_known_positions(i, old(history)@, device, now_micros)),
        match r.0.error {
            Some(e) => window_input_error(with_known_positions(i, old(history)@, device, now_micros)) == Some(e@),
            None => window_input_error(with_known_positions(i, old(history)@, device, now_micros)) is None,
        },
        r.0.history == window_input_history(i),
        r.1 == detail_position(i, old(history)@, device, x_bits, y_bits, now_micros),
        final(history)@ == updated(old(history)@, window_input_history(i), device, x_bits, y_bits, now_micros),
{
    let known = history.get(device, None, now_micros);
    let recent = history.get(device, Some(DOUBLE_TAP_MICROS), now_micros);
    let (input, position) = match i {
        WindowInput::MouseInput { pressed, .. } => (
            WindowInput::MouseInput { pressed, position_known: known.is_some() },
            match known {
                Some(p) => if pressed {
                    Some(p)
                } else {
                    Some((0u64, 0u64))
                },
                None => None,
            },
        ),
        WindowInput::DoubleTapGesture { .. } => (
            WindowInput::DoubleTapGesture { position_known: recent.is_some() },
            recent,
        ),
        WindowInput::MouseWheel => (i, known),
        WindowInput::CursorMoved => (i, Some((x_bits, y_bits))),
        WindowInput::Touch => (i, Some((x_bits, y_bits))),
        _ => (i, None),
    };
    let naming = name_window_input(input);
    match naming.history {
        HistoryUpdate::Keep => {},
        HistoryUpdate::Record => history.update(device, x_bits, y_bits, now_micros),
        HistoryUpdate::Forget => history.remove(device),
    }
    (naming, position)
}

/// Where window input goes: an element event or a window event of the
/// given name, handed on as it came, or dropped.
#[derive(Clone, Copy, Debug, PartialEq, Eq)]
pub enum Route {
    Element(&'static str),
    Window(&'static str),
    Unrouted,
    Dropped,
}

pub enum RouteView {
    Element(Seq<char>),
    Window(Seq<char>),
    Unrouted,
    Dropped,
}

impl View for Route {
    type V = RouteView;

    open spec fn view(&self) -> RouteView {
        match self {
            Route::Element(n) => RouteView::Element(n@),
            Route::Window(n) => RouteView::Window(n@),
            Route::Unrouted => RouteView::Unrouted,
            Route::Dropped => RouteView::Dropped,
        }
    }
}

/// The route of window input given the remembered pointer (`mouse`) and
/// touch positions: a mouse button is dropped while the pointer position
/// of its device is unknown, a double tap while no touch of its device was
/// recorded within the double-tap time; input without an event of its own
/// is handed on.
pub open spec fn route_of(i: RawInput, mouse: Map<u64, Recorded>, touch: Map<u64, Recorded>, now: u64) -> RouteView {
    match i {
        RawInput::Resized => RouteView::Element("resized"@),
        RawInput::Focused(f) => RouteView::Element(if f { "focus"@ } else { "blur"@ }),
        RawInput::MouseInput { device, pressed } => if recalled(mouse, device, None, now) is Some {
            RouteView::Element(if pressed { "mousedown"@ } else { "mouseup"@ })
        } else {
            RouteView::Dropped
        },
        RawInput::CursorMoved { .. } => RouteView::Element("mouseover"@),
        RawInput::CursorLeft { .. } => RouteView::Element("mouseleave"@),
        RawInput::CursorEntered { .. } => RouteView::Element("mouseenter"@),
        RawInput::MouseWheel { .. } => RouteView::Element("scroll"@),
        RawInput::Touch { .. } => RouteView::Element("touch"@),
        RawInput::KeyboardInput { pressed } => RouteView::Element(if pressed { "keydown"@ } else { "keyup"@ }),
        RawInput::DoubleTapGesture { device } => if recalled(touch, device, Some(DOUBLE_TAP_MICROS), now) is Some {
            RouteView::Element("doubletap"@)
        } else {
            RouteView::Dropped
        },
        RawInput::Moved => RouteView::Window("moved"@),
        RawInput::CloseRequested => RouteView::Window("closed"@),
        RawInput::HoveredFile => RouteView::Window("drag"@),
        RawInput::DroppedFile => RouteView::Window("drop"@),
        RawInput::HoveredFileCancelled => RouteView::Window("dragcanceled"@),
        RawInput::TouchpadPressure => RouteView::Window("touchpadpressure"@),
        RawInput::PinchGesture => RouteView::Window("pinch"@),
        RawInput::PanGesture => RouteView::Window("pan"@),
        RawInput::RotationGesture => RouteView::Window("rotation"@),
        RawInput::AxisMotion => RouteView::Window("axismotion"@),
        RawInput::ThemeChanged => RouteView::Window("themechanged"@),
        RawInput::Occluded(o) => RouteView::Window(if o { "maximized"@ } else { "minimized"@ }),
        _ => RouteView::Unrouted,
    }
}

/// The pointer positions after input `i` at `x`, `y`: a move records it,
/// leaving forgets it.
pub open spec fn mouse_track(i: RawInput, m: Map<u64, Recorded>, x: u64, y: u64, now: u64) -> Map<u64, Recorded> {
    match i {
        RawInput::CursorMoved { device } => updated(m, HistoryUpdate::Record, device, x, y, now),
        RawInput::CursorLeft { device } => updated(m, HistoryUpdate::Forget, device, x, y, now),
        _ => m,
    }
}

/// The touch positions after input `i` at `x`, `y`: a touch records it.
pub open spec fn touch_track(i: RawInput, m: Map<u64, Recorded>, x: u64, y: u64, now: u64) -> Map<u64, Recorded> {
    match i {
        RawInput::Touch { device } => updated(m, HistoryUpdate::Record, device, x, y, now),
        _ => m,
    }
}

/// Routes window input (at position `x_bits`, `y_bits` where it has one)
/// against the remembered pointer and touch positions, gives back the
/// position a mouse button or double tap carries, and records or forgets
/// positions. Input-method input is not handled.
pub fn route_window_input(
    mouse: &mut EventHistory,
    touch: &mut EventHistory,
    i: RawInput,
    x_bits: u64,
    y_bits: u64,
    now_micros: u64,
) -> (r: (Route, Option<(u64, u64)>))
    requires
        !(i is Ime),
    ensures
        r.0@ == route_of(i, old(mouse)@, old(touch)@, now_micros),
        r.1 == (match i {
            RawInput::MouseInput { device, .. } => recalled(old(mouse)@, device, None, now_micros),
            RawInput::DoubleTapGesture { device } => recalled(old(touch)@, device, Some(DOUBLE_TAP_MICROS), now_micros),
            _ => None,
        }),
        final(mouse)@ == mouse_track(i, old(mouse)@, x_bits, y_bits, now_micros),
        final(touch)@ == touch_track(i, old(touch)@, x_bits, y_bits, now_micros),
{
    match i {
        RawInput::Resized => (Route::Element("resized"), None),
        RawInput::Focused(f) => (Route::Element(if f { "focus" } else { "blur" }), None),
        RawInput::MouseInput { device, pressed } => {
            let p = mouse.get(device, None, now_micros);
            if p.is_some() {
                (Route::Element(if pressed { "mousedown" } else { "mouseup" }), p)
            } else {
                (Route::Dropped, p)
            }
        },
        RawInput::CursorMoved { device } => {
            mouse.update(device, x_bits, y_bits, now_micros);
            (Route::Element("mouseover"), None)
        },
        RawInput::CursorLeft { device } => {
            mouse.remove(device);
            (Route::Element("mouseleave"), None)
        },
        RawInput::CursorEntered { .. } => (Route::Element("mouseenter"), None),
        RawInput::MouseWheel { .. } => (Route::Element("scroll"), None),
        RawInput::Touch { device } => {
            touch.update(device, x_bits, y_bits, now_micros);
            (Route::Element("touch"), None)
        },
        RawInput::KeyboardInput { pressed } => (Route::Element(if pressed { "keydown" } else { "keyup" }), None),
        RawInput::DoubleTapGesture { device } => {
            let p = touch.get(device, Some(DOUBLE_TAP_MICROS), now_micros);
            if p.is_some() {
                (Route::Element("doubletap"), p)
            } else {
                (Route::Dropped, p)
            }
        },
        RawInput::Moved => (Route::Window("moved"), None),
        RawInput::CloseRequested => (Route::Window("closed"), None),
        RawInput::HoveredFile => (Route::Window("drag"), None),
        RawInput::DroppedFile => (Route::Window("drop"), None),
        RawInput::HoveredFileCancelled => (Route::Window("dragcanceled"), None),
        RawInput::TouchpadPressure => (Route::Window("touchpadpressure"), None),
        RawInput::PinchGesture => (Route::Window("pinch"), None),
        RawInput::PanGesture => (Route::Window("pan"), None),
        RawInput::RotationGesture => (Route::Window("rotation"), None),
        RawInput::AxisMotion => (Route::Window("axismotion"), None),
        RawInput::ThemeChanged => (Route::Window("themechanged"), None),
        RawInput::Occluded(o) => (Route::Window(if o { "maximized" } else { "minimized" }), None),
        _ => (Route::Unrouted, None),
    }
}

} // verus!
