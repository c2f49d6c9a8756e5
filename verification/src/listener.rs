//! Listeners typed by the input they take: which window input or which
//! context event calls which listener, and the pointer and touch
//! positions remembered on the way.
use vstd::prelude::*;
use crate::history::{elapsed, Recorded, DOUBLE_TAP_MICROS};

verus! {

/// `str::to_lowercase`, the full Unicode lowercase mapping of a text.
pub uninterp spec fn unicode_lower(s: Seq<char>) -> Seq<char>;

/// `str::to_lowercase`: the contract names its result `unicode_lower` of
/// the text and claims nothing more of it.
#[verifier::external_body]
fn lowercase_text(s: &str) -> (r: String)
    ensures
        r@ == unicode_lower(s@),
{
    s.to_lowercase()
}

/// What a listener of an element-level input takes.
#[derive(Clone, Debug, PartialEq, Eq)]
pub enum ContextListener {
    Resized,
    Focus,
    Blur,
    Input,
    MouseDown,
    MouseUp,
    MouseOver,
    MouseEnter,
    MouseLeave,
    Scroll,
    Touch,
    KeyDown,
    KeyUp,
    Gesture,
    DoubleTap,
    /// A custom event, by its lowercase name.
    Custom(String),
    Error,
}

/// What a listener of a window takes.
#[derive(Clone, Debug, PartialEq, Eq)]
pub enum WindowListener {
    Context(ContextListener),
    Moved,
    Closed,
    DroppedFile,
    HoveredFile,
    HoveredFileCancelled,
    TouchpadPressure,
    AxisMotion,
    ThemeChanged,
    Occluded,
}

/// Input the windowing system reports about a window, with the device it
/// comes from where that matters here.
#[derive(Clone, Copy, Debug, PartialEq, Eq, Structural)]
pub enum RawInput {
    Resized,
    Focused(bool),
    Ime,
    MouseInput { device: u64, pressed: bool },
    CursorMoved { device: u64 },
    CursorLeft { device: u64 },
    CursorEntered { device: u64 },
    MouseWheel { device: u64 },
    Touch { device: u64 },
    KeyboardInput { pressed: bool },
    PinchGesture,
    PanGesture,
    RotationGesture,
    DoubleTapGesture { device: u64 },
    Moved,
    CloseRequested,
    HoveredFile,
    DroppedFile,
    HoveredFileCancelled,
    TouchpadPressure,
    AxisMotion,
    ThemeChanged,
    Occluded(bool),
    Other,
}

/// The one remembered position of the pointer (or of a touch): which
/// device, and where and when.
pub type PositionSlot = Option<(u64, Recorded)>;

/// The position in `slot` when it belongs to `device` and, with a
/// `timeout`, is no older than it.
pub open spec fn slot_recall(slot: PositionSlot, device: u64, timeout: Option<u64>, now: u64) -> Option<(u64, u64)> {
    match slot {
        None => None,
        Some((d, r)) => if timeout matches Some(ttl) && elapsed(r.at_micros, now) > ttl {
            None
        } else if d == device {
            Some((r.x_bits, r.y_bits))
        } else {
            None
        },
    }
}

/// The position a double tap takes: the pointer's, else the touch's,
/// each within the double-tap time.
pub open spec fn tap_position(mouse: PositionSlot, touch: PositionSlot, device: u64, now: u64) -> Option<(u64, u64)> {
    match slot_recall(mouse, device, Some(DOUBLE_TAP_MICROS), now) {
        Some(p) => Some(p),
        None => slot_recall(touch, device, Some(DOUBLE_TAP_MICROS), now),
    }
}

/// Whether input `i` calls the element-level listener `l`: the kinds
/// must agree, a focus change calls the focus or the blur listener, a
/// key or button the down or up listener, a button only while the
/// pointer position of its device is known, and a double tap only with
/// a recent position.
pub open spec fn context_input_calls(l: ContextListener, i: RawInput, mouse: PositionSlot, touch: PositionSlot, now: u64) -> bool {
    match i {
        RawInput::Resized => l is Resized,
        RawInput::Focused(f) => (l is Focus && f) || (l is Blur && !f),
        RawInput::MouseInput { device, pressed } => slot_recall(mouse, device, None, now) is Some && (
        (l is MouseDown && pressed) || (l is MouseUp && !pressed)),
        RawInput::CursorMoved { .. } => l is MouseOver,
        RawInput::CursorLeft { .. } => l is MouseLeave,
        RawInput::CursorEntered { .. } => l is MouseEnter,
        RawInput::MouseWheel { .. } => l is Scroll,
        RawInput::Touch { .. } => l is Touch,
        RawInput::KeyboardInput { pressed } => (l is KeyDown && pressed) || (l is KeyUp && !pressed),
        RawInput::PinchGesture => l is Gesture,
        RawInput::PanGesture => l is Gesture,
        RawInput::RotationGesture => l is Gesture,
        RawInput::DoubleTapGesture { device } => l is DoubleTap && tap_position(mouse, touch, device, now) is Some,
        _ => false,
    }
}

/// A key press calls keydown listeners and not keyup listeners; a key
/// release calls keyup listeners and not keydown listeners, whatever
/// positions are remembered.
pub proof fn law_key_listeners(pressed: bool, mouse: PositionSlot, touch: PositionSlot, now: u64)
    ensures
        context_input_calls(ContextListener::KeyDown, RawInput::KeyboardInput { pressed }, mouse, touch, now) == pressed,
        context_input_calls(ContextListener::KeyUp, RawInput::KeyboardInput { pressed }, mouse, touch, now) == !pressed,
        pressed ==> context_input_calls(ContextListener::KeyDown, RawInput::KeyboardInput { pressed: true }, mouse, touch, now),
        !context_input_calls(ContextListener::KeyUp, RawInput::KeyboardInput { pressed: true }, mouse, touch, now),
        !context_input_calls(ContextListener::KeyDown, RawInput::KeyboardInput { pressed: false }, mouse, touch, now),
        context_input_calls(ContextListener::KeyUp, RawInput::KeyboardInput { pressed: false }, mouse, touch, now),
{
}

/// Focus calls focus listeners and not blur listeners; losing focus calls
/// blur listeners and not focus listeners.
pub proof fn law_focus_listeners(focused: bool, mouse: PositionSlot, touch: PositionSlot, now: u64)
    ensures
        context_input_calls(ContextListener::Focus, RawInput::Focused(focused), mouse, touch, now) == focused,
        context_input_calls(ContextListener::Blur, RawInput::Focused(focused), mouse, touch, now) == !focused,
{
}

/// A mouse button press calls mousedown listeners, and a release mouseup
/// listeners, exactly when the device's pointer position is remembered
/// (from a cursor move of that same device); the other never runs.
pub proof fn law_mouse_button_listeners(
    device: u64,
    pressed: bool,
    mouse: PositionSlot,
    touch: PositionSlot,
    now: u64,
)
    ensures
        context_input_calls(ContextListener::MouseDown, RawInput::MouseInput { device, pressed }, mouse, touch, now)
            == (pressed && (mouse matches Some((d, _)) && d == device)),
        context_input_calls(ContextListener::MouseUp, RawInput::MouseInput { device, pressed }, mouse, touch, now)
            == (!pressed && (mouse matches Some((d, _)) && d == device)),
{
}

/// The position the listener's detail carries: the pointer's for a
/// button, the tap position for a double tap.
pub open spec fn input_position(i: RawInput, mouse: PositionSlot, touch: PositionSlot, now: u64) -> Option<(u64, u64)> {
    match i {
        RawInput::MouseInput { device, .. } => slot_recall(mouse, device, None, now),
        RawInput::DoubleTapGesture { device } => tap_position(mouse, touch, device, now),
        _ => None,
    }
}

/// The pointer slot after input `i` at position `x`, `y`: a move records
/// the position, leaving forgets it.
pub open spec fn mouse_after(i: RawInput, mouse: PositionSlot, x: u64, y: u64, now: u64) -> PositionSlot {
    match i {
        RawInput::CursorMoved { device } => Some((device, Recorded { x_bits: x, y_bits: y, at_micros: now })),
        RawInput::CursorLeft { .. } => None,
        _ => mouse,
    }
}

/// The touch slot after input `i`: a touch records its position.
pub open spec fn touch_after(i: RawInput, touch: PositionSlot, x: u64, y: u64, now: u64) -> PositionSlot {
    match i {
        RawInput::Touch { device } => Some((device, Recorded { x_bits: x, y_bits: y, at_micros: now })),
        _ => touch,
    }
}

/// Whether a listener is to be called, and the position its detail takes.
#[derive(Clone, Copy, Debug)]
pub struct ListenerCall {
    pub call: bool,
    pub position: Option<(u64, u64)>,
}

fn recall(slot: &PositionSlot, device: u64, timeout: Option<u64>, now: u64) -> (r: Option<(u64, u64)>)
    ensures
        r == slot_recall(*slot, device, timeout, now),
{
    match slot {
        None => None,
        Some((d, rec)) => {
            let stale = match timeout {
                Some(ttl) => now >= rec.at_micros && now - rec.at_micros > ttl,
                None => false,
            };
            if stale {
                None
            } else if *d == device {
                Some((rec.x_bits, rec.y_bits))
            } else {
                None
            }
        },
    }
}

/// Matches window input against an element-level listener: says whether
/// to call it and with which position, and updates the remembered
/// pointer and touch positions (`x_bits`, `y_bits` being the position the
/// input reports, where it has one). Input-method input is not handled
/// for an input listener.
pub fn context_match_call(
    l: &ContextListener,
    i: RawInput,
    mouse: &mut PositionSlot,
    touch: &mut PositionSlot,
    x_bits: u64,
    y_bits: u64,
    now_micros: u64,
) -> (r: ListenerCall)
    requires
        !(i is Ime && *l is Input),
    ensures
        r.call == context_input_calls(*l, i, *old(mouse), *old(touch), now_micros),
        r.call ==> r.position == input_position(i, *old(mouse), *old(touch), now_micros),
        *final(mouse) == mouse_after(i, *old(mouse), x_bits, y_bits, now_micros),
        *final(touch) == touch_after(i, *old(touch), x_bits, y_bits, now_micros),
{
    let tap = match i {
        RawInput::DoubleTapGesture { device } => match recall(mouse, device, Some(DOUBLE_TAP_MICROS), now_micros) {
            Some(p) => Some(p),
            None => recall(touch, device, Some(DOUBLE_TAP_MICROS), now_micros),
        },
        _ => None,
    };
    let pointer = match i {
        RawInput::MouseInput { device, .. } => recall(mouse, device, None, now_micros),
        _ => None,
    };
    match i {
        RawInput::CursorMoved { device } => {
            *mouse = Some((device, Recorded { x_bits, y_bits, at_micros: now_micros }));
        },
        RawInput::CursorLeft { .. } => {
            *mouse = None;
        },
        RawInput::Touch { device } => {
            *touch = Some((device, Recorded { x_bits, y_bits, at_micros: now_micros }));
        },
        _ => {},
    }
    let call = match i {
        RawInput::Resized => matches!(l, ContextListener::Resized),
        RawInput::Focused(f) => match l {
            ContextListener::Focus => f,
            ContextListener::Blur => !f,
            _ => false,
        },
        RawInput::MouseInput { pressed, .. } => pointer.is_some() && match l {
            ContextListener::MouseDown => pressed,
            ContextListener::MouseUp => !pressed,
            _ => false,
        },
        RawInput::CursorMoved { .. } => matches!(l, ContextListener::MouseOver),
        RawInput::CursorLeft { .. } => matches!(l, ContextListener::MouseLeave),
        RawInput::CursorEntered { .. } => matches!(l, ContextListener::MouseEnter),
        RawInput::MouseWheel { .. } => matches!(l, ContextListener::Scroll),
        RawInput::Touch { .. } => matches!(l, ContextListener::Touch),
        RawInput::KeyboardInput { pressed } => match l {
            ContextListener::KeyDown => pressed,
            ContextListener::KeyUp => !pressed,
            _ => false,
        },
        RawInput::PinchGesture | RawInput::PanGesture | RawInput::RotationGesture => matches!(
            l,
            ContextListener::Gesture
        ),
        RawInput::DoubleTapGesture { .. } => matches!(l, ContextListener::DoubleTap) && tap.is_some(),
        _ => false,
    };
    let position = match i {
        RawInput::MouseInput { .. } => pointer,
        RawInput::DoubleTapGesture { .. } => tap,
        _ => None,
    };
    ListenerCall { call, position }
}

/// Whether input `i` calls the window listener `l`: window-level input
/// calls the listener of its kind (a hovered file calls the dropped-file
/// listener), any other input goes to an element-level listener.
pub open spec fn window_input_calls(l: WindowListener, i: RawInput, mouse: PositionSlot, touch: PositionSlot, now: u64) -> bool {
    match i {
        RawInput::Moved => l is Moved,
        RawInput::CloseRequested => l is Closed,
        RawInput::HoveredFile => l is DroppedFile,
        RawInput::DroppedFile => l is DroppedFile,
        RawInput::HoveredFileCancelled => l is HoveredFileCancelled,
        RawInput::TouchpadPressure => l is TouchpadPressure,
        RawInput::AxisMotion => l is AxisMotion,
        RawInput::ThemeChanged => l is ThemeChanged,
        RawInput::Occluded(_) => l is Occluded,
        _ => match l {
            WindowListener::Context(c) => context_input_calls(c, i, mouse, touch, now),
            _ => false,
        },
    }
}

/// Whether `i` is handled at window level, so that element-level
/// listeners never see it.
pub open spec fn window_level(i: RawInput) -> bool {
    ||| i is Moved
    ||| i is CloseRequested
    ||| i is HoveredFile
    ||| i is DroppedFile
    ||| i is HoveredFileCancelled
    ||| i is TouchpadPressure
    ||| i is AxisMotion
    ||| i is ThemeChanged
    ||| i is Occluded
}

/// Matches window input against a window listener; the remembered
/// positions change only when the input reaches an element-level listener.
pub fn window_match_call(
    l: &WindowListener,
    i: RawInput,
    mouse: &mut PositionSlot,
    touch: &mut PositionSlot,
    x_bits: u64,
    y_bits: u64,
    now_micros: u64,
) -> (r: ListenerCall)
    requires
        !(i is Ime && *l == WindowListener::Context(ContextListener::Input)),
    ensures
        r.call == window_input_calls(*l, i, *old(mouse), *old(touch), now_micros),
        r.call && !window_level(i) ==> r.position == input_position(i, *old(mouse), *old(touch), now_micros),
        window_level(i) ==> r.position is None,
        (!window_level(i) && *l is Context) ==> *final(mouse) == mouse_after(i, *old(mouse), x_bits, y_bits, now_micros)
            && *final(touch) == touch_after(i, *old(touch), x_bits, y_bits, now_micros),
        (window_level(i) || !(*l is Context)) ==> *final(mouse) == *old(mouse) && *final(touch) == *old(touch),
{
    let direct = match i {
        RawInput::Moved => Some(matches!(l, WindowListener::Moved)),
        RawInput::CloseRequested => Some(matches!(l, WindowListener::Closed)),
        RawInput::HoveredFile => Some(matches!(l, WindowListener::DroppedFile)),
        RawInput::DroppedFile => Some(matches!(l, WindowListener::DroppedFile)),
        RawInput::HoveredFileCancelled => Some(matches!(l, WindowListener::HoveredFileCancelled)),
        RawInput::TouchpadPressure => Some(matches!(l, WindowListener::TouchpadPressure)),
        RawInput::AxisMotion => Some(matches!(l, WindowListener::AxisMotion)),
        RawInput::ThemeChanged => Some(matches!(l, WindowListener::ThemeChanged)),
        RawInput::Occluded(_) => Some(matches!(l, WindowListener::Occluded)),
        _ => None,
    };
    match direct {
        Some(call) => ListenerCall { call, position: None },
        None => match l {
            WindowListener::Context(c) => context_match_call(c, i, mouse, touch, x_bits, y_bits, now_micros),
            _ => ListenerCall { call: false, position: None },
        },
    }
}

/// An element-level event as it is handed to listeners directly.
#[derive(Clone, Debug, PartialEq, Eq)]
pub enum ContextEventKind {
    Resized,
    Focus,
    Blur,
    Input,
    MouseDown,
    MouseUp,
    MouseOver,
    MouseEnter,
    MouseLeave,
    Scroll,
    Touch,
    KeyDown,
    KeyUp,
    Gesture,
    DoubleTap,
    /// A custom event and its name.
    Custom(String),
    /// An error and its text.
    Error(String),
}

/// A window event as it is handed to listeners directly.
#[derive(Clone, Debug, PartialEq, Eq)]
pub enum WindowEventKind {
    Context(ContextEventKind),
    Moved,
    Closed,
    DroppedFile,
    HoveredFile,
    HoveredFileCancelled,
    TouchpadPressure,
    AxisMotion,
    Theme,
    Occluded,
}

impl ContextEventKind {
    /// A custom event; its name is kept in lowercase.
    pub fn custom_event(name: &str) -> (r: Self)
        ensures
            r matches ContextEventKind::Custom(n) && n@ == unicode_lower(name@),
    {
        ContextEventKind::Custom(lowercase_text(name))
    }
}

impl WindowEventKind {
    /// A custom event at window level (an element-level custom event).
    pub fn custom_event(name: &str) -> (r: Self)
        ensures
            r matches WindowEventKind::Context(ContextEventKind::Custom(n)) && n@ == unicode_lower(name@),
    {
        WindowEventKind::Context(ContextEventKind::custom_event(name))
    }
}

/// Whether event `e` calls listener `l`: the kinds must agree, and a
/// custom event calls the custom listener whose name is the event's name
/// in lowercase.
pub open spec fn context_event_calls(l: ContextListener, e: ContextEventKind) -> bool {
    match e {
        ContextEventKind::Resized => l is Resized,
        ContextEventKind::Focus => l is Focus,
        ContextEventKind::Blur => l is Blur,
        ContextEventKind::Input => l is Input,
        ContextEventKind::MouseDown => l is MouseDown,
        ContextEventKind::MouseUp => l is MouseUp,
        ContextEventKind::MouseOver => l is MouseOver,
        ContextEventKind::MouseEnter => l is MouseEnter,
        ContextEventKind::MouseLeave => l is MouseLeave,
        ContextEventKind::Scroll => l is Scroll,
        ContextEventKind::Touch => l is Touch,
        ContextEventKind::KeyDown => l is KeyDown,
        ContextEventKind::KeyUp => l is KeyUp,
        ContextEventKind::Gesture => l is Gesture,
        ContextEventKind::DoubleTap => l is DoubleTap,
        ContextEventKind::Custom(name) => l matches ContextListener::Custom(n) && unicode_lower(name@) == n@,
        ContextEventKind::Error(_) => l is Error,
    }
}

/// Whether event `e` calls listener `l`.
pub fn context_event_call(l: &ContextListener, e: &ContextEventKind) -> (r: bool)
    ensures
        r == context_event_calls(*l, *e),
{
    match e {
        ContextEventKind::Resized => matches!(l, ContextListener::Resized),
        ContextEventKind::Focus => matches!(l, ContextListener::Focus),
        ContextEventKind::Blur => matches!(l, ContextListener::Blur),
        ContextEventKind::Input => matches!(l, ContextListener::Input),
        ContextEventKind::MouseDown => matches!(l, ContextListener::MouseDown),
        ContextEventKind::MouseUp => matches!(l, ContextListener::MouseUp),
        ContextEventKind::MouseOver => matches!(l, ContextListener::MouseOver),
        ContextEventKind::MouseEnter => matches!(l, ContextListener::MouseEnter),
        ContextEventKind::MouseLeave => matches!(l, ContextListener::MouseLeave),
        ContextEventKind::Scroll => matches!(l, ContextListener::Scroll),
        ContextEventKind::Touch => matches!(l, ContextListener::Touch),
        ContextEventKind::KeyDown => matches!(l, ContextListener::KeyDown),
        ContextEventKind::KeyUp => matches!(l, ContextListener::KeyUp),
        ContextEventKind::Gesture => matches!(l, ContextListener::Gesture),
        ContextEventKind::DoubleTap => matches!(l, ContextListener::DoubleTap),
        ContextEventKind::Custom(name) => match l {
            ContextListener::Custom(own) => {
                let lowered = lowercase_text(name.as_str());
                crate::text::same_text(lowered.as_str(), own.as_str())
            },
            _ => false,
        },
        ContextEventKind::Error(_) => matches!(l, ContextListener::Error),
    }
}

/// Whether window event `e` calls window listener `l`.
pub open spec fn window_event_calls(l: WindowListener, e: WindowEventKind) -> bool {
    match e {
        WindowEventKind::Context(c) => l matches WindowListener::Context(lc) && context_event_calls(lc, c),
        WindowEventKind::Moved => l is Moved,
        WindowEventKind::Closed => l is Closed,
        WindowEventKind::DroppedFile => l is DroppedFile,
        WindowEventKind::HoveredFile => l is HoveredFile,
        WindowEventKind::HoveredFileCancelled => l is HoveredFileCancelled,
        WindowEventKind::TouchpadPressure => l is TouchpadPressure,
        WindowEventKind::AxisMotion => l is AxisMotion,
        WindowEventKind::Theme => l is ThemeChanged,
        WindowEventKind::Occluded => l is Occluded,
    }
}

/// Whether window event `e` calls window listener `l`.
pub fn window_event_call(l: &WindowListener, e: &WindowEventKind) -> (r: bool)
    ensures
        r == window_event_calls(*l, *e),
{
    match e {
        WindowEventKind::Context(c) => match l {
            WindowListener::Context(lc) => context_event_call(lc, c),
            _ => false,
        },
        WindowEventKind::Moved => matches!(l, WindowListener::Moved),
        WindowEventKind::Closed => matches!(l, WindowListener::Closed),
        WindowEventKind::DroppedFile => matches!(l, WindowListener::DroppedFile),
        WindowEventKind::HoveredFile => matches!(l, WindowListener::HoveredFile),
        WindowEventKind::HoveredFileCancelled => matches!(l, WindowListener::HoveredFileCancelled),
        WindowEventKind::TouchpadPressure => matches!(l, WindowListener::TouchpadPressure),
        WindowEventKind::AxisMotion => matches!(l, WindowListener::AxisMotion),
        WindowEventKind::Theme => matches!(l, WindowListener::ThemeChanged),
        WindowEventKind::Occluded => matches!(l, WindowListener::Occluded),
    }
}

} // verus!
