//! Events: their names, the details they carry, what a name and a detail
//! make of an event, and the names that input from the windowing system is
//! given.
use vstd::prelude::*;
use crate::text::same_text;

verus! {

#[derive(Clone, Copy, Debug, PartialEq, Eq, Structural)]
pub enum BubbleEventState {
    Stop,
    Immediate,
    Continue,
}

/// How far a touch or a gesture has got.
#[derive(Clone, Copy, Debug, PartialEq, Eq)]
pub enum TouchPhase {
    Started,
    Moved,
    Ended,
    Cancelled,
}

/// How far a gesture went. Floating-point amounts are held by their bit
/// patterns (`f32::to_bits`, `f64::to_bits`).
#[derive(Clone, Copy, Debug, PartialEq, Eq)]
pub enum GestureDelta {
    /// A hold carries no amount.
    Hold,
    /// A pan: how far along x and along y (`f32` bits).
    Pan(u32, u32),
    /// A pinch: how far the fingers closed or opened (`f64` bits).
    Pinch(u64),
    /// A rotation: by how much (`f32` bits).
    Rotation(u32),
}

/// A gesture on a device: how far it went and its phase.
#[derive(Clone, Copy, Debug, PartialEq, Eq)]
pub struct GestureEventData {
    pub device_id: u64,
    pub delta: GestureDelta,
    pub phase: TouchPhase,
}

/// Pressure on a touchpad: the pressure (`f32` bits) and the click stage.
#[derive(Clone, Copy, Debug, PartialEq, Eq)]
pub struct TouchpadPressureEventData {
    pub device_id: u64,
    pub pressure_bits: u32,
    pub stage: i64,
}

/// How far a wheel scrolled: in lines (`f32` bits) or in pixels (`f64`
/// bits).
#[derive(Clone, Copy, Debug, PartialEq, Eq)]
pub enum MouseScrollDelta {
    LineDelta(u32, u32),
    PixelDelta(u64, u64),
}

/// A scroll: how far, its phase, the device, and where the device's
/// pointer was last seen (`f64` bits), if anywhere.
#[derive(Clone, Copy, Debug, PartialEq, Eq)]
pub struct ScrollData {
    pub delta: MouseScrollDelta,
    pub phase: TouchPhase,
    pub device_id: u64,
    pub position: Option<(u64, u64)>,
}

/// A raw key press or release: which key and whether it went down.
#[derive(Clone, Copy, Debug, PartialEq, Eq)]
pub struct RawKeyData {
    pub physical_key: PhysicalKey,
    pub pressed: bool,
}

/// Motion of a device along an axis: the axis and the amount (`f64` bits).
#[derive(Clone, Copy, Debug, PartialEq, Eq)]
pub struct DeviceMotionData {
    pub axis: u32,
    pub value_bits: u64,
}

/// What an event carries besides its name: one value of one of the kinds
/// the library reads, or `Other` for a detail of any other kind.
#[derive(Debug)]
pub enum Detail {
    /// No value (`()`).
    Empty,
    Text(String),
    /// A size in physical pixels: width and height.
    Size(u32, u32),
    /// A position in physical pixels.
    Position(i32, i32),
    /// A pointer position (`f64` bits of x and y).
    PointerPosition(u64, u64),
    Device(u64),
    Button(u32),
    Gesture(GestureEventData),
    TouchpadPressure(TouchpadPressureEventData),
    /// A new scale factor (`f64` bits).
    ScaleFactor(u64),
    Scroll(ScrollData),
    ActivationToken(ActivationTokenData),
    RawKey(RawKeyData),
    DeviceMotion(DeviceMotionData),
    Other,
}

/// A detail as plain values.
pub enum DetailView {
    Empty,
    Text(Seq<char>),
    Size(u32, u32),
    Position(i32, i32),
    PointerPosition(u64, u64),
    Device(u64),
    Button(u32),
    Gesture(GestureEventData),
    TouchpadPressure(TouchpadPressureEventData),
    ScaleFactor(u64),
    Scroll(ScrollData),
    /// The serial of the request and the token.
    ActivationToken(u64, Seq<char>),
    RawKey(RawKeyData),
    DeviceMotion(DeviceMotionData),
    Other,
}

impl View for Detail {
    type V = DetailView;

    open spec fn view(&self) -> DetailView {
        match self {
            Detail::Empty => DetailView::Empty,
            Detail::Text(s) => DetailView::Text(s@),
            Detail::Size(w, h) => DetailView::Size(*w, *h),
            Detail::Position(x, y) => DetailView::Position(*x, *y),
            Detail::PointerPosition(x, y) => DetailView::PointerPosition(*x, *y),
            Detail::Device(d) => DetailView::Device(*d),
            Detail::Button(b) => DetailView::Button(*b),
            Detail::Gesture(g) => DetailView::Gesture(*g),
            Detail::TouchpadPressure(t) => DetailView::TouchpadPressure(*t),
            Detail::ScaleFactor(s) => DetailView::ScaleFactor(*s),
            Detail::Scroll(s) => DetailView::Scroll(*s),
            Detail::ActivationToken(a) => DetailView::ActivationToken(a.serial, a.token@),
            Detail::RawKey(k) => DetailView::RawKey(*k),
            Detail::DeviceMotion(m) => DetailView::DeviceMotion(*m),
            Detail::Other => DetailView::Other,
        }
    }
}

/// The text a detail holds, when it is a text.
pub open spec fn text_of(d: DetailView) -> Option<Seq<char>> {
    match d {
        DetailView::Text(s) => Some(s),
        _ => None,
    }
}

impl Detail {
    /// A copy of the detail.
    pub fn duplicate(&self) -> (r: Detail)
        ensures
            r@ == self@,
    {
        match self {
            Detail::Empty => Detail::Empty,
            Detail::Text(s) => Detail::Text(s.clone()),
            Detail::Size(w, h) => Detail::Size(*w, *h),
            Detail::Position(x, y) => Detail::Position(*x, *y),
            Detail::PointerPosition(x, y) => Detail::PointerPosition(*x, *y),
            Detail::Device(d) => Detail::Device(*d),
            Detail::Button(b) => Detail::Button(*b),
            Detail::Gesture(g) => Detail::Gesture(*g),
            Detail::TouchpadPressure(t) => Detail::TouchpadPressure(*t),
            Detail::ScaleFactor(s) => Detail::ScaleFactor(*s),
            Detail::Scroll(s) => Detail::Scroll(*s),
            Detail::ActivationToken(a) => Detail::ActivationToken(
                ActivationTokenData { serial: a.serial, token: a.token.clone() },
            ),
            Detail::RawKey(k) => Detail::RawKey(*k),
            Detail::DeviceMotion(m) => Detail::DeviceMotion(*m),
            Detail::Other => Detail::Other,
        }
    }
}

/// An event: a type name, a detail, how it bubbles and whether it may be
/// acted on.
#[derive(Debug)]
pub struct Event {
    pub event_type: String,
    detail: Detail,
    bubbles: BubbleEventState,
    actionable: bool,
}

/// What an event holds, as plain values.
pub struct EventView {
    pub name: Seq<char>,
    pub detail: DetailView,
    pub bubbles: BubbleEventState,
    pub actionable: bool,
}

impl View for Event {
    type V = EventView;

    closed spec fn view(&self) -> EventView {
        EventView {
            name: self.event_type@,
            detail: self.detail@,
            bubbles: self.bubbles,
            actionable: self.actionable,
        }
    }
}

/// An event taken apart: its name, its detail and its state.
pub struct EventData<T> {
    pub event_type: String,
    pub detail: T,
    pub bubbles: BubbleEventState,
    pub actionable: bool,
}

impl EventData<Detail> {
    /// The event these parts make.
    pub fn into_event(self) -> (r: Event)
        ensures
            r@ == (EventView {
                name: self.event_type@,
                detail: self.detail@,
                bubbles: self.bubbles,
                actionable: self.actionable,
            }),
    {
        let EventData { event_type, detail, bubbles, actionable } = self;
        Event { event_type, detail, bubbles, actionable }
    }
}

impl Event {
    /// A new event that bubbles and may be acted on.
    pub fn new(event_type: &str, detail: Detail) -> (e: Event)
        ensures
            e@ == (EventView {
                name: event_type@,
                detail: detail@,
                bubbles: BubbleEventState::Continue,
                actionable: true,
            }),
    {
        Event { event_type: String::from_str(event_type), detail, bubbles: BubbleEventState::Continue, actionable: true }
    }

    /// The type name.
    pub fn name(&self) -> (r: &String)
        ensures
            r@ == self@.name,
    {
        &self.event_type
    }

    pub fn is_actionable(&self) -> (r: bool)
        ensures
            r == self@.actionable,
    {
        self.actionable
    }

    pub fn bubbles(&self) -> (r: BubbleEventState)
        ensures
            r == self@.bubbles,
    {
        self.bubbles
    }

    /// The detail.
    pub fn detail(&self) -> (r: &Detail)
        ensures
            r@ == self@.detail,
    {
        &self.detail
    }

    /// A copy of the detail.
    pub fn clone_detail(&self) -> (r: Detail)
        ensures
            r@ == self@.detail,
    {
        self.detail.duplicate()
    }

    /// The event taken apart.
    pub fn deconstruct(self) -> (r: EventData<Detail>)
        ensures
            r.event_type@ == self@.name,
            r.detail@ == self@.detail,
            r.bubbles == self@.bubbles,
            r.actionable == self@.actionable,
    {
        let Event { event_type, detail, bubbles, actionable } = self;
        EventData { event_type, detail, bubbles, actionable }
    }

    /// The detail, when it is a text.
    pub fn message(&self) -> (r: Option<&String>)
        ensures
            match r {
                Some(s) => text_of(self@.detail) == Some(s@),
                None => text_of(self@.detail) is None,
            },
    {
        match &self.detail {
            Detail::Text(s) => Some(s),
            _ => None,
        }
    }

    /// A copy of the event.
    pub fn duplicate(&self) -> (r: Event)
        ensures
            r@ == self@,
    {
        Event {
            event_type: self.event_type.clone(),
            detail: self.detail.duplicate(),
            bubbles: self.bubbles,
            actionable: self.actionable,
        }
    }

    /// `name: detail`, with "unknown" for a detail that is not a text.
    pub fn to_string(&self) -> (r: String)
        ensures
            r@ == self@.name + ": "@ + (match text_of(self@.detail) {
                Some(m) => m,
                None => "unknown"@,
            }),
    {
        let mut out = self.event_type.clone();
        out.append(": ");
        match &self.detail {
            Detail::Text(m) => out.append(m.as_str()),
            _ => out.append("unknown"),
        }
        out
    }
}

/// Whether an event of this name reports an error.
pub open spec fn is_error_name(n: Seq<char>) -> bool {
    n == "error"@
}

/// The names of events about the application as a whole.
pub open spec fn is_application_name(n: Seq<char>) -> bool {
    ||| n == "activation-token-done"@
    ||| n == "pointermove"@
    ||| n == "buttondown"@
    ||| n == "buttonup"@
    ||| n == "devicemotion"@
    ||| n == "deviceadded"@
    ||| n == "deviceremoved"@
    ||| n == "modifierschanged"@
}

/// The names of events about a window.
pub open spec fn is_window_name(n: Seq<char>) -> bool {
    ||| n == "resized"@
    ||| n == "moved"@
    ||| n == "axis"@
    ||| n == "close"@
    ||| n == "destroyed"@
    ||| n == "hold"@
    ||| n == "pan"@
    ||| n == "pinch"@
    ||| n == "rotate"@
    ||| n == "scalefactor"@
    ||| n == "drop"@
    ||| n == "dragged"@
    ||| n == "draggedend"@
    ||| n == "redraw"@
    ||| n == "themechanged"@
    ||| n == "touchpad"@
}

/// Where an event from the windowing system is handled.
#[derive(Clone, Copy, Debug, PartialEq, Eq, Structural)]
pub enum EventResponse {
    ElementEvent,
    WindowEvent,
    ApplicationEvent,
    Error,
}

pub open spec fn response_for(n: Seq<char>) -> EventResponse {
    if is_error_name(n) {
        EventResponse::Error
    } else if is_application_name(n) {
        EventResponse::ApplicationEvent
    } else if is_window_name(n) {
        EventResponse::WindowEvent
    } else {
        EventResponse::ElementEvent
    }
}


impl Event {
    pub fn is_error(&self) -> (r: bool)
        ensures
            r == is_error_name(self@.name),
    {
        same_text(self.event_type.as_str(), "error")
    }

    pub fn is_application_event(&self) -> (r: bool)
        ensures
            r == is_application_name(self@.name),
    {
        let n = self.event_type.as_str();
        same_text(n, "activation-token-done") || same_text(n, "pointermove") || same_text(n, "buttondown")
            || same_text(n, "buttonup") || same_text(n, "devicemotion") || same_text(n, "deviceadded")
            || same_text(n, "deviceremoved") || same_text(n, "modifierschanged")
    }

    pub fn is_window_event(&self) -> (r: bool)
        ensures
            r == is_window_name(self@.name),
    {
        let n = self.event_type.as_str();
        same_text(n, "resized") || same_text(n, "moved") || same_text(n, "axis") || same_text(n, "close")
            || same_text(n, "destroyed") || same_text(n, "hold") || same_text(n, "pan") || same_text(
            n,
            "pinch",
        ) || same_text(n, "rotate") || same_text(n, "scalefactor") || same_text(n, "drop")
            || same_text(n, "dragged") || same_text(n, "draggedend") || same_text(n, "redraw")
            || same_text(n, "themechanged") || same_text(n, "touchpad")
    }

    /// Where an event from the windowing system is handled: errors go up,
    /// then application events, then window events; the rest go to the
    /// elements.
    pub fn response(&self) -> (r: EventResponse)
        ensures
            r == response_for(self@.name),
    {
        if self.is_error() {
            EventResponse::Error
        } else if self.is_application_event() {
            EventResponse::ApplicationEvent
        } else if self.is_window_event() {
            EventResponse::WindowEvent
        } else {
            EventResponse::ElementEvent
        }
    }

}

/// An event about a window, with the detail its name calls for
/// (input-method events are not handled).
#[derive(Clone, Copy, Debug, PartialEq, Eq)]
pub enum WindowEvent {
    /// The new size: width and height.
    SurfaceResized(u32, u32),
    /// The new position.
    Moved(i32, i32),
    CloseRequested,
    Destroyed,
    Focused(bool),
    /// The device tapped twice.
    DoubleTap(u64),
    /// A hold, pan, pinch or rotation, as its delta tells.
    Gesture(GestureEventData),
    TouchpadPressure(TouchpadPressureEventData),
    /// The new scale factor (`f64` bits).
    ScaleFactorChanged(u64),
    RedrawRequested,
    MouseWheel(ScrollData),
}

/// The name of the event a window event becomes.
pub open spec fn window_event_name_of(w: WindowEvent) -> Seq<char> {
    match w {
        WindowEvent::SurfaceResized(..) => "resized"@,
        WindowEvent::Moved(..) => "moved"@,
        WindowEvent::CloseRequested => "close"@,
        WindowEvent::Destroyed => "destroyed"@,
        WindowEvent::Focused(f) => if f {
            "focus"@
        } else {
            "blur"@
        },
        WindowEvent::DoubleTap(..) => "doubletap"@,
        WindowEvent::Gesture(g) => gesture_name(g.delta),
        WindowEvent::TouchpadPressure(..) => "touchpad"@,
        WindowEvent::ScaleFactorChanged(..) => "scalefactor"@,
        WindowEvent::RedrawRequested => "redraw"@,
        WindowEvent::MouseWheel(..) => "mousewheel"@,
    }
}

/// The detail of the event a window event becomes.
pub open spec fn window_event_detail_of(w: WindowEvent) -> DetailView {
    match w {
        WindowEvent::SurfaceResized(width, height) => DetailView::Size(width, height),
        WindowEvent::Moved(x, y) => DetailView::Position(x, y),
        WindowEvent::DoubleTap(d) => DetailView::Device(d),
        WindowEvent::Gesture(g) => DetailView::Gesture(g),
        WindowEvent::TouchpadPressure(t) => DetailView::TouchpadPressure(t),
        WindowEvent::ScaleFactorChanged(s) => DetailView::ScaleFactor(s),
        WindowEvent::MouseWheel(s) => DetailView::Scroll(s),
        _ => DetailView::Empty,
    }
}

/// The name of the event a gesture makes.
pub open spec fn gesture_name(d: GestureDelta) -> Seq<char> {
    match d {
        GestureDelta::Hold => "hold"@,
        GestureDelta::Pan(..) => "pan"@,
        GestureDelta::Pinch(..) => "pinch"@,
        GestureDelta::Rotation(..) => "rotate"@,
    }
}

/// The name of the event a gesture makes.
pub fn gesture_event_name(d: GestureDelta) -> (r: &'static str)
    ensures
        r@ == gesture_name(d),
{
    match d {
        GestureDelta::Hold => "hold",
        GestureDelta::Pan(..) => "pan",
        GestureDelta::Pinch(..) => "pinch",
        GestureDelta::Rotation(..) => "rotate",
    }
}

/// The window event that an event of name `n` and detail `d` stands for:
/// none when the name is not that of a window event, or when the detail
/// is not of the kind the name calls for. Closing, destruction, focus,
/// blur and redrawing take any detail.
pub open spec fn window_event_of(n: Seq<char>, d: DetailView) -> Option<WindowEvent> {
    if n == "resized"@ {
        match d {
            DetailView::Size(width, height) => Some(WindowEvent::SurfaceResized(width, height)),
            _ => None,
        }
    } else if n == "moved"@ {
        match d {
            DetailView::Position(x, y) => Some(WindowEvent::Moved(x, y)),
            _ => None,
        }
    } else if n == "close"@ {
        Some(WindowEvent::CloseRequested)
    } else if n == "destroyed"@ {
        Some(WindowEvent::Destroyed)
    } else if n == "focus"@ {
        Some(WindowEvent::Focused(true))
    } else if n == "blur"@ {
        Some(WindowEvent::Focused(false))
    } else if n == "doubletap"@ {
        match d {
            DetailView::Device(id) => Some(WindowEvent::DoubleTap(id)),
            _ => None,
        }
    } else if n == "hold"@ || n == "pan"@ || n == "pinch"@ || n == "rotate"@ {
        match d {
            DetailView::Gesture(g) => if gesture_name(g.delta) == n {
                Some(WindowEvent::Gesture(g))
            } else {
                None
            },
            _ => None,
        }
    } else if n == "touchpad"@ {
        match d {
            DetailView::TouchpadPressure(t) => Some(WindowEvent::TouchpadPressure(t)),
            _ => None,
        }
    } else if n == "scalefactor"@ {
        match d {
            DetailView::ScaleFactor(s) => Some(WindowEvent::ScaleFactorChanged(s)),
            _ => None,
        }
    } else if n == "redraw"@ {
        Some(WindowEvent::RedrawRequested)
    } else if n == "mousewheel"@ {
        match d {
            DetailView::Scroll(s) => Some(WindowEvent::MouseWheel(s)),
            _ => None,
        }
    } else {
        None
    }
}

impl Event {
    /// The window event this event stands for, if any.
    pub fn window_event(&self) -> (r: Option<WindowEvent>)
        ensures
            r == window_event_of(self@.name, self@.detail),
    {
        let n = self.event_type.as_str();
        let d = &self.detail;
        if same_text(n, "resized") {
            match d {
                Detail::Size(width, height) => Some(WindowEvent::SurfaceResized(*width, *height)),
                _ => None,
            }
        } else if same_text(n, "moved") {
            match d {
                Detail::Position(x, y) => Some(WindowEvent::Moved(*x, *y)),
                _ => None,
            }
        } else if same_text(n, "close") {
            Some(WindowEvent::CloseRequested)
        } else if same_text(n, "destroyed") {
            Some(WindowEvent::Destroyed)
        } else if same_text(n, "focus") {
            Some(WindowEvent::Focused(true))
        } else if same_text(n, "blur") {
            Some(WindowEvent::Focused(false))
        } else if same_text(n, "doubletap") {
            match d {
                Detail::Device(id) => Some(WindowEvent::DoubleTap(*id)),
                _ => None,
            }
        } else if same_text(n, "hold") || same_text(n, "pan") || same_text(n, "pinch") || same_text(n, "rotate") {
            match d {
                Detail::Gesture(g) => if same_text(n, gesture_event_name(g.delta)) {
                    Some(WindowEvent::Gesture(*g))
                } else {
                    None
                },
                _ => None,
            }
        } else if same_text(n, "touchpad") {
            match d {
                Detail::TouchpadPressure(t) => Some(WindowEvent::TouchpadPressure(*t)),
                _ => None,
            }
        } else if same_text(n, "scalefactor") {
            match d {
                Detail::ScaleFactor(s) => Some(WindowEvent::ScaleFactorChanged(*s)),
                _ => None,
            }
        } else if same_text(n, "redraw") {
            Some(WindowEvent::RedrawRequested)
        } else if same_text(n, "mousewheel") {
            match d {
                Detail::Scroll(s) => Some(WindowEvent::MouseWheel(*s)),
                _ => None,
            }
        } else {
            None
        }
    }
}

impl WindowEvent {
    /// The name of the event this window event becomes.
    pub fn name(&self) -> (r: &'static str)
        ensures
            r@ == window_event_name_of(*self),
    {
        match self {
            WindowEvent::SurfaceResized(..) => "resized",
            WindowEvent::Moved(..) => "moved",
            WindowEvent::CloseRequested => "close",
            WindowEvent::Destroyed => "destroyed",
            WindowEvent::Focused(f) => if *f {
                "focus"
            } else {
                "blur"
            },
            WindowEvent::DoubleTap(..) => "doubletap",
            WindowEvent::Gesture(g) => gesture_event_name(g.delta),
            WindowEvent::TouchpadPressure(..) => "touchpad",
            WindowEvent::ScaleFactorChanged(..) => "scalefactor",
            WindowEvent::RedrawRequested => "redraw",
            WindowEvent::MouseWheel(..) => "mousewheel",
        }
    }

    /// The event this window event becomes: its name, and its payload as
    /// the detail.
    pub fn into_event(self) -> (r: Event)
        ensures
            r@ == (EventView {
                name: window_event_name_of(self),
                detail: window_event_detail_of(self),
                bubbles: BubbleEventState::Continue,
                actionable: true,
            }),
    {
        let detail = match self {
            WindowEvent::SurfaceResized(width, height) => Detail::Size(width, height),
            WindowEvent::Moved(x, y) => Detail::Position(x, y),
            WindowEvent::DoubleTap(d) => Detail::Device(d),
            WindowEvent::Gesture(g) => Detail::Gesture(g),
            WindowEvent::TouchpadPressure(t) => Detail::TouchpadPressure(t),
            WindowEvent::ScaleFactorChanged(s) => Detail::ScaleFactor(s),
            WindowEvent::MouseWheel(s) => Detail::Scroll(s),
            _ => Detail::Empty,
        };
        Event::new(self.name(), detail)
    }

    /// The window event `event` stands for, or the event back, unchanged,
    /// when its name is not that of a window event or its detail is not
    /// of the kind the name calls for.
    pub fn try_from(event: Event) -> (r: Result<WindowEvent, Event>)
        ensures
            match r {
                Ok(w) => window_event_of(event@.name, event@.detail) == Some(w),
                Err(e) => window_event_of(event@.name, event@.detail) is None && e@ == event@,
            },
    {
        match event.window_event() {
            Some(w) => Ok(w),
            None => Err(event),
        }
    }
}

/// An event about the application as a whole, with the detail its name
/// calls for.
#[derive(Clone, Debug, PartialEq, Eq)]
pub enum ApplicationEvent {
    ActivationTokenDone(ActivationTokenData),
    /// How far the pointer moved (`f64` bits of x and y).
    PointerMotion(u64, u64),
    ButtonUp(u32),
    ButtonDown(u32),
    KeyPressed(RawKeyData),
    Motion(DeviceMotionData),
}

/// An application event as plain values.
pub enum ApplicationEventView {
    /// The serial of the request and the token.
    ActivationTokenDone(u64, Seq<char>),
    PointerMotion(u64, u64),
    ButtonUp(u32),
    ButtonDown(u32),
    KeyPressed(RawKeyData),
    Motion(DeviceMotionData),
}

impl View for ApplicationEvent {
    type V = ApplicationEventView;

    open spec fn view(&self) -> ApplicationEventView {
        match self {
            ApplicationEvent::ActivationTokenDone(a) => ApplicationEventView::ActivationTokenDone(a.serial, a.token@),
            ApplicationEvent::PointerMotion(x, y) => ApplicationEventView::PointerMotion(*x, *y),
            ApplicationEvent::ButtonUp(b) => ApplicationEventView::ButtonUp(*b),
            ApplicationEvent::ButtonDown(b) => ApplicationEventView::ButtonDown(*b),
            ApplicationEvent::KeyPressed(k) => ApplicationEventView::KeyPressed(*k),
            ApplicationEvent::Motion(m) => ApplicationEventView::Motion(*m),
        }
    }
}

/// The name of the event an application event becomes.
pub open spec fn application_event_name_of(a: ApplicationEventView) -> Seq<char> {
    match a {
        ApplicationEventView::ActivationTokenDone(..) => "activation-token-done"@,
        ApplicationEventView::PointerMotion(..) => "pointermove"@,
        ApplicationEventView::ButtonDown(..) => "buttondown"@,
        ApplicationEventView::ButtonUp(..) => "buttonup"@,
        ApplicationEventView::KeyPressed(..) => "keypressed"@,
        ApplicationEventView::Motion(..) => "devicemotion"@,
    }
}

/// The detail of the event an application event becomes.
pub open spec fn application_event_detail_of(a: ApplicationEventView) -> DetailView {
    match a {
        ApplicationEventView::ActivationTokenDone(serial, token) => DetailView::ActivationToken(serial, token),
        ApplicationEventView::PointerMotion(x, y) => DetailView::PointerPosition(x, y),
        ApplicationEventView::ButtonDown(b) => DetailView::Button(b),
        ApplicationEventView::ButtonUp(b) => DetailView::Button(b),
        ApplicationEventView::KeyPressed(k) => DetailView::RawKey(k),
        ApplicationEventView::Motion(m) => DetailView::DeviceMotion(m),
    }
}

/// The application event that an event of name `n` and detail `d` stands
/// for: none when the name is not that of an application event, or when
/// the detail is not of the kind the name calls for.
pub open spec fn application_event_of(n: Seq<char>, d: DetailView) -> Option<ApplicationEventView> {
    if n == "activation-token-done"@ {
        match d {
            DetailView::ActivationToken(serial, token) => Some(ApplicationEventView::ActivationTokenDone(serial, token)),
            _ => None,
        }
    } else if n == "pointermove"@ {
        match d {
            DetailView::PointerPosition(x, y) => Some(ApplicationEventView::PointerMotion(x, y)),
            _ => None,
        }
    } else if n == "buttondown"@ {
        match d {
            DetailView::Button(b) => Some(ApplicationEventView::ButtonDown(b)),
            _ => None,
        }
    } else if n == "buttonup"@ {
        match d {
            DetailView::Button(b) => Some(ApplicationEventView::ButtonUp(b)),
            _ => None,
        }
    } else if n == "keypressed"@ {
        match d {
            DetailView::RawKey(k) => Some(ApplicationEventView::KeyPressed(k)),
            _ => None,
        }
    } else if n == "devicemotion"@ {
        match d {
            DetailView::DeviceMotion(m) => Some(ApplicationEventView::Motion(m)),
            _ => None,
        }
    } else {
        None
    }
}

impl Event {
    /// The application event this event stands for, if any.
    pub fn application_event(&self) -> (r: Option<ApplicationEvent>)
        ensures
            match r {
                Some(a) => application_event_of(self@.name, self@.detail) == Some(a@),
                None => application_event_of(self@.name, self@.detail) is None,
            },
    {
        let n = self.event_type.as_str();
        let d = &self.detail;
        if same_text(n, "activation-token-done") {
            match d {
                Detail::ActivationToken(a) => Some(
                    ApplicationEvent::ActivationTokenDone(ActivationTokenData { serial: a.serial, token: a.token.clone() }),
                ),
                _ => None,
            }
        } else if same_text(n, "pointermove") {
            match d {
                Detail::PointerPosition(x, y) => Some(ApplicationEvent::PointerMotion(*x, *y)),
                _ => None,
            }
        } else if same_text(n, "buttondown") {
            match d {
                Detail::Button(b) => Some(ApplicationEvent::ButtonDown(*b)),
                _ => None,
            }
        } else if same_text(n, "buttonup") {
            match d {
                Detail::Button(b) => Some(ApplicationEvent::ButtonUp(*b)),
                _ => None,
            }
        } else if same_text(n, "keypressed") {
            match d {
                Detail::RawKey(k) => Some(ApplicationEvent::KeyPressed(*k)),
                _ => None,
            }
        } else if same_text(n, "devicemotion") {
            match d {
                Detail::DeviceMotion(m) => Some(ApplicationEvent::Motion(*m)),
                _ => None,
            }
        } else {
            None
        }
    }

    /// The window event to act on: `Ok(None)` when the event may not be
    /// acted on, else the window event it stands for, or the event back,
    /// unchanged, when it stands for none.
    pub fn actionable_window_event(self) -> (r: Result<Option<WindowEvent>, Event>)
        ensures
            match r {
                Ok(None) => !self@.actionable,
                Ok(Some(w)) => self@.actionable && window_event_of(self@.name, self@.detail) == Some(w),
                Err(e) => self@.actionable && window_event_of(self@.name, self@.detail) is None && e@ == self@,
            },
    {
        if !self.actionable {
            return Ok(None);
        }
        match WindowEvent::try_from(self) {
            Ok(w) => Ok(Some(w)),
            Err(e) => Err(e),
        }
    }

    /// The application event to act on: `Ok(None)` when the event may not
    /// be acted on, else the application event it stands for, or the
    /// event back, unchanged, when it stands for none.
    pub fn actionable_application_event(self) -> (r: Result<Option<ApplicationEvent>, Event>)
        ensures
            match r {
                Ok(None) => !self@.actionable,
                Ok(Some(a)) => self@.actionable && application_event_of(self@.name, self@.detail) == Some(a@),
                Err(e) => self@.actionable && application_event_of(self@.name, self@.detail) is None && e@
                    == self@,
            },
    {
        if !self.actionable {
            return Ok(None);
        }
        match ApplicationEvent::try_from(self) {
            Ok(a) => Ok(Some(a)),
            Err(e) => Err(e),
        }
    }
}

impl ApplicationEvent {
    /// The name of the event this application event becomes.
    pub fn name(&self) -> (r: &'static str)
        ensures
            r@ == application_event_name_of(self@),
    {
        match self {
            ApplicationEvent::ActivationTokenDone(..) => "activation-token-done",
            ApplicationEvent::PointerMotion(..) => "pointermove",
            ApplicationEvent::ButtonDown(..) => "buttondown",
            ApplicationEvent::ButtonUp(..) => "buttonup",
            ApplicationEvent::KeyPressed(..) => "keypressed",
            ApplicationEvent::Motion(..) => "devicemotion",
        }
    }

    /// The event this application event becomes: its name, and its
    /// payload as the detail.
    pub fn into_event(self) -> (r: Event)
        ensures
            r@ == (EventView {
                name: application_event_name_of(self@),
                detail: application_event_detail_of(self@),
                bubbles: BubbleEventState::Continue,
                actionable: true,
            }),
    {
        let name = self.name();
        let detail = match self {
            ApplicationEvent::ActivationTokenDone(a) => Detail::ActivationToken(a),
            ApplicationEvent::PointerMotion(x, y) => Detail::PointerPosition(x, y),
            ApplicationEvent::ButtonDown(b) => Detail::Button(b),
            ApplicationEvent::ButtonUp(b) => Detail::Button(b),
            ApplicationEvent::KeyPressed(k) => Detail::RawKey(k),
            ApplicationEvent::Motion(m) => Detail::DeviceMotion(m),
        };
        Event::new(name, detail)
    }

    /// The application event `event` stands for, or the event back,
    /// unchanged, when its name is not that of an application event or its
    /// detail is not of the kind the name calls for.
    pub fn try_from(event: Event) -> (r: Result<ApplicationEvent, Event>)
        ensures
            match r {
                Ok(a) => application_event_of(event@.name, event@.detail) == Some(a@),
                Err(e) => application_event_of(event@.name, event@.detail) is None && e@ == event@,
            },
    {
        match event.application_event() {
            Some(a) => Ok(a),
            None => Err(event),
        }
    }
}

/// A window event made into an event and read back is the same window
/// event, with the same payload.
pub proof fn law_window_event_round_trip(w: WindowEvent)
    ensures
        window_event_of(window_event_name_of(w), window_event_detail_of(w)) == Some(w),
{
    reveal_strlit("resized");
    reveal_strlit("moved");
    reveal_strlit("close");
    reveal_strlit("destroyed");
    reveal_strlit("focus");
    reveal_strlit("blur");
    reveal_strlit("doubletap");
    reveal_strlit("hold");
    reveal_strlit("pan");
    reveal_strlit("pinch");
    reveal_strlit("rotate");
    reveal_strlit("touchpad");
    reveal_strlit("scalefactor");
    reveal_strlit("redraw");
    reveal_strlit("mousewheel");
    assert("resized"@.len() == 7 && "resized"@[0] == 'r' && "resized"@[1] == 'e' && "resized"@[2] == 's');
    assert("moved"@.len() == 5 && "moved"@[0] == 'm' && "moved"@[1] == 'o' && "moved"@[2] == 'v');
    assert("close"@.len() == 5 && "close"@[0] == 'c' && "close"@[1] == 'l' && "close"@[2] == 'o');
    assert("destroyed"@.len() == 9 && "destroyed"@[0] == 'd' && "destroyed"@[1] == 'e' && "destroyed"@[2] == 's');
    assert("focus"@.len() == 5 && "focus"@[0] == 'f' && "focus"@[1] == 'o' && "focus"@[2] == 'c');
    assert("blur"@.len() == 4 && "blur"@[0] == 'b' && "blur"@[1] == 'l' && "blur"@[2] == 'u');
    assert("doubletap"@.len() == 9 && "doubletap"@[0] == 'd' && "doubletap"@[1] == 'o' && "doubletap"@[2] == 'u');
    assert("hold"@.len() == 4 && "hold"@[0] == 'h' && "hold"@[1] == 'o' && "hold"@[2] == 'l');
    assert("pan"@.len() == 3 && "pan"@[0] == 'p' && "pan"@[1] == 'a' && "pan"@[2] == 'n');
    assert("pinch"@.len() == 5 && "pinch"@[0] == 'p' && "pinch"@[1] == 'i' && "pinch"@[2] == 'n');
    assert("rotate"@.len() == 6 && "rotate"@[0] == 'r' && "rotate"@[1] == 'o' && "rotate"@[2] == 't');
    assert("touchpad"@.len() == 8 && "touchpad"@[0] == 't' && "touchpad"@[1] == 'o' && "touchpad"@[2] == 'u');
    assert("scalefactor"@.len() == 11 && "scalefactor"@[0] == 's' && "scalefactor"@[1] == 'c' && "scalefactor"@[2] == 'a');
    assert("redraw"@.len() == 6 && "redraw"@[0] == 'r' && "redraw"@[1] == 'e' && "redraw"@[2] == 'd');
    assert("mousewheel"@.len() == 10 && "mousewheel"@[0] == 'm' && "mousewheel"@[1] == 'o' && "mousewheel"@[2] == 'u');
    match w {
        WindowEvent::Gesture(g) => match g.delta {
            GestureDelta::Hold => {},
            GestureDelta::Pan(..) => {},
            GestureDelta::Pinch(..) => {},
            GestureDelta::Rotation(..) => {},
        },
        _ => {},
    }
}

/// An application event made into an event and read back is the same
/// application event, with the same payload.
pub proof fn law_application_event_round_trip(a: ApplicationEventView)
    ensures
        application_event_of(application_event_name_of(a), application_event_detail_of(a)) == Some(a),
{
    reveal_strlit("activation-token-done");
    reveal_strlit("pointermove");
    reveal_strlit("buttondown");
    reveal_strlit("buttonup");
    reveal_strlit("keypressed");
    reveal_strlit("devicemotion");
    assert("activation-token-done"@.len() == 21 && "activation-token-done"@[0] == 'a' && "activation-token-done"@[1] == 'c' && "activation-token-done"@[2] == 't');
    assert("pointermove"@.len() == 11 && "pointermove"@[0] == 'p' && "pointermove"@[1] == 'o' && "pointermove"@[2] == 'i');
    assert("buttondown"@.len() == 10 && "buttondown"@[0] == 'b' && "buttondown"@[1] == 'u' && "buttondown"@[2] == 't' && "buttondown"@[6] == 'd');
    assert("buttonup"@.len() == 8 && "buttonup"@[0] == 'b' && "buttonup"@[1] == 'u' && "buttonup"@[2] == 't');
    assert("keypressed"@.len() == 10 && "keypressed"@[0] == 'k' && "keypressed"@[1] == 'e' && "keypressed"@[2] == 'y');
    assert("devicemotion"@.len() == 12 && "devicemotion"@[0] == 'd' && "devicemotion"@[1] == 'e' && "devicemotion"@[2] == 'v');
}

/// The events named after a window's size, position, closing, destruction,
/// gestures, touchpad pressure, scale factor and redrawing are handled by
/// the window.
pub proof fn law_window_names_go_to_the_window()
    ensures
        response_for("resized"@) == EventResponse::WindowEvent,
        response_for("moved"@) == EventResponse::WindowEvent,
        response_for("close"@) == EventResponse::WindowEvent,
        response_for("destroyed"@) == EventResponse::WindowEvent,
        response_for("hold"@) == EventResponse::WindowEvent,
        response_for("pan"@) == EventResponse::WindowEvent,
        response_for("pinch"@) == EventResponse::WindowEvent,
        response_for("rotate"@) == EventResponse::WindowEvent,
        response_for("touchpad"@) == EventResponse::WindowEvent,
        response_for("scalefactor"@) == EventResponse::WindowEvent,
        response_for("redraw"@) == EventResponse::WindowEvent,
{
    reveal_strlit("error");
    reveal_strlit("activation-token-done");
    reveal_strlit("pointermove");
    reveal_strlit("buttondown");
    reveal_strlit("buttonup");
    reveal_strlit("devicemotion");
    reveal_strlit("deviceadded");
    reveal_strlit("deviceremoved");
    reveal_strlit("modifierschanged");
    reveal_strlit("resized");
    reveal_strlit("moved");
    reveal_strlit("close");
    reveal_strlit("destroyed");
    reveal_strlit("hold");
    reveal_strlit("pan");
    reveal_strlit("pinch");
    reveal_strlit("rotate");
    reveal_strlit("touchpad");
    reveal_strlit("scalefactor");
    reveal_strlit("redraw");
    assert("error"@.len() == 5 && "error"@[0] == 'e');
    assert("activation-token-done"@.len() == 21);
    assert("pointermove"@.len() == 11);
    assert("buttondown"@.len() == 10 && "buttondown"@[0] == 'b');
    assert("buttonup"@.len() == 8 && "buttonup"@[0] == 'b');
    assert("devicemotion"@.len() == 12);
    assert("deviceadded"@.len() == 11 && "deviceadded"@[0] == 'd');
    assert("deviceremoved"@.len() == 13);
    assert("modifierschanged"@.len() == 16);
    assert("resized"@.len() == 7 && "resized"@[0] == 'r');
    assert("moved"@.len() == 5 && "moved"@[0] == 'm');
    assert("close"@.len() == 5 && "close"@[0] == 'c');
    assert("destroyed"@.len() == 9 && "destroyed"@[0] == 'd');
    assert("hold"@.len() == 4 && "hold"@[0] == 'h');
    assert("pan"@.len() == 3 && "pan"@[0] == 'p');
    assert("pinch"@.len() == 5 && "pinch"@[0] == 'p');
    assert("rotate"@.len() == 6 && "rotate"@[0] == 'r');
    assert("touchpad"@.len() == 8 && "touchpad"@[0] == 't');
    assert("scalefactor"@.len() == 11 && "scalefactor"@[0] == 's' && "scalefactor"@[1] == 'c');
    assert("redraw"@.len() == 6 && "redraw"@[0] == 'r' && "redraw"@[1] == 'e' && "redraw"@[2] == 'd');
    assert("pointermove"@[0] == 'p' && "modifierschanged"@[0] == 'm' && "devicemotion"@[0] == 'd' && "deviceremoved"@[0] == 'd');
}

/// The event a window event becomes is handled by the window, except for
/// focus, blur, double taps and the mouse wheel, which go to the elements.
pub proof fn law_window_events_go_to_the_window(w: WindowEvent)
    requires
        !(w is Focused),
        !(w is DoubleTap),
        !(w is MouseWheel),
    ensures
        response_for(window_event_name_of(w)) == EventResponse::WindowEvent,
{
    law_window_names_go_to_the_window();
    match w {
        WindowEvent::Gesture(g) => match g.delta {
            GestureDelta::Hold => {},
            GestureDelta::Pan(..) => {},
            GestureDelta::Pinch(..) => {},
            GestureDelta::Rotation(..) => {},
        },
        _ => {},
    }
}

/// A window event is named by what happened: focus "focus", blur "blur",
/// a resize "resized", a move "moved", a close request "close", a redraw
/// request "redraw", a double tap "doubletap", the wheel "mousewheel".
pub proof fn law_window_event_names(w: WindowEvent)
    ensures
        w matches WindowEvent::Focused(f) ==> window_event_name_of(w) == (if f {
            "focus"@
        } else {
            "blur"@
        }),
        w is SurfaceResized ==> window_event_name_of(w) == "resized"@,
        w is Moved ==> window_event_name_of(w) == "moved"@,
        w is CloseRequested ==> window_event_name_of(w) == "close"@,
        w is RedrawRequested ==> window_event_name_of(w) == "redraw"@,
        w is DoubleTap ==> window_event_name_of(w) == "doubletap"@,
        w is MouseWheel ==> window_event_name_of(w) == "mousewheel"@,
{
}

/// What a window does with a window event it may act on.
#[derive(Clone, Copy, Debug, PartialEq, Eq, Structural)]
pub enum WindowAction {
    /// Draw a frame.
    Render,
    /// Rebuild the swapchain for the new size.
    Resize,
    /// Report the scrolling.
    ReportScroll,
    /// Close the window.
    Close,
    /// Nothing to do.
    Ignore,
}

pub open spec fn window_action_for(w: Option<WindowEvent>) -> WindowAction {
    match w {
        Some(WindowEvent::RedrawRequested) => WindowAction::Render,
        Some(WindowEvent::SurfaceResized(..)) => WindowAction::Resize,
        Some(WindowEvent::MouseWheel(..)) => WindowAction::ReportScroll,
        Some(WindowEvent::CloseRequested) => WindowAction::Close,
        _ => WindowAction::Ignore,
    }
}

/// A window draws on a redraw request, rebuilds its swapchain on a resize,
/// reports scrolling, closes on a close request, and does nothing else.
pub proof fn law_window_actions(w: Option<WindowEvent>)
    ensures
        w == Some(WindowEvent::RedrawRequested) <==> window_action_for(w) == WindowAction::Render,
        w == Some(WindowEvent::CloseRequested) <==> window_action_for(w) == WindowAction::Close,
        (w matches Some(WindowEvent::SurfaceResized(..))) <==> window_action_for(w) == WindowAction::Resize,
        (w matches Some(WindowEvent::MouseWheel(..))) <==> window_action_for(w) == WindowAction::ReportScroll,
{
}

/// What a window does with the window event (if any) it may act on.
pub fn window_action(w: Option<WindowEvent>) -> (r: WindowAction)
    ensures
        r == window_action_for(w),
{
    match w {
        Some(WindowEvent::RedrawRequested) => WindowAction::Render,
        Some(WindowEvent::SurfaceResized(..)) => WindowAction::Resize,
        Some(WindowEvent::MouseWheel(..)) => WindowAction::ReportScroll,
        Some(WindowEvent::CloseRequested) => WindowAction::Close,
        _ => WindowAction::Ignore,
    }
}

/// The key that was pressed, by where it sits on the keyboard: a known key
/// code, or a key the platform could not identify (each by a number that
/// stands for it).
#[derive(Clone, Copy, Debug, PartialEq, Eq, Structural)]
pub enum PhysicalKey {
    Code(u64),
    Unidentified(u64),
}

/// The key that was pressed, by what it means under the current layout.
#[derive(Clone, Debug, PartialEq, Eq)]
pub enum LogicalKey {
    Named(u64),
    Character(String),
    Unidentified(u64),
    Dead(Option<char>),
}

/// A key press or release as the windowing system reports it.
#[derive(Clone, Debug, PartialEq, Eq)]
pub struct KeyEvent {
    pub physical_key: PhysicalKey,
    pub logical_key: LogicalKey,
    pub text: Option<String>,
    pub location: u8,
    pub pressed: bool,
    pub repeat: bool,
}

/// The detail of a keyboard event: which keyboard, which key, the text it
/// typed, whether it went down, and whether it repeats.
#[derive(Clone, Debug, PartialEq, Eq)]
pub struct KeyboardData {
    pub keyboard_id: u64,
    pub physical_key: PhysicalKey,
    pub logical_key: LogicalKey,
    pub text: Option<String>,
    pub pressed: bool,
    pub repeat: bool,
}

impl KeyboardData {
    /// The detail of `event` from keyboard `keyboard_id`; where on the
    /// keyboard the key sits is not kept.
    pub fn from(keyboard_id: u64, event: KeyEvent) -> (r: Self)
        ensures
            r.keyboard_id == keyboard_id,
            r.physical_key == event.physical_key,
            r.logical_key == event.logical_key,
            r.text == event.text,
            r.pressed == event.pressed,
            r.repeat == event.repeat,
    {
        let KeyEvent { physical_key, logical_key, text, pressed, repeat, .. } = event;
        KeyboardData { keyboard_id, physical_key, logical_key, text, pressed, repeat }
    }
}

/// The detail of an activation-token event: the serial of the request and
/// the token granted.
#[derive(Clone, Debug, PartialEq, Eq)]
pub struct ActivationTokenData {
    pub serial: u64,
    pub token: String,
}

/// Input the windowing system reports about a window, as far as naming
/// the resulting event goes.
#[derive(Clone, Copy, Debug, PartialEq, Eq, Structural)]
pub enum WindowInput {
    ActivationTokenDone,
    AxisMotion,
    CloseRequested,
    CursorEntered,
    CursorLeft,
    CursorMoved,
    Destroyed,
    /// Whether a touch position younger than the double-tap window is known.
    DoubleTapGesture { position_known: bool },
    DroppedFile,
    HoveredFile,
    HoveredFileCancelled,
    Focused(bool),
    KeyboardInput { pressed: bool },
    ModifiersChanged,
    /// Whether the pointer position is known.
    MouseInput { pressed: bool, position_known: bool },
    MouseWheel,
    Moved,
    Occluded(bool),
    PanGesture,
    PinchGesture,
    RotationGesture,
    RedrawRequested,
    Resized,
    ScaleFactorChanged,
    ThemeChanged,
    Touch,
    TouchpadPressure,
}

/// What happens to the remembered pointer or touch position of the device.
#[derive(Clone, Copy, Debug, PartialEq, Eq, Structural)]
pub enum HistoryUpdate {
    Keep,
    Record,
    Forget,
}

/// The name of the event made from window input, whether its detail is
/// an error text (which one), and what becomes of the remembered position.
pub struct Naming {
    pub name: &'static str,
    pub error: Option<&'static str>,
    pub history: HistoryUpdate,
}

pub open spec fn tap_error() -> Seq<char> {
    "Failed to get postion on double tap!"@
}

pub open spec fn mouse_error() -> Seq<char> {
    "Failed to get position of the mouse on input!"@
}

pub open spec fn window_input_name(i: WindowInput) -> Seq<char> {
    match i {
        WindowInput::ActivationTokenDone => "activation-token-done"@,
        WindowInput::AxisMotion => "axis"@,
        WindowInput::CloseRequested => "close"@,
        WindowInput::CursorEntered => "mousein"@,
        WindowInput::CursorLeft => "mouseout"@,
        WindowInput::CursorMoved => "mouseover"@,
        WindowInput::Destroyed => "destroyed"@,
        WindowInput::DoubleTapGesture { position_known } => if position_known {
            "doubletap"@
        } else {
            "error"@
        },
        WindowInput::DroppedFile => "drop"@,
        WindowInput::HoveredFile => "dragged"@,
        WindowInput::HoveredFileCancelled => "draggedend"@,
        WindowInput::Focused(f) => if f {
            "focus"@
        } else {
            "blur"@
        },
        WindowInput::KeyboardInput { pressed } => if pressed {
            "keydown"@
        } else {
            "keyup"@
        },
        WindowInput::ModifiersChanged => "modifierschanged"@,
        WindowInput::MouseInput { pressed, position_known } => if !position_known {
            "error"@
        } else if pressed {
            "mousedown"@
        } else {
            "mouseup"@
        },
        WindowInput::MouseWheel => "mousewheel"@,
        WindowInput::Moved => "moved"@,
        WindowInput::Occluded(o) => if o {
            "maximized"@
        } else {
            "minimized"@
        },
        WindowInput::PanGesture => "pan"@,
        WindowInput::PinchGesture => "pan"@,
        WindowInput::RotationGesture => "pan"@,
        WindowInput::RedrawRequested => "redraw"@,
        WindowInput::Resized => "resized"@,
        WindowInput::ScaleFactorChanged => "scalefactor"@,
        WindowInput::ThemeChanged => "themechanged"@,
        WindowInput::Touch => "touch"@,
        WindowInput::TouchpadPressure => "touchpad"@,
    }
}

pub open spec fn window_input_error(i: WindowInput) -> Option<Seq<char>> {
    match i {
        WindowInput::DoubleTapGesture { position_known } => if position_known {
            None
        } else {
            Some(tap_error())
        },
        WindowInput::MouseInput { position_known, .. } => if position_known {
            None
        } else {
            Some(mouse_error())
        },
        _ => None,
    }
}

pub open spec fn window_input_history(i: WindowInput) -> HistoryUpdate {
    match i {
        WindowInput::CursorLeft => HistoryUpdate::Forget,
        WindowInput::CursorMoved => HistoryUpdate::Record,
        WindowInput::Touch => HistoryUpdate::Record,
        _ => HistoryUpdate::Keep,
    }
}

fn input_name(i: WindowInput) -> (r: &'static str)
    ensures
        r@ == window_input_name(i),
{
    match i {
        WindowInput::ActivationTokenDone => "activation-token-done",
        WindowInput::AxisMotion => "axis",
        WindowInput::CloseRequested => "close",
        WindowInput::CursorEntered => "mousein",
        WindowInput::CursorLeft => "mouseout",
        WindowInput::CursorMoved => "mouseover",
        WindowInput::Destroyed => "destroyed",
        WindowInput::DoubleTapGesture { position_known } => if position_known {
            "doubletap"
        } else {
            "error"
        },
        WindowInput::DroppedFile => "drop",
        WindowInput::HoveredFile => "dragged",
        WindowInput::HoveredFileCancelled => "draggedend",
        WindowInput::Focused(f) => if f {
            "focus"
        } else {
            "blur"
        },
        WindowInput::KeyboardInput { pressed } => if pressed {
            "keydown"
        } else {
            "keyup"
        },
        WindowInput::ModifiersChanged => "modifierschanged",
        WindowInput::MouseInput { pressed, position_known } => if !position_known {
            "error"
        } else if pressed {
            "mousedown"
        } else {
            "mouseup"
        },
        WindowInput::MouseWheel => "mousewheel",
        WindowInput::Moved => "moved",
        WindowInput::Occluded(o) => if o {
            "maximized"
        } else {
            "minimized"
        },
        WindowInput::PanGesture => "pan",
        WindowInput::PinchGesture => "pan",
        WindowInput::RotationGesture => "pan",
        WindowInput::RedrawRequested => "redraw",
        WindowInput::Resized => "resized",
        WindowInput::ScaleFactorChanged => "scalefactor",
        WindowInput::ThemeChanged => "themechanged",
        WindowInput::Touch => "touch",
        WindowInput::TouchpadPressure => "touchpad",
    }
}

fn input_error(i: WindowInput) -> (r: Option<&'static str>)
    ensures
        match r {
            Some(e) => window_input_error(i) == Some(e@),
            None => window_input_error(i) is None,
        },
{
    match i {
        WindowInput::DoubleTapGesture { position_known } => if position_known {
            None
        } else {
            Some("Failed to get postion on double tap!")
        },
        WindowInput::MouseInput { position_known, .. } => if position_known {
            None
        } else {
            Some("Failed to get position of the mouse on input!")
        },
        _ => None,
    }
}

fn input_history(i: WindowInput) -> (r: HistoryUpdate)
    ensures
        r == window_input_history(i),
{
    match i {
        WindowInput::CursorLeft => HistoryUpdate::Forget,
        WindowInput::CursorMoved => HistoryUpdate::Record,
        WindowInput::Touch => HistoryUpdate::Record,
        _ => HistoryUpdate::Keep,
    }
}

/// A window gaining focus makes a "focus" event and a window losing it a
/// "blur" event.
pub proof fn law_focus_names(f: bool)
    ensures
        window_input_name(WindowInput::Focused(f)) == (if f {
            "focus"@
        } else {
            "blur"@
        }),
        window_input_name(WindowInput::Focused(true)) == "focus"@,
        window_input_name(WindowInput::Focused(false)) == "blur"@,
{
}

/// Key, mouse-button and occlusion input are named by their state: a key
/// press "keydown" and a release "keyup"; a button press "mousedown" and a
/// release "mouseup" when the pointer position is known, else "error" with
/// its text; an occluded window "maximized", a visible one "minimized".
/// Pointer moves and touches are remembered, a pointer leaving forgotten.
pub proof fn law_input_names(pressed: bool, known: bool, occluded: bool)
    ensures
        window_input_name(WindowInput::KeyboardInput { pressed }) == (if pressed {
            "keydown"@
        } else {
            "keyup"@
        }),
        window_input_name(WindowInput::MouseInput { pressed, position_known: known }) == (if !known {
            "error"@
        } else if pressed {
            "mousedown"@
        } else {
            "mouseup"@
        }),
        window_input_error(WindowInput::MouseInput { pressed, position_known: known }) == (if known {
            None
        } else {
            Some("Failed to get position of the mouse on input!"@)
        }),
        window_input_name(WindowInput::DoubleTapGesture { position_known: known }) == (if known {
            "doubletap"@
        } else {
            "error"@
        }),
        window_input_error(WindowInput::DoubleTapGesture { position_known: known }) == (if known {
            None
        } else {
            Some("Failed to get postion on double tap!"@)
        }),
        window_input_name(WindowInput::Occluded(occluded)) == (if occluded {
            "maximized"@
        } else {
            "minimized"@
        }),
        window_input_name(WindowInput::Resized) == "resized"@,
        window_input_name(WindowInput::Moved) == "moved"@,
        window_input_name(WindowInput::CloseRequested) == "close"@,
        window_input_name(WindowInput::RedrawRequested) == "redraw"@,
        window_input_name(WindowInput::CursorMoved) == "mouseover"@,
        window_input_name(WindowInput::CursorLeft) == "mouseout"@,
        window_input_name(WindowInput::CursorEntered) == "mousein"@,
        window_input_history(WindowInput::CursorMoved) == HistoryUpdate::Record,
        window_input_history(WindowInput::Touch) == HistoryUpdate::Record,
        window_input_history(WindowInput::CursorLeft) == HistoryUpdate::Forget,
{
}

/// Device buttons are named by their state: a press "buttondown" and a
/// release "buttonup".
pub proof fn law_device_button_names(pressed: bool)
    ensures
        device_input_name(DeviceInput::Button { pressed }) == (if pressed {
            "buttondown"@
        } else {
            "buttonup"@
        }),
        device_input_name(DeviceInput::MouseMotion) == "pointermove"@,
        device_input_name(DeviceInput::Key) == "keypressed"@,
{
}

/// How window input is named (input-method events are not handled).
pub fn name_window_input(i: WindowInput) -> (r: Naming)
    ensures
        r.name@ == window_input_name(i),
        match r.error {
            Some(e) => window_input_error(i) == Some(e@),
            None => window_input_error(i) is None,
        },
        r.history == window_input_history(i),
{
    Naming { name: input_name(i), error: input_error(i), history: input_history(i) }
}

/// Input the windowing system reports about a device.
#[derive(Clone, Copy, Debug, PartialEq, Eq, Structural)]
pub enum DeviceInput {
    Added,
    Button { pressed: bool },
    Key,
    Motion,
    MouseMotion,
    MouseWheel,
    Removed,
}

pub open spec fn device_input_name(i: DeviceInput) -> Seq<char> {
    match i {
        DeviceInput::Added => "deviceadded"@,
        DeviceInput::Button { pressed } => if pressed {
            "buttondown"@
        } else {
            "buttonup"@
        },
        DeviceInput::Key => "keypressed"@,
        DeviceInput::Motion => "devicemotion"@,
        DeviceInput::MouseMotion => "pointermove"@,
        DeviceInput::MouseWheel => "mousewheel"@,
        DeviceInput::Removed => "deviceremoved"@,
    }
}

/// The name of the event made from device input.
pub fn name_device_input(i: DeviceInput) -> (r: &'static str)
    ensures
        r@ == device_input_name(i),
{
    match i {
        DeviceInput::Added => "deviceadded",
        DeviceInput::Button { pressed } => if pressed {
            "buttondown"
        } else {
            "buttonup"
        },
        DeviceInput::Key => "keypressed",
        DeviceInput::Motion => "devicemotion",
        DeviceInput::MouseMotion => "pointermove",
        DeviceInput::MouseWheel => "mousewheel",
        DeviceInput::Removed => "deviceremoved",
    }
}

} // verus!
