use rust_gui::event::{HistoryUpdate, WindowInput};
use rust_gui::history::{route_window_input, track_window_input, EventHistory, Route};
use rust_gui::listener::{
    context_event_call, context_match_call, window_event_call, window_match_call, ContextEventKind,
    ContextListener, PositionSlot, RawInput, WindowEventKind, WindowListener,
};

#[test]
fn history_recalls_within_the_timeout() {
    let mut h = EventHistory::new();
    assert_eq!(h.get(1, None, 0), None);
    h.update(1, 10, 20, 1_000);
    assert_eq!(h.get(1, None, 5_000), Some((10, 20)));
    assert_eq!(h.get(1, Some(300), 1_300), Some((10, 20)));
    assert_eq!(h.get(1, Some(300), 1_301), None);
    assert_eq!(h.get(1, Some(300), 10), Some((10, 20)));
    assert_eq!(h.get(2, None, 1_000), None);
    h.remove(1);
    assert_eq!(h.get(1, None, 1_000), None);
}

#[test]
fn tracking_names_input_against_the_history() {
    let mut h = EventHistory::new();
    let (n, p) = track_window_input(&mut h, WindowInput::MouseInput { pressed: true, position_known: true }, 7, 0, 0, 0);
    assert_eq!(n.name, "error");
    assert_eq!(n.error, Some("Failed to get position of the mouse on input!"));
    assert_eq!(p, None);
    let (n, _) = track_window_input(&mut h, WindowInput::CursorMoved, 7, 3, 4, 100);
    assert_eq!(n.name, "mouseover");
    assert_eq!(n.history, HistoryUpdate::Record);
    let (n, p) = track_window_input(&mut h, WindowInput::MouseInput { pressed: true, position_known: false }, 7, 0, 0, 900);
    assert_eq!(n.name, "mousedown");
    assert_eq!(n.error, None);
    assert_eq!(p, Some((3, 4)));
    let (n, _) = track_window_input(&mut h, WindowInput::DoubleTapGesture { position_known: true }, 7, 0, 0, 900);
    assert_eq!(n.name, "error");
    assert_eq!(n.error, Some("Failed to get postion on double tap!"));
    let (n, p) = track_window_input(&mut h, WindowInput::DoubleTapGesture { position_known: false }, 7, 0, 0, 350);
    assert_eq!(n.name, "doubletap");
    assert_eq!(p, Some((3, 4)));
    track_window_input(&mut h, WindowInput::CursorLeft, 7, 0, 0, 1000);
    assert_eq!(h.get(7, None, 1000), None);
}

#[test]
fn routing_window_input() {
    let mut mouse = EventHistory::new();
    let mut touch = EventHistory::new();
    let (r, p) = route_window_input(&mut mouse, &mut touch, RawInput::MouseInput { device: 1, pressed: true }, 0, 0, 0);
    assert_eq!(r, Route::Dropped);
    assert_eq!(p, None);
    let (r, _) = route_window_input(&mut mouse, &mut touch, RawInput::CursorMoved { device: 1 }, 5, 6, 10);
    assert_eq!(r, Route::Element("mouseover"));
    let (r, p) = route_window_input(&mut mouse, &mut touch, RawInput::MouseInput { device: 1, pressed: false }, 0, 0, 20);
    assert_eq!(r, Route::Element("mouseup"));
    assert_eq!(p, Some((5, 6)));
    // a double tap looks at touches only
    let (r, _) = route_window_input(&mut mouse, &mut touch, RawInput::DoubleTapGesture { device: 1 }, 0, 0, 20);
    assert_eq!(r, Route::Dropped);
    route_window_input(&mut mouse, &mut touch, RawInput::Touch { device: 1 }, 8, 9, 30);
    let (r, p) = route_window_input(&mut mouse, &mut touch, RawInput::DoubleTapGesture { device: 1 }, 0, 0, 300);
    assert_eq!(r, Route::Element("doubletap"));
    assert_eq!(p, Some((8, 9)));
    let (r, _) = route_window_input(&mut mouse, &mut touch, RawInput::CursorLeft { device: 1 }, 0, 0, 40);
    assert_eq!(r, Route::Element("mouseleave"));
    assert_eq!(mouse.get(1, None, 40), None);
    assert_eq!(route_window_input(&mut mouse, &mut touch, RawInput::CloseRequested, 0, 0, 0).0, Route::Window("closed"));
    assert_eq!(route_window_input(&mut mouse, &mut touch, RawInput::Occluded(false), 0, 0, 0).0, Route::Window("minimized"));
    assert_eq!(route_window_input(&mut mouse, &mut touch, RawInput::Other, 0, 0, 0).0, Route::Unrouted);
}

#[test]
fn element_listeners_match_their_input() {
    let mut mouse: PositionSlot = None;
    let mut touch: PositionSlot = None;
    let down = ContextListener::MouseDown;
    let r = context_match_call(&down, RawInput::MouseInput { device: 2, pressed: true }, &mut mouse, &mut touch, 0, 0, 0);
    assert!(!r.call);
    let over = ContextListener::MouseOver;
    let r = context_match_call(&over, RawInput::CursorMoved { device: 2 }, &mut mouse, &mut touch, 11, 12, 50);
    assert!(r.call);
    let r = context_match_call(&down, RawInput::MouseInput { device: 2, pressed: true }, &mut mouse, &mut touch, 0, 0, 60);
    assert!(r.call);
    assert_eq!(r.position, Some((11, 12)));
    let r = context_match_call(&down, RawInput::MouseInput { device: 3, pressed: true }, &mut mouse, &mut touch, 0, 0, 60);
    assert!(!r.call);
    let r = context_match_call(&ContextListener::MouseUp, RawInput::MouseInput { device: 2, pressed: true }, &mut mouse, &mut touch, 0, 0, 60);
    assert!(!r.call);
    let r = context_match_call(&ContextListener::Blur, RawInput::Focused(false), &mut mouse, &mut touch, 0, 0, 0);
    assert!(r.call);
    let r = context_match_call(&ContextListener::Focus, RawInput::Focused(false), &mut mouse, &mut touch, 0, 0, 0);
    assert!(!r.call);
    let tap = ContextListener::DoubleTap;
    let r = context_match_call(&tap, RawInput::DoubleTapGesture { device: 2 }, &mut mouse, &mut touch, 0, 0, 350);
    assert!(r.call);
    assert_eq!(r.position, Some((11, 12)));
    let r = context_match_call(&tap, RawInput::DoubleTapGesture { device: 2 }, &mut mouse, &mut touch, 0, 0, 351);
    assert!(!r.call);
    let r = context_match_call(&ContextListener::Gesture, RawInput::PinchGesture, &mut mouse, &mut touch, 0, 0, 0);
    assert!(r.call);
    // leaving forgets the pointer, whatever the listener
    context_match_call(&ContextListener::Resized, RawInput::CursorLeft { device: 2 }, &mut mouse, &mut touch, 0, 0, 0);
    assert!(mouse.is_none());
}

#[test]
fn window_listeners_match_their_input() {
    let mut mouse: PositionSlot = None;
    let mut touch: PositionSlot = None;
    let dropped = WindowListener::DroppedFile;
    assert!(window_match_call(&dropped, RawInput::HoveredFile, &mut mouse, &mut touch, 0, 0, 0).call);
    assert!(window_match_call(&dropped, RawInput::DroppedFile, &mut mouse, &mut touch, 0, 0, 0).call);
    assert!(!window_match_call(&WindowListener::HoveredFile, RawInput::HoveredFile, &mut mouse, &mut touch, 0, 0, 0).call);
    assert!(window_match_call(&WindowListener::Occluded, RawInput::Occluded(true), &mut mouse, &mut touch, 0, 0, 0).call);
    // input for elements does not reach a window-level listener, nor is it remembered
    assert!(!window_match_call(&WindowListener::Moved, RawInput::CursorMoved { device: 1 }, &mut mouse, &mut touch, 1, 1, 0).call);
    assert!(mouse.is_none());
    let ctx = WindowListener::Context(ContextListener::MouseOver);
    assert!(window_match_call(&ctx, RawInput::CursorMoved { device: 1 }, &mut mouse, &mut touch, 1, 1, 0).call);
    assert!(mouse.is_some());
}

#[test]
fn events_reach_listeners_of_their_kind() {
    assert!(context_event_call(&ContextListener::Scroll, &ContextEventKind::Scroll));
    assert!(!context_event_call(&ContextListener::Scroll, &ContextEventKind::Touch));
    let custom = ContextEventKind::custom_event("MyEvent");
    assert_eq!(custom, ContextEventKind::Custom("myevent".to_string()));
    assert!(context_event_call(&ContextListener::Custom("myevent".to_string()), &ContextEventKind::Custom("MYEVENT".to_string())));
    assert!(!context_event_call(&ContextListener::Custom("MyEvent".to_string()), &ContextEventKind::Custom("MyEvent".to_string())));
    assert!(context_event_call(&ContextListener::Error, &ContextEventKind::Error("x".to_string())));
    assert!(window_event_call(&WindowListener::ThemeChanged, &WindowEventKind::Theme));
    assert!(window_event_call(&WindowListener::HoveredFile, &WindowEventKind::HoveredFile));
    assert!(window_event_call(
        &WindowListener::Context(ContextListener::Blur),
        &WindowEventKind::Context(ContextEventKind::Blur)
    ));
    assert!(!window_event_call(&WindowListener::Closed, &WindowEventKind::Context(ContextEventKind::Blur)));
    assert_eq!(WindowEventKind::custom_event("Ä"), WindowEventKind::Context(ContextEventKind::Custom("ä".to_string())));
}

#[test]
fn a_move_carries_the_reported_position() {
    let mut h = EventHistory::new();
    let (n, p) = track_window_input(&mut h, WindowInput::CursorMoved, 4, 5, 6, 0);
    assert_eq!(n.name, "mouseover");
    assert_eq!(p, Some((5, 6)));
    let (_, p) = track_window_input(&mut h, WindowInput::Touch, 4, 7, 8, 10);
    assert_eq!(p, Some((7, 8)));
    // a released button carries the origin once the pointer is known
    let (n, p) = track_window_input(&mut h, WindowInput::MouseInput { pressed: false, position_known: false }, 4, 0, 0, 20);
    assert_eq!(n.name, "mouseup");
    assert_eq!(p, Some((0, 0)));
    let (_, p) = track_window_input(&mut h, WindowInput::MouseWheel, 4, 0, 0, 30);
    assert_eq!(p, Some((7, 8)));
    let (_, p) = track_window_input(&mut h, WindowInput::Resized, 4, 1, 1, 30);
    assert_eq!(p, None);
}
