use rust_gui::dispatch::{DispatchStep, EventTargets, Handler};
use rust_gui::event::{
    gesture_event_name, name_device_input, name_window_input, window_action, ActivationTokenData, ApplicationEvent,
    BubbleEventState, Detail, DeviceInput, DeviceMotionData, Event, EventData, EventResponse, GestureDelta,
    GestureEventData, HistoryUpdate, KeyEvent, KeyboardData, LogicalKey, MouseScrollDelta, PhysicalKey, RawKeyData,
    ScrollData, TouchPhase, TouchpadPressureEventData, WindowAction, WindowEvent, WindowInput,
};

fn called(step: &DispatchStep) -> Handler {
    match step {
        DispatchStep::Call(h) => *h,
        DispatchStep::Done(_) => panic!("expected a listener call"),
    }
}

fn finished(step: DispatchStep) -> Result<(), String> {
    match step {
        DispatchStep::Done(r) => r,
        DispatchStep::Call(h) => panic!("unexpected call of listener {}", h.id),
    }
}

#[test]
fn events_carry_their_parts() {
    let e = Event::new("Resized", Detail::Text("big".to_string()));
    assert_eq!(e.name(), "Resized");
    assert_eq!(e.message(), Some(&"big".to_string()));
    assert_eq!(e.bubbles(), BubbleEventState::Continue);
    assert!(e.is_actionable());
    let copy = e.duplicate();
    assert_eq!(copy.name(), "Resized");
    let stop = EventData {
        event_type: "x".to_string(),
        detail: Detail::Button(5),
        bubbles: BubbleEventState::Stop,
        actionable: false,
    }
    .into_event();
    assert!(matches!(stop.detail(), Detail::Button(5)));
    assert!(matches!(stop.clone_detail(), Detail::Button(5)));
    let parts = stop.duplicate().deconstruct();
    assert_eq!(parts.event_type, "x");
    assert!(matches!(parts.detail, Detail::Button(5)));
    assert!(!parts.actionable);
    assert_eq!(stop.bubbles(), BubbleEventState::Stop);
    assert!(!stop.is_actionable());
    assert_eq!(stop.message(), None);
}

#[test]
fn events_are_routed_by_name() {
    assert_eq!(Event::new("error", Detail::Empty).response(), EventResponse::Error);
    assert_eq!(Event::new("buttondown", Detail::Empty).response(), EventResponse::ApplicationEvent);
    assert_eq!(Event::new("redraw", Detail::Empty).response(), EventResponse::WindowEvent);
    assert_eq!(Event::new("click", Detail::Empty).response(), EventResponse::ElementEvent);
    assert!(Event::new("error", Detail::Empty).is_error());
    assert!(!Event::new("Error", Detail::Empty).is_error());
    assert_eq!(Event::new("blur", Detail::Empty).window_event(), Some(WindowEvent::Focused(false)));
    assert_eq!(Event::new("nothing", Detail::Empty).window_event(), None);
    let quiet = EventData {
        event_type: "close".to_string(),
        detail: Detail::Empty,
        bubbles: BubbleEventState::Continue,
        actionable: false,
    }
    .into_event();
    assert!(matches!(quiet.actionable_window_event(), Ok(None)));
    assert!(matches!(
        Event::new("close", Detail::Text("any".to_string())).actionable_window_event(),
        Ok(Some(WindowEvent::CloseRequested))
    ));
}

#[test]
fn window_and_device_input_names() {
    let n = name_window_input(WindowInput::KeyboardInput { pressed: true });
    assert_eq!(n.name, "keydown");
    let n = name_window_input(WindowInput::MouseInput { pressed: false, position_known: false });
    assert_eq!(n.name, "error");
    assert_eq!(n.error, Some("Failed to get position of the mouse on input!"));
    let n = name_window_input(WindowInput::PinchGesture);
    assert_eq!(n.name, "pan");
    let n = name_window_input(WindowInput::CursorLeft);
    assert_eq!(n.name, "mouseout");
    assert_eq!(n.history, HistoryUpdate::Forget);
    assert_eq!(name_device_input(DeviceInput::Button { pressed: true }), "buttondown");
    assert_eq!(name_device_input(DeviceInput::MouseMotion), "pointermove");
    assert_eq!(window_action(Some(WindowEvent::RedrawRequested)), WindowAction::Render);
    assert_eq!(window_action(Some(WindowEvent::CloseRequested)), WindowAction::Close);
    assert_eq!(window_action(Some(WindowEvent::SurfaceResized(1, 2))), WindowAction::Resize);
    assert_eq!(window_action(Some(WindowEvent::Moved(1, 2))), WindowAction::Ignore);
    assert_eq!(window_action(None), WindowAction::Ignore);
}

#[test]
fn keyboard_detail_keeps_the_key() {
    let ev = KeyEvent {
        physical_key: PhysicalKey::Code(4),
        logical_key: LogicalKey::Character("a".to_string()),
        text: Some("a".to_string()),
        location: 0,
        pressed: true,
        repeat: false,
    };
    let k = KeyboardData::from(9, ev);
    assert_eq!(k.keyboard_id, 9);
    assert_eq!(k.physical_key, PhysicalKey::Code(4));
    assert_eq!(k.logical_key, LogicalKey::Character("a".to_string()));
    assert_eq!(k.text, Some("a".to_string()));
    assert!(k.pressed);
    assert!(!k.repeat);
    let t = ActivationTokenData { serial: 1, token: "tok".to_string() };
    assert_eq!(t.clone(), t);
}

#[test]
fn listeners_run_in_order_and_events_bubble() {
    let mut ts = EventTargets::new();
    let root = ts.new_target(None);
    let child = ts.new_target(Some(root));
    let a = ts.add_event_listener(child, "Click");
    let b = ts.add_event_listener_once(child, "click");
    let c = ts.add_event_listener(root, "CLICK");
    assert!(a != b && b != c);
    let (mut d, step) = ts.dispatch_event(child, Event::new("click", Detail::Empty));
    assert_eq!(called(&step), Handler { id: a, once: false });
    let step = ts.resume(&mut d, Ok(()));
    assert_eq!(called(&step), Handler { id: b, once: true });
    let step = ts.resume(&mut d, Ok(()));
    assert_eq!(called(&step).id, c);
    assert_eq!(finished(ts.resume(&mut d, Ok(()))), Ok(()));
    // the listener added once is gone
    let (mut d, step) = ts.dispatch_event(child, Event::new("Click", Detail::Empty));
    assert_eq!(called(&step).id, a);
    let step = ts.resume(&mut d, Ok(()));
    assert_eq!(called(&step).id, c);
    assert_eq!(finished(ts.resume(&mut d, Ok(()))), Ok(()));
}

#[test]
fn stopping_ends_after_the_listener() {
    let mut ts = EventTargets::new();
    let root = ts.new_target(None);
    let child = ts.new_target(Some(root));
    let a = ts.add_event_listener(child, "x");
    let _b = ts.add_event_listener(child, "x");
    let _c = ts.add_event_listener(root, "x");
    let ev = EventData { event_type: "x".to_string(), detail: Detail::Empty, bubbles: BubbleEventState::Stop, actionable: true }
        .into_event();
    let (mut d, step) = ts.dispatch_event(child, ev);
    assert_eq!(called(&step).id, a);
    assert_eq!(finished(ts.resume(&mut d, Ok(()))), Ok(()));
    // both listeners are still there
    let (mut d, step) = ts.dispatch_event(child, Event::new("x", Detail::Empty));
    assert_eq!(called(&step).id, a);
    assert!(matches!(ts.resume(&mut d, Ok(())), DispatchStep::Call(_)));
}

#[test]
fn an_unheard_error_event_without_bubbling_fails_at_the_top() {
    let mut ts = EventTargets::new();
    let root = ts.new_target(None);
    let child = ts.new_target(Some(root));
    let ev = EventData { event_type: "error".to_string(), detail: Detail::Text("bad".to_string()), bubbles: BubbleEventState::Stop, actionable: true }
        .into_event();
    let (_, step) = ts.dispatch_event(child, ev);
    assert_eq!(finished(step), Err("bad".to_string()));
    let ev = EventData { event_type: "error".to_string(), detail: Detail::Empty, bubbles: BubbleEventState::Immediate, actionable: true }
        .into_event();
    let (_, step) = ts.dispatch_event(root, ev);
    assert_eq!(finished(step), Err("Unknown Error Event Message".to_string()));
    let ev = EventData { event_type: "other".to_string(), detail: Detail::Empty, bubbles: BubbleEventState::Stop, actionable: true }
        .into_event();
    let (_, step) = ts.dispatch_event(child, ev);
    assert_eq!(finished(step), Ok(()));
}

#[test]
fn a_failing_listener_is_dropped_and_raises_an_error_event() {
    let mut ts = EventTargets::new();
    let root = ts.new_target(None);
    let child = ts.new_target(Some(root));
    let a = ts.add_event_listener(child, "x");
    let b = ts.add_event_listener(child, "x");
    let e = ts.add_event_listener(root, "error");
    let (mut d, step) = ts.dispatch_event(child, Event::new("x", Detail::Empty));
    assert_eq!(called(&step).id, a);
    let step = ts.resume(&mut d, Err("boom".to_string()));
    assert_eq!(called(&step).id, e);
    assert_eq!(d.event().name(), "Error");
    assert_eq!(d.event().message(), Some(&"boom".to_string()));
    assert_eq!(finished(ts.resume(&mut d, Ok(()))), Ok(()));
    // `a` was dropped, `b` stays
    let (mut d, step) = ts.dispatch_event(child, Event::new("x", Detail::Empty));
    assert_eq!(called(&step).id, b);
    assert_eq!(finished(ts.resume(&mut d, Ok(()))), Ok(()));
}

#[test]
fn the_eleventh_failure_ends_the_dispatch() {
    let mut ts = EventTargets::new();
    let t = ts.new_target(None);
    let first = ts.add_event_listener(t, "x");
    let mut handlers = Vec::new();
    for _ in 0..12 {
        handlers.push(ts.add_event_listener(t, "error"));
    }
    let (mut d, step) = ts.dispatch_event(t, Event::new("x", Detail::Empty));
    assert_eq!(called(&step).id, first);
    let mut step = ts.resume(&mut d, Err("0".to_string()));
    for i in 0..9 {
        assert_eq!(called(&step).id, handlers[i]);
        step = ts.resume(&mut d, Err(format!("{}", i + 1)));
    }
    assert_eq!(called(&step).id, handlers[9]);
    let end = ts.resume(&mut d, Err("last".to_string()));
    assert_eq!(finished(end), Err("Recursion limit Hit when handleing 'Error' Event!".to_string()));
}

#[test]
fn removing_from_a_target_without_lists_finds_nothing() {
    let mut ts = EventTargets::new();
    let t = ts.new_target(None);
    assert!(!ts.has_listener_lists(t));
    assert_eq!(ts.remove_event_listener(t, 0), None);
    ts.add_event_listener(t, "x");
    assert!(ts.has_listener_lists(t));
}

#[test]
fn window_events_round_trip_with_their_payloads() {
    let scroll = ScrollData {
        delta: MouseScrollDelta::LineDelta(1.5f32.to_bits(), 0),
        phase: TouchPhase::Moved,
        device_id: 4,
        position: Some((2.0f64.to_bits(), 3.0f64.to_bits())),
    };
    let events = [
        WindowEvent::SurfaceResized(800, 600),
        WindowEvent::Moved(-5, 7),
        WindowEvent::CloseRequested,
        WindowEvent::Destroyed,
        WindowEvent::Focused(true),
        WindowEvent::Focused(false),
        WindowEvent::DoubleTap(9),
        WindowEvent::Gesture(GestureEventData { device_id: 1, delta: GestureDelta::Hold, phase: TouchPhase::Started }),
        WindowEvent::Gesture(GestureEventData { device_id: 1, delta: GestureDelta::Pan(3, 4), phase: TouchPhase::Moved }),
        WindowEvent::Gesture(GestureEventData { device_id: 2, delta: GestureDelta::Pinch(5), phase: TouchPhase::Ended }),
        WindowEvent::Gesture(GestureEventData { device_id: 3, delta: GestureDelta::Rotation(6), phase: TouchPhase::Cancelled }),
        WindowEvent::TouchpadPressure(TouchpadPressureEventData { device_id: 1, pressure_bits: 0.5f32.to_bits(), stage: 2 }),
        WindowEvent::ScaleFactorChanged(2.0f64.to_bits()),
        WindowEvent::RedrawRequested,
        WindowEvent::MouseWheel(scroll),
    ];
    for w in events {
        let back = WindowEvent::try_from(w.into_event());
        assert!(matches!(back, Ok(x) if x == w));
    }
    assert_eq!(WindowEvent::SurfaceResized(1, 1).name(), "resized");
    assert_eq!(gesture_event_name(GestureDelta::Rotation(0)), "rotate");
    let e = WindowEvent::DoubleTap(9).into_event();
    assert_eq!(e.name(), "doubletap");
    assert!(matches!(e.detail(), Detail::Device(9)));
}

#[test]
fn window_events_refuse_a_detail_of_the_wrong_kind() {
    let back = WindowEvent::try_from(Event::new("resized", Detail::Text("big".to_string())));
    match back {
        Err(e) => {
            assert_eq!(e.name(), "resized");
            assert_eq!(e.message(), Some(&"big".to_string()));
            assert!(e.is_actionable());
        },
        Ok(w) => panic!("{:?} made from a text detail", w),
    }
    assert!(WindowEvent::try_from(Event::new("moved", Detail::Size(1, 2))).is_err());
    assert!(WindowEvent::try_from(Event::new("doubletap", Detail::Empty)).is_err());
    let pan_named_pinch = Event::new(
        "pinch",
        Detail::Gesture(GestureEventData { device_id: 1, delta: GestureDelta::Pan(0, 0), phase: TouchPhase::Moved }),
    );
    assert!(WindowEvent::try_from(pan_named_pinch).is_err());
    assert!(WindowEvent::try_from(Event::new("mousewheel", Detail::Other)).is_err());
    assert!(WindowEvent::try_from(Event::new("keydown", Detail::Empty)).is_err());
    assert!(matches!(
        WindowEvent::try_from(Event::new("moved", Detail::Position(3, -4))),
        Ok(WindowEvent::Moved(3, -4))
    ));
    assert!(matches!(Event::new("resized", Detail::Other).actionable_window_event(), Err(_)));
}

#[test]
fn application_events_round_trip_with_their_payloads() {
    let events = [
        ApplicationEvent::ActivationTokenDone(ActivationTokenData { serial: 3, token: "tok".to_string() }),
        ApplicationEvent::PointerMotion(1.0f64.to_bits(), 2.0f64.to_bits()),
        ApplicationEvent::ButtonDown(1),
        ApplicationEvent::ButtonUp(2),
        ApplicationEvent::KeyPressed(RawKeyData { physical_key: PhysicalKey::Code(30), pressed: true }),
        ApplicationEvent::Motion(DeviceMotionData { axis: 1, value_bits: 0.25f64.to_bits() }),
    ];
    for a in events {
        let back = ApplicationEvent::try_from(a.clone().into_event());
        assert!(matches!(back, Ok(ref x) if *x == a));
    }
    assert_eq!(ApplicationEvent::ButtonDown(0).name(), "buttondown");
    assert!(ApplicationEvent::try_from(Event::new("buttondown", Detail::Device(1))).is_err());
    assert!(ApplicationEvent::try_from(Event::new("keypressed", Detail::Empty)).is_err());
    assert!(matches!(
        Event::new("buttonup", Detail::Button(7)).actionable_application_event(),
        Ok(Some(ApplicationEvent::ButtonUp(7)))
    ));
    assert!(matches!(Event::new("deviceadded", Detail::Empty).actionable_application_event(), Err(_)));
}

#[test]
fn events_print_as_name_and_detail() {
    assert_eq!(Event::new("error", Detail::Text("boom".to_string())).to_string(), "error: boom");
    assert_eq!(Event::new("redraw", Detail::Empty).to_string(), "redraw: unknown");
}

#[test]
fn listener_ids_keep_growing_across_targets_and_dispatches() {
    let mut ts = EventTargets::new();
    let root = ts.new_target(None);
    let first = ts.add_event_listener(root, "x");
    let child = ts.new_target(Some(root));
    let (mut d, _) = ts.dispatch_event(child, Event::new("x", Detail::Empty));
    let _ = ts.resume(&mut d, Ok(()));
    let second = ts.add_event_listener_once(child, "y");
    let third = ts.add_event_listener(root, "x");
    assert!(first < second && second < third);
}

#[test]
fn details_are_copied_whole() {
    let e = Event::new(
        "activation-token-done",
        Detail::ActivationToken(ActivationTokenData { serial: 8, token: "t".to_string() }),
    );
    match e.duplicate().clone_detail() {
        Detail::ActivationToken(a) => {
            assert_eq!(a.serial, 8);
            assert_eq!(a.token, "t");
        },
        other => panic!("copied as {:?}", other),
    }
    assert_eq!(e.to_string(), "activation-token-done: unknown");
    assert_eq!(e.message(), None);
    assert!(matches!(
        e.actionable_application_event(),
        Ok(Some(ApplicationEvent::ActivationTokenDone(ActivationTokenData { serial: 8, .. })))
    ));
}
