use pywui::bridge::{Action, Bridge, Dispatch, InternalEvent, LoopState, OpenError, WindowPatch};
use pywui::ipc::{Outcome, ProtocolError};
use pywui::json::encode_json;
use pywui::value::StructuredValue;

fn s(text: &str) -> String {
    text.to_string()
}

fn two_windows() -> (Bridge, u64, u64) {
    let mut b = Bridge::new();
    let main = b.open_window(Some(s("main"))).unwrap();
    let settings = b.open_window(Some(s("settings"))).unwrap();
    b.start();
    (b, main, settings)
}

fn request(command: &str, id: &str) -> String {
    format!(
        "{{\"event_type\":\"request\",\"command\":\"{}\",\"args\":null,\"request_id\":\"{}\"}}",
        command, id
    )
}

fn evaluate(action: &Action) -> (u64, String) {
    match action {
        Action::Evaluate { window, script } => (*window, script.clone()),
        _ => panic!("expected a script to evaluate"),
    }
}

#[test]
fn ping_request_resolves_in_the_asking_window_only() {
    let (mut b, _main, settings) = two_windows();
    b.register_command(s("ping"), 7);
    let d = b.receive_text(settings, &request("ping", "r1")).unwrap();
    let (id, call) = match d {
        Dispatch::InvokeCommand { handler, correlation_id, call } => {
            assert_eq!(handler, 7);
            (correlation_id, call)
        }
        _ => panic!("expected the command handler to be invoked"),
    };
    assert_eq!(id, "r1");
    assert_eq!(encode_json(&call), "{\"command\":\"ping\",\"args\":null}");
    let actions = b.handle(InternalEvent::ResponseReady {
        correlation_id: id,
        outcome: Outcome::Data(StructuredValue::Str(s("pong"))),
    });
    assert_eq!(actions.len(), 1);
    let (window, script) = evaluate(&actions[0]);
    assert_eq!(window, settings);
    assert_eq!(
        script,
        "window.dispatchEvent(new CustomEvent(\"r1\", {detail: {\"data\":\"pong\"}}));"
    );
}

#[test]
fn a_correlation_resolves_only_once() {
    let (mut b, main, _settings) = two_windows();
    b.register_command(s("ping"), 1);
    b.receive_text(main, &request("ping", "r9")).unwrap();
    let first = b.handle(InternalEvent::ResponseReady {
        correlation_id: s("r9"),
        outcome: Outcome::Data(StructuredValue::Null),
    });
    assert_eq!(first.len(), 1);
    let second = b.handle(InternalEvent::ResponseReady {
        correlation_id: s("r9"),
        outcome: Outcome::Data(StructuredValue::Null),
    });
    assert_eq!(second.len(), 0);
}

#[test]
fn handler_failure_resolves_with_an_error() {
    let (mut b, main, _settings) = two_windows();
    b.register_command(s("boom"), 1);
    b.receive_text(main, &request("boom", "r2")).unwrap();
    let actions = b.handle(InternalEvent::ResponseReady {
        correlation_id: s("r2"),
        outcome: Outcome::Failure(s("it broke")),
    });
    let (window, script) = evaluate(&actions[0]);
    assert_eq!(window, main);
    assert_eq!(
        script,
        "window.dispatchEvent(new CustomEvent(\"r2\", {detail: {\"error\":\"it broke\"}}));"
    );
}

#[test]
fn unknown_command_resolves_with_an_error() {
    let (mut b, main, _settings) = two_windows();
    let d = b.receive_text(main, &request("nope", "r3")).unwrap();
    let (id, outcome) = match d {
        Dispatch::Resolve { correlation_id, outcome } => (correlation_id, outcome),
        _ => panic!("expected an immediate resolution"),
    };
    assert_eq!(id, "r3");
    match &outcome {
        Outcome::Failure(m) => assert_eq!(m, "UnknownCommand: nope"),
        _ => panic!("expected a failure"),
    }
    let actions = b.handle(InternalEvent::ResponseReady { correlation_id: id, outcome });
    let (window, script) = evaluate(&actions[0]);
    assert_eq!(window, main);
    assert_eq!(
        script,
        "window.dispatchEvent(new CustomEvent(\"r3\", {detail: {\"error\":\"UnknownCommand: nope\"}}));"
    );
}

#[test]
fn duplicate_outstanding_request_is_ignored() {
    let (mut b, main, _settings) = two_windows();
    b.register_command(s("ping"), 1);
    assert!(matches!(
        b.receive_text(main, &request("ping", "same")).unwrap(),
        Dispatch::InvokeCommand { .. }
    ));
    assert!(matches!(
        b.receive_text(main, &request("ping", "same")).unwrap(),
        Dispatch::Ignore
    ));
}

#[test]
fn listener_receives_event_and_name() {
    let (mut b, main, _settings) = two_windows();
    b.register_listener(s("clicked"), 3);
    let d = b
        .receive_text(main, "{\"event_type\":\"event\",\"command\":\"clicked\",\"args\":[1,2]}")
        .unwrap();
    match d {
        Dispatch::InvokeListener { handler, call } => {
            assert_eq!(handler, 3);
            assert_eq!(encode_json(&call), "{\"event\":\"clicked\",\"args\":[1,2]}");
        }
        _ => panic!("expected the listener to be invoked"),
    }
    let other = b
        .receive_text(main, "{\"event_type\":\"event\",\"command\":\"other\",\"args\":{}}")
        .unwrap();
    assert!(matches!(other, Dispatch::Ignore));
}

#[test]
fn later_registration_replaces_earlier() {
    let (mut b, main, _settings) = two_windows();
    b.register_command(s("ping"), 1);
    b.register_command(s("ping"), 2);
    match b.receive_text(main, &request("ping", "r4")).unwrap() {
        Dispatch::InvokeCommand { handler, .. } => assert_eq!(handler, 2),
        _ => panic!("expected the command handler to be invoked"),
    }
}

#[test]
fn malformed_body_is_a_protocol_error() {
    let (mut b, main, _settings) = two_windows();
    assert!(matches!(b.receive_text(main, "{oops"), Err(ProtocolError::NotJson)));
    assert!(matches!(
        b.receive_text(main, "{\"event_type\":\"request\",\"command\":\"ping\",\"args\":1}"),
        Err(ProtocolError::MissingRequestId)
    ));
    assert_eq!(b.state(), LoopState::Running);
}

#[test]
fn emit_reaches_both_windows() {
    let (mut b, main, settings) = two_windows();
    let payload = StructuredValue::Object(vec![(s("dark"), StructuredValue::Bool(true))]);
    let actions = b.handle(InternalEvent::EmitEvent { name: s("theme-changed"), payload });
    assert_eq!(actions.len(), 2);
    let expected =
        "window.dispatchEvent(new CustomEvent(\"theme-changed\", {detail: {\"data\":{\"dark\":true}}}));";
    let (w0, s0) = evaluate(&actions[0]);
    let (w1, s1) = evaluate(&actions[1]);
    assert_eq!((w0, w1), (main, settings));
    assert_eq!(s0, expected);
    assert_eq!(s1, expected);
}

#[test]
fn emit_skips_closed_window() {
    let (mut b, main, settings) = two_windows();
    b.handle(InternalEvent::CloseWindow { label: s("main") });
    let actions =
        b.handle(InternalEvent::EmitEvent { name: s("x"), payload: StructuredValue::Integer(1) });
    assert_eq!(actions.len(), 1);
    let (w, _) = evaluate(&actions[0]);
    assert_eq!(w, settings);
    assert_ne!(w, main);
}

#[test]
fn closing_windows_in_turn_stops_the_loop() {
    let (mut b, main, settings) = two_windows();
    let mut closed: Vec<String> = Vec::new();
    let first = b.handle(InternalEvent::CloseWindow { label: s("main") });
    for a in &first {
        if let Action::Close { window, label } = a {
            assert_eq!(*window, main);
            closed.push(label.clone());
        }
    }
    assert_eq!(b.state(), LoopState::Running);
    let second = b.handle(InternalEvent::CloseWindow { label: s("settings") });
    for a in &second {
        if let Action::Close { window, label } = a {
            assert_eq!(*window, settings);
            closed.push(label.clone());
        }
    }
    assert_eq!(b.state(), LoopState::Draining);
    let last = b.drain();
    assert_eq!(last.len(), 1);
    assert!(matches!(last[0], Action::Exit));
    assert_eq!(b.state(), LoopState::Stopped);
    assert_eq!(closed, vec![s("main"), s("settings")]);
}

#[test]
fn exit_all_closes_what_remains() {
    let (mut b, main, settings) = two_windows();
    assert_eq!(b.handle(InternalEvent::ExitAll).len(), 0);
    assert_eq!(b.state(), LoopState::Draining);
    let actions = b.drain();
    assert_eq!(actions.len(), 3);
    match (&actions[0], &actions[1]) {
        (Action::Close { window: a, label: la }, Action::Close { window: c, label: lc }) => {
            assert_eq!((*a, la.as_str()), (main, "main"));
            assert_eq!((*c, lc.as_str()), (settings, "settings"));
        }
        _ => panic!("expected both windows to close"),
    }
    assert!(matches!(actions[2], Action::Exit));
    assert_eq!(b.window_count(), 0);
}

#[test]
fn closing_a_window_drops_its_pending_requests() {
    let (mut b, main, _settings) = two_windows();
    b.register_command(s("slow"), 1);
    b.receive_text(main, &request("slow", "r5")).unwrap();
    b.handle(InternalEvent::CloseWindow { label: s("main") });
    let actions = b.handle(InternalEvent::ResponseReady {
        correlation_id: s("r5"),
        outcome: Outcome::Data(StructuredValue::Null),
    });
    assert_eq!(actions.len(), 0);
}

#[test]
fn platform_close_request_closes_by_identity() {
    let (mut b, _main, settings) = two_windows();
    let actions = b.close_requested(settings);
    assert_eq!(actions.len(), 1);
    assert_eq!(b.window_id("settings"), None);
    assert_eq!(b.close_requested(99).len(), 0);
}

#[test]
fn duplicate_label_is_refused() {
    let mut b = Bridge::new();
    let first = b.open_window(Some(s("main"))).unwrap();
    assert_eq!(b.open_window(Some(s("main"))), Err(OpenError::DuplicateLabel));
    assert_eq!(b.window_count(), 1);
    assert_eq!(b.window_id("main"), Some(first));
}

#[test]
fn unlabelled_windows_are_numbered() {
    let mut b = Bridge::new();
    let a = b.open_window(None).unwrap();
    let c = b.open_window(Some(s("x"))).unwrap();
    let d = b.open_window(None).unwrap();
    assert_eq!(b.window_label(a), Some(s("Window 1")));
    assert_eq!(b.window_label(c), Some(s("x")));
    assert_eq!(b.window_label(d), Some(s("Window 3")));
}

#[test]
fn windows_cannot_open_after_the_loop_ends() {
    let (mut b, _main, _settings) = two_windows();
    b.handle(InternalEvent::ExitAll);
    assert_eq!(b.open_window(Some(s("late"))), Err(OpenError::LoopEnded));
}

#[test]
fn update_goes_to_the_labelled_window() {
    let (mut b, _main, settings) = two_windows();
    let patch = WindowPatch::from_value(&StructuredValue::Object(vec![
        (s("url"), StructuredValue::Str(s("https://example.org"))),
        (s("width"), StructuredValue::Integer(640)),
        (s("height"), StructuredValue::Integer(480)),
        (s("focus"), StructuredValue::Bool(true)),
    ]));
    let actions = b.handle(InternalEvent::UpdateWindow { label: s("settings"), patch });
    assert_eq!(actions.len(), 1);
    match &actions[0] {
        Action::Apply { window, patch } => {
            assert_eq!(*window, settings);
            assert_eq!(patch.url.as_deref(), Some("https://example.org"));
            assert_eq!(patch.size, Some((640, 480)));
            assert_eq!(patch.focus, Some(true));
            assert_eq!(patch.visible, None);
        }
        _ => panic!("expected an update"),
    }
    let none = b.handle(InternalEvent::UpdateWindow {
        label: s("absent"),
        patch: WindowPatch::from_value(&StructuredValue::Null),
    });
    assert_eq!(none.len(), 0);
}

#[test]
fn patch_ignores_members_of_the_wrong_type() {
    let patch = WindowPatch::from_value(&StructuredValue::Object(vec![
        (s("visible"), StructuredValue::Str(s("yes"))),
        (s("width"), StructuredValue::Integer(-1)),
        (s("height"), StructuredValue::Integer(10)),
        (s("script"), StructuredValue::Str(s("alert(1)"))),
    ]));
    assert_eq!(patch.visible, None);
    assert_eq!(patch.size, None);
    assert_eq!(patch.script.as_deref(), Some("alert(1)"));
}

#[test]
fn events_before_start_are_not_served() {
    let mut b = Bridge::new();
    b.open_window(Some(s("main"))).unwrap();
    assert_eq!(b.state(), LoopState::Starting);
    assert_eq!(b.handle(InternalEvent::ExitAll).len(), 0);
    assert_eq!(b.state(), LoopState::Starting);
}

#[test]
fn close_event_maps_a_missing_label_to_exit() {
    assert!(matches!(Bridge::close_event(None), InternalEvent::ExitAll));
    match Bridge::close_event(Some(s("main"))) {
        InternalEvent::CloseWindow { label } => assert_eq!(label, "main"),
        _ => panic!("expected a close"),
    }
}
