use lls::session::{
    parse_notification_method, parse_request_method, Action, Event, NotificationMethod,
    RequestMethod, Session, SessionState,
};

#[test]
fn shutdown_acknowledged_then_rejected() {
    let mut s = Session::new();
    assert_eq!(s.state, SessionState::Active);
    let first = s.on_event(Event::Request(RequestMethod::Shutdown));
    assert_eq!(first, Action::AcknowledgeShutdown);
    assert_eq!(s.state, SessionState::ShuttingDown);
    let second = s.on_event(Event::Request(RequestMethod::Shutdown));
    assert_eq!(second, Action::RejectAfterShutdown);
    assert_eq!(s.state, SessionState::ShuttingDown);
}

#[test]
fn every_request_after_shutdown_gets_invalid_request() {
    let mut s = Session::new();
    let ack = s.on_event(Event::Request(RequestMethod::Shutdown));
    assert_eq!(ack, Action::AcknowledgeShutdown);
    for m in [
        RequestMethod::Hover,
        RequestMethod::GotoDefinition,
        RequestMethod::Shutdown,
        RequestMethod::Unrecognized,
    ] {
        assert_eq!(s.on_event(Event::Request(m)), Action::RejectAfterShutdown);
        assert_eq!(s.state, SessionState::ShuttingDown);
    }
}

#[test]
fn exit_before_shutdown_is_a_protocol_error() {
    let mut s = Session::new();
    let a = s.on_event(Event::Notification(NotificationMethod::Exit));
    assert_eq!(a, Action::ExitProtocolError);
    assert_eq!(s.state, SessionState::Terminated);
}

#[test]
fn exit_after_shutdown_terminates_cleanly() {
    let mut s = Session::new();
    let ack = s.on_event(Event::Request(RequestMethod::Shutdown));
    assert_eq!(ack, Action::AcknowledgeShutdown);
    let a = s.on_event(Event::Notification(NotificationMethod::Exit));
    assert_eq!(a, Action::ExitClean);
    assert_eq!(s.state, SessionState::Terminated);
}

#[test]
fn active_session_dispatches_recognized_requests() {
    let mut s = Session::new();
    assert_eq!(s.on_event(Event::Request(RequestMethod::Hover)), Action::HandleHover);
    assert_eq!(
        s.on_event(Event::Request(RequestMethod::GotoDefinition)),
        Action::HandleGotoDefinition
    );
    assert_eq!(s.state, SessionState::Active);
}

#[test]
fn unmatched_messages_are_logged_and_harmless() {
    let mut s = Session::new();
    assert_eq!(
        s.on_event(Event::Request(RequestMethod::Unrecognized)),
        Action::LogUnmatchedRequest
    );
    assert_eq!(s.on_event(Event::Response), Action::LogUnmatchedResponse);
    assert_eq!(
        s.on_event(Event::Notification(NotificationMethod::Unrecognized)),
        Action::LogUnmatchedNotification
    );
    assert_eq!(s.state, SessionState::Active);
}

#[test]
fn request_method_names_are_classified() {
    assert_eq!(parse_request_method("textDocument/hover"), RequestMethod::Hover);
    assert_eq!(
        parse_request_method("textDocument/definition"),
        RequestMethod::GotoDefinition
    );
    assert_eq!(parse_request_method("shutdown"), RequestMethod::Shutdown);
    assert_eq!(
        parse_request_method("textDocument/didOpen"),
        RequestMethod::Unrecognized
    );
}

#[test]
fn notification_method_names_are_classified() {
    assert_eq!(parse_notification_method("exit"), NotificationMethod::Exit);
    assert_eq!(
        parse_notification_method("initialized"),
        NotificationMethod::Unrecognized
    );
}
