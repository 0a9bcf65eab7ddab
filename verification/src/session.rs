//! The protocol session: a three-state lifecycle machine that dispatches
//! each incoming message to an action.  The caller owns the transport; it
//! classifies each wire message into an [`Event`], feeds it to
//! [`Session::on_event`], and performs the returned [`Action`].

use vstd::prelude::*;
use crate::text::eq_chars;
use crate::unicode::str_chars;

verus! {

/// Lifecycle state of the session.  It starts `Active`, moves to
/// `ShuttingDown` on a shutdown request, and to `Terminated` on an exit
/// notification.  It never moves back towards `Active`.
#[derive(Clone, Copy, PartialEq, Eq, Structural, Debug)]
pub enum SessionState {
    Active,
    ShuttingDown,
    Terminated,
}

/// The request methods the session recognizes; anything else is
/// `Unrecognized` and is logged without a response.
#[derive(Clone, Copy, PartialEq, Eq, Structural, Debug)]
pub enum RequestMethod {
    Hover,
    GotoDefinition,
    Shutdown,
    Unrecognized,
}

/// The notification methods the session recognizes.
#[derive(Clone, Copy, PartialEq, Eq, Structural, Debug)]
pub enum NotificationMethod {
    Exit,
    Unrecognized,
}

/// One incoming message, already classified by kind and method.
#[derive(Clone, Copy, PartialEq, Eq, Structural, Debug)]
pub enum Event {
    Request(RequestMethod),
    Response,
    Notification(NotificationMethod),
}

/// What the caller must do with the message just dispatched.
#[derive(Clone, Copy, PartialEq, Eq, Structural, Debug)]
pub enum Action {
    /// Reply to the request with an invalid-request error and no result.
    RejectAfterShutdown,
    /// Run the hover handler and reply with its result.
    HandleHover,
    /// Run the go-to-definition handler and reply with its result.
    HandleGotoDefinition,
    /// Reply success with a null payload.
    AcknowledgeShutdown,
    /// Log the request; send no response.
    LogUnmatchedRequest,
    /// Log the response; this process issues no requests of its own.
    LogUnmatchedResponse,
    /// Log the notification; it has no effect.
    LogUnmatchedNotification,
    /// Stop serving; the process exits cleanly.
    ExitClean,
    /// Stop serving; exit came before shutdown, a protocol violation the
    /// caller surfaces as a non-zero process exit.
    ExitProtocolError,
}

/// Total transition function of the lifecycle machine: the state after
/// handling `e` in state `s`.
pub open spec fn step_state(s: SessionState, e: Event) -> SessionState {
    match e {
        Event::Request(m) => match s {
            SessionState::Active => match m {
                RequestMethod::Shutdown => SessionState::ShuttingDown,
                _ => SessionState::Active,
            },
            _ => s,
        },
        Event::Response => s,
        Event::Notification(n) => match n {
            NotificationMethod::Exit => SessionState::Terminated,
            NotificationMethod::Unrecognized => s,
        },
    }
}

/// Total dispatch function: the action owed for `e` in state `s`.
pub open spec fn step_action(s: SessionState, e: Event) -> Action {
    match e {
        Event::Request(m) => match s {
            SessionState::Active => match m {
                RequestMethod::Hover => Action::HandleHover,
                RequestMethod::GotoDefinition => Action::HandleGotoDefinition,
                RequestMethod::Shutdown => Action::AcknowledgeShutdown,
                RequestMethod::Unrecognized => Action::LogUnmatchedRequest,
            },
            _ => Action::RejectAfterShutdown,
        },
        Event::Response => Action::LogUnmatchedResponse,
        Event::Notification(n) => match n {
            NotificationMethod::Exit => match s {
                SessionState::Active => Action::ExitProtocolError,
                _ => Action::ExitClean,
            },
            NotificationMethod::Unrecognized => Action::LogUnmatchedNotification,
        },
    }
}

/// The session owns exactly one piece of mutable state: its lifecycle
/// position.  The lexical resolver handle stays with the caller.
pub struct Session {
    pub state: SessionState,
}

impl Session {
    /// A fresh session, created once after the transport handshake.
    pub fn new() -> (s: Session)
        ensures
            s.state == SessionState::Active,
    {
        Session { state: SessionState::Active }
    }

    /// Dispatch one message: update the lifecycle state and tell the caller
    /// what to do, both exactly as the transition functions say.
    pub fn on_event(&mut self, e: Event) -> (a: Action)
        ensures
            final(self).state == step_state(old(self).state, e),
            a == step_action(old(self).state, e),
    {
        match e {
            Event::Request(m) => match self.state {
                SessionState::Active => match m {
                    RequestMethod::Hover => Action::HandleHover,
                    RequestMethod::GotoDefinition => Action::HandleGotoDefinition,
                    RequestMethod::Shutdown => {
                        self.state = SessionState::ShuttingDown;
                        Action::AcknowledgeShutdown
                    },
                    RequestMethod::Unrecognized => Action::LogUnmatchedRequest,
                },
                _ => Action::RejectAfterShutdown,
            },
            Event::Response => Action::LogUnmatchedResponse,
            Event::Notification(n) => match n {
                NotificationMethod::Exit => match self.state {
                    SessionState::Active => {
                        self.state = SessionState::Terminated;
                        Action::ExitProtocolError
                    },
                    SessionState::ShuttingDown => {
                        self.state = SessionState::Terminated;
                        Action::ExitClean
                    },
                    SessionState::Terminated => Action::ExitClean,
                },
                NotificationMethod::Unrecognized => Action::LogUnmatchedNotification,
            },
        }
    }
}

/// Which recognized request a method name picks out.
pub open spec fn request_method_of(m: Seq<char>) -> RequestMethod {
    if m == "textDocument/hover"@ {
        RequestMethod::Hover
    } else if m == "textDocument/definition"@ {
        RequestMethod::GotoDefinition
    } else if m == "shutdown"@ {
        RequestMethod::Shutdown
    } else {
        RequestMethod::Unrecognized
    }
}

/// Which recognized notification a method name picks out.
pub open spec fn notification_method_of(m: Seq<char>) -> NotificationMethod {
    if m == "exit"@ {
        NotificationMethod::Exit
    } else {
        NotificationMethod::Unrecognized
    }
}

/// Classifies a request's method name.
pub fn parse_request_method(m: &str) -> (r: RequestMethod)
    ensures
        r == request_method_of(m@),
{
    let mc = str_chars(m);
    let hover = str_chars("textDocument/hover");
    if eq_chars(&mc, &hover) {
        return RequestMethod::Hover;
    }
    let definition = str_chars("textDocument/definition");
    if eq_chars(&mc, &definition) {
        return RequestMethod::GotoDefinition;
    }
    let shutdown = str_chars("shutdown");
    if eq_chars(&mc, &shutdown) {
        return RequestMethod::Shutdown;
    }
    RequestMethod::Unrecognized
}

/// Classifies a notification's method name.
pub fn parse_notification_method(m: &str) -> (r: NotificationMethod)
    ensures
        r == notification_method_of(m@),
{
    let mc = str_chars(m);
    let exit = str_chars("exit");
    if eq_chars(&mc, &exit) {
        NotificationMethod::Exit
    } else {
        NotificationMethod::Unrecognized
    }
}

/// Law: once the session has left `Active` it never returns there; every
/// request arriving in such a state is answered with the invalid-request
/// error and nothing else changes.  A redundant shutdown request is thus
/// rejected like any other late request: shutdown succeeds exactly once.
pub proof fn lemma_requests_after_shutdown_rejected(s: SessionState, m: RequestMethod)
    requires
        s != SessionState::Active,
    ensures
        step_action(s, Event::Request(m)) == Action::RejectAfterShutdown,
        step_state(s, Event::Request(m)) == s,
{
}

/// Law: the shutdown request, received while active, is acknowledged with
/// success and moves the session to `ShuttingDown`.
pub proof fn lemma_shutdown_acknowledged()
    ensures
        step_action(SessionState::Active, Event::Request(RequestMethod::Shutdown))
            == Action::AcknowledgeShutdown,
        step_state(SessionState::Active, Event::Request(RequestMethod::Shutdown))
            == SessionState::ShuttingDown,
{
}

/// Law: leaving `Active` is monotonic; no event brings the session back.
pub proof fn lemma_shutdown_monotonic(s: SessionState, e: Event)
    requires
        s != SessionState::Active,
    ensures
        step_state(s, e) != SessionState::Active,
{
}

/// The state after a whole sequence of messages has been handled.
pub open spec fn run_events(s: SessionState, events: Seq<Event>) -> SessionState
    decreases events.len(),
{
    if events.len() == 0 {
        s
    } else {
        run_events(step_state(s, events[0]), events.drop_first())
    }
}

/// Law: once shutdown has been processed, however many messages follow,
/// the session never returns to `Active`, and so every subsequent request
/// — whatever its method — is answered with the invalid-request error.
pub proof fn lemma_rejection_persists(s: SessionState, events: Seq<Event>, m: RequestMethod)
    requires
        s != SessionState::Active,
    ensures
        run_events(s, events) != SessionState::Active,
        step_action(run_events(s, events), Event::Request(m)) == Action::RejectAfterShutdown,
    decreases events.len(),
{
    if events.len() > 0 {
        lemma_shutdown_monotonic(s, events[0]);
        lemma_rejection_persists(step_state(s, events[0]), events.drop_first(), m);
    }
}

/// Law: an exit notification terminates the session either way; it is a
/// clean termination exactly when shutdown had been requested first, and
/// the protocol-violation termination when the session was still active.
pub proof fn lemma_exit_transitions()
    ensures
        step_state(SessionState::Active, Event::Notification(NotificationMethod::Exit))
            == SessionState::Terminated,
        step_action(SessionState::Active, Event::Notification(NotificationMethod::Exit))
            == Action::ExitProtocolError,
        step_state(SessionState::ShuttingDown, Event::Notification(NotificationMethod::Exit))
            == SessionState::Terminated,
        step_action(SessionState::ShuttingDown, Event::Notification(NotificationMethod::Exit))
            == Action::ExitClean,
{
}

} // verus!
