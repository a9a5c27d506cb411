//! The line protocol of the Python sidecars (parser and question answering):
//! what to do with each line, pause or end of the sidecar's output.
use vstd::prelude::*;
use crate::text::{concat_str, parse_u64, parsed_u64, str_eq};

verus! {

/// Which sidecar speaks.
#[derive(Debug, Clone, Copy, PartialEq, Eq, Structural)]
pub enum Protocol {
    /// The document parser.
    Parser,
    /// The question-answering sidecar.
    Qa,
}

/// The `kind` and `request_id` of a line that decodes as a progress event.
#[derive(Debug, Clone)]
pub struct EventHead {
    pub kind: String,
    pub request_id: String,
}

/// Whether the sidecar process has ended, as far as the caller could tell.
#[derive(Debug, Clone)]
pub enum ExitProbe {
    /// Still running.
    Running,
    /// Ended; whether successfully, and its exit status as text.
    Exited { success: bool, status: String },
    /// Asking failed.
    WaitFailed(String),
}

/// What the caller got from the sidecar's output since the last step.
#[derive(Debug)]
pub enum Received {
    /// A line: whether it is blank once trimmed, its event head if it decodes
    /// as a progress event, and the request id of the response it decodes as
    /// (or why it does not decode as one).
    Line { blank: bool, event: Option<EventHead>, response: Result<String, String> },
    /// Nothing within the polling interval.
    Nothing { exit: ExitProbe },
    /// The output ended.
    Closed,
}

/// Why an exchange with a sidecar failed.
#[derive(Debug, Clone)]
pub enum StreamFailure {
    /// Nothing arrived for the whole stream timeout (the sidecar is killed).
    Timeout,
    /// Asking the process for its status failed.
    Io(String),
    /// The sidecar wrote something that is not a valid answer.
    InvalidResponse(String),
    /// The sidecar ended without success.
    Exited(String),
}

/// What the caller does next.
#[derive(Debug, Clone)]
pub enum StreamAction {
    /// Keep reading.
    Wait,
    /// Hand the line's event to the listener, then keep reading.
    Deliver,
    /// Keep the line's response (replacing an earlier one), then keep reading.
    Store,
    /// The exchange is over; the last response kept is the answer.
    Finish,
    /// The exchange failed.
    Fail(StreamFailure),
}

/// A step's action as plain values.
pub enum ActionView {
    Wait,
    Deliver,
    Store,
    Finish,
    Timeout,
    Io(Seq<char>),
    InvalidResponse(Seq<char>),
    Exited(Seq<char>),
}

/// The plain view of an action.
pub open spec fn action_view(a: StreamAction) -> ActionView {
    match a {
        StreamAction::Wait => ActionView::Wait,
        StreamAction::Deliver => ActionView::Deliver,
        StreamAction::Store => ActionView::Store,
        StreamAction::Finish => ActionView::Finish,
        StreamAction::Fail(StreamFailure::Timeout) => ActionView::Timeout,
        StreamAction::Fail(StreamFailure::Io(e)) => ActionView::Io(e@),
        StreamAction::Fail(StreamFailure::InvalidResponse(e)) => ActionView::InvalidResponse(e@),
        StreamAction::Fail(StreamFailure::Exited(e)) => ActionView::Exited(e@),
    }
}

/// The complaint when the output ends before any response.
pub open spec fn closed_message(proto: Protocol) -> Seq<char> {
    match proto {
        Protocol::Parser => "python parser stream closed unexpectedly"@,
        Protocol::Qa => "python qa stream closed unexpectedly"@,
    }
}

/// An event line is for this request: it carries no request id or this one.
pub open spec fn event_for(head: EventHead, request_id: Seq<char>) -> bool {
    head.request_id@.len() == 0 || head.request_id@ == request_id
}

/// The action on a line that is not blank.
pub open spec fn line_action(
    proto: Protocol,
    request_id: Seq<char>,
    event: Option<EventHead>,
    response: Result<String, String>,
) -> ActionView {
    let as_event = match event {
        Some(h) => h.kind@ == "event"@ && (proto == Protocol::Parser || event_for(h, request_id)),
        None => false,
    };
    if as_event {
        if event_for(event.unwrap(), request_id) { ActionView::Deliver } else { ActionView::Wait }
    } else {
        match response {
            Ok(id) => if id@ == request_id {
                ActionView::Store
            } else {
                ActionView::InvalidResponse("request_id mismatch"@)
            },
            Err(e) => ActionView::InvalidResponse(e@),
        }
    }
}

/// The action of one step: a stream quiet for the whole timeout fails first;
/// then lines are delivered or kept, and a pause or the end of the output
/// ends the exchange once a response was kept.
pub open spec fn step_action(
    proto: Protocol,
    request_id: Seq<char>,
    has_response: bool,
    idle_ms: u64,
    timeout_ms: u64,
    input: Received,
) -> ActionView {
    if idle_ms >= timeout_ms {
        ActionView::Timeout
    } else {
        match input {
            Received::Line { blank, event, response } => if blank {
                ActionView::Wait
            } else {
                line_action(proto, request_id, event, response)
            },
            Received::Nothing { exit } => if !has_response {
                ActionView::Wait
            } else {
                match exit {
                    ExitProbe::Running => ActionView::Wait,
                    ExitProbe::WaitFailed(e) => ActionView::Io(e@),
                    ExitProbe::Exited { success, status } => if success || proto == Protocol::Qa {
                        ActionView::Finish
                    } else {
                        ActionView::Exited("python parser exited with status "@ + status@)
                    },
                }
            },
            Received::Closed => if has_response {
                ActionView::Finish
            } else {
                ActionView::InvalidResponse(closed_message(proto))
            },
        }
    }
}

fn line_step(
    proto: Protocol,
    request_id: &str,
    event: &Option<EventHead>,
    response: &Result<String, String>,
) -> (r: StreamAction)
    ensures
        action_view(r) == line_action(proto, request_id@, *event, *response),
{
    let mut as_event = false;
    let mut matches_request = false;
    if let Some(h) = event {
        matches_request = h.request_id.as_str().is_empty() || str_eq(h.request_id.as_str(), request_id);
        as_event = str_eq(h.kind.as_str(), "event") && (proto == Protocol::Parser || matches_request);
    }
    if as_event {
        if matches_request { StreamAction::Deliver } else { StreamAction::Wait }
    } else {
        match response {
            Ok(id) => if str_eq(id.as_str(), request_id) {
                StreamAction::Store
            } else {
                StreamAction::Fail(StreamFailure::InvalidResponse("request_id mismatch".to_owned()))
            },
            Err(e) => StreamAction::Fail(StreamFailure::InvalidResponse(e.clone())),
        }
    }
}

/// One step of an exchange (see `step_action`); `has_response` tells whether
/// a response was kept already, and the result whether one is kept after.
pub fn stream_step(
    proto: Protocol,
    request_id: &str,
    has_response: bool,
    idle_ms: u64,
    timeout_ms: u64,
    input: &Received,
) -> (r: (bool, StreamAction))
    ensures
        action_view(r.1) == step_action(proto, request_id@, has_response, idle_ms, timeout_ms, *input),
        r.0 == (has_response || action_view(r.1) is Store),
{
    if idle_ms >= timeout_ms {
        return (has_response, StreamAction::Fail(StreamFailure::Timeout));
    }
    let action = match input {
        Received::Line { blank, event, response } => if *blank {
            StreamAction::Wait
        } else {
            line_step(proto, request_id, event, response)
        },
        Received::Nothing { exit } => if !has_response {
            StreamAction::Wait
        } else {
            match exit {
                ExitProbe::Running => StreamAction::Wait,
                ExitProbe::WaitFailed(e) => StreamAction::Fail(StreamFailure::Io(e.clone())),
                ExitProbe::Exited { success, status } => if *success || proto == Protocol::Qa {
                    StreamAction::Finish
                } else {
                    StreamAction::Fail(StreamFailure::Exited(concat_str("python parser exited with status ", status.as_str())))
                },
            }
        },
        Received::Closed => if has_response {
            StreamAction::Finish
        } else {
            match proto {
                Protocol::Parser => StreamAction::Fail(
                    StreamFailure::InvalidResponse("python parser stream closed unexpectedly".to_owned()),
                ),
                Protocol::Qa => StreamAction::Fail(
                    StreamFailure::InvalidResponse("python qa stream closed unexpectedly".to_owned()),
                ),
            }
        },
    };
    let stored = match action {
        StreamAction::Store => true,
        _ => false,
    };
    (has_response || stored, action)
}

/// The stream timeout: the configured value when it parses, else the larger
/// of the sidecar's timeout and five minutes.
pub open spec fn stream_timeout(configured: Option<Seq<char>>, timeout_ms: u64) -> u64 {
    let parsed = match configured {
        Some(v) => parsed_u64(v),
        None => None,
    };
    match parsed {
        Some(ms) => ms,
        None => if timeout_ms > 300_000 { timeout_ms } else { 300_000 },
    }
}

/// The stream timeout in milliseconds (see `stream_timeout`).
pub fn stream_timeout_ms(configured: Option<String>, timeout_ms: u64) -> (r: u64)
    ensures
        r == stream_timeout(crate::sidecar::opt_view(configured), timeout_ms),
{
    let parsed = match &configured {
        Some(v) => parse_u64(v.as_str()),
        None => None,
    };
    match parsed {
        Some(ms) => ms,
        None => if timeout_ms > 300_000 { timeout_ms } else { 300_000 },
    }
}

/// A response with another request id always ends the exchange in failure.
pub proof fn law_foreign_response_fails(
    proto: Protocol,
    request_id: Seq<char>,
    has_response: bool,
    idle_ms: u64,
    timeout_ms: u64,
    id: String,
)
    requires
        id@ != request_id,
    ensures
        step_action(
            proto,
            request_id,
            has_response,
            idle_ms,
            timeout_ms,
            Received::Line { blank: false, event: None, response: Ok(id) },
        ) is InvalidResponse || step_action(
            proto,
            request_id,
            has_response,
            idle_ms,
            timeout_ms,
            Received::Line { blank: false, event: None, response: Ok(id) },
        ) is Timeout,
{
}

/// The exchange never finishes before a response was kept.
pub proof fn law_no_finish_without_response(
    proto: Protocol,
    request_id: Seq<char>,
    idle_ms: u64,
    timeout_ms: u64,
    input: Received,
)
    ensures
        !(step_action(proto, request_id, false, idle_ms, timeout_ms, input) is Finish),
{
}

} // verus!
