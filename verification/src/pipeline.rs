//! The pipeline that one request runs through, as a state machine: it waits
//! for the inner handler's response, passes it through or has it converted,
//! and is done.

use crate::headers::{append_vary, fields, has_room, is_html_response, stamped, values_of};
use crate::negotiate::convertible;
use http::{HeaderMap, HeaderValue};
use vstd::prelude::*;

verus! {

/// Where the handling of one request stands.
#[derive(Debug, Clone, Copy, PartialEq, Eq, Structural)]
pub enum Phase {
    /// The inner handler has not produced its response yet. `convert` tells
    /// whether the client asked for Markdown.
    AwaitingResponse { convert: bool },
    /// The response is being buffered and converted.
    Converting,
    /// A response or a failure has been handed out.
    Done,
}

/// What polling the computation of the current phase gave.
#[derive(Debug, Clone, Copy, PartialEq, Eq, Structural)]
pub enum Event {
    /// The computation has not finished.
    NotReady,
    /// The inner handler failed.
    InnerFailed,
    /// The inner handler produced a response; `html` tells whether it is
    /// convertible.
    Responded { html: bool },
    /// The conversion produced its response.
    Converted,
}

/// What the caller does after a step.
#[derive(Debug, Clone, Copy, PartialEq, Eq, Structural)]
pub enum Action {
    /// Report that the request is not finished, and poll again later.
    Wait,
    /// Hand the inner handler's failure on as it is.
    Fail,
    /// Stamp `Vary` on the response and hand it out otherwise unchanged.
    PassThrough,
    /// Start buffering and converting the response, and poll that work.
    Convert,
    /// Hand out the response that the conversion produced.
    Emit,
}

/// The events that can occur in a phase: the inner handler is polled while
/// its response is awaited, the conversion while it runs, nothing once the
/// pipeline is done.
pub open spec fn expects(phase: Phase, event: Event) -> bool {
    match phase {
        Phase::AwaitingResponse { .. } => event is NotReady || event is InnerFailed
            || event is Responded,
        Phase::Converting => event is NotReady || event is Converted,
        Phase::Done => false,
    }
}

/// The phase after `event`, and what to do.
pub open spec fn next(phase: Phase, event: Event) -> (Phase, Action) {
    match phase {
        Phase::AwaitingResponse { convert } => match event {
            Event::InnerFailed => (Phase::Done, Action::Fail),
            Event::Responded { html } => if convert && html {
                (Phase::Converting, Action::Convert)
            } else {
                (Phase::Done, Action::PassThrough)
            },
            _ => (phase, Action::Wait),
        },
        Phase::Converting => match event {
            Event::Converted => (Phase::Done, Action::Emit),
            _ => (phase, Action::Wait),
        },
        Phase::Done => (phase, Action::Wait),
    }
}

/// How far a phase is from the start.
pub open spec fn rank(phase: Phase) -> nat {
    match phase {
        Phase::AwaitingResponse { .. } => 0,
        Phase::Converting => 1,
        Phase::Done => 2,
    }
}

/// Whether `event` can occur in `phase`.
pub fn is_expected(phase: Phase, event: Event) -> (r: bool)
    ensures
        r == expects(phase, event),
{
    match phase {
        Phase::AwaitingResponse { .. } => match event {
            Event::Converted => false,
            _ => true,
        },
        Phase::Converting => match event {
            Event::NotReady => true,
            Event::Converted => true,
            _ => false,
        },
        Phase::Done => false,
    }
}

/// One step of the pipeline. The phase never goes back, it stays only while
/// the caller is told to wait, and the pipeline is done exactly when a
/// failure or a response is handed out.
pub fn advance(phase: Phase, event: Event) -> (step: (Phase, Action))
    requires
        expects(phase, event),
    ensures
        step == next(phase, event),
        rank(step.0) >= rank(phase),
        (step.1 is Wait) == (step.0 == phase),
        (step.1 is Wait) == (event is NotReady),
        (step.0 is Done) == (step.1 is Fail || step.1 is PassThrough || step.1 is Emit),
        (step.1 is Convert) == (step.0 is Converting && phase is AwaitingResponse),
{
    match phase {
        Phase::AwaitingResponse { convert } => match event {
            Event::InnerFailed => (Phase::Done, Action::Fail),
            Event::Responded { html } => if convert && html {
                (Phase::Converting, Action::Convert)
            } else {
                (Phase::Done, Action::PassThrough)
            },
            _ => (phase, Action::Wait),
        },
        Phase::Converting => match event {
            Event::Converted => (Phase::Done, Action::Emit),
            _ => (phase, Action::Wait),
        },
        Phase::Done => (phase, Action::Wait),
    }
}

/// What became of a response that the inner handler produced.
#[derive(Debug, Clone, Copy, PartialEq, Eq, Structural)]
pub enum Verdict {
    /// The response goes out as it is, but for `Vary`; `stamped` tells
    /// whether the header collection took the new `Vary` value.
    PassedThrough { stamped: bool },
    /// The response is to be buffered and converted; its headers are
    /// untouched so far.
    ToConvert,
}

/// Takes the step for a response of the inner handler. A response that is not
/// HTML, or one for a client that did not ask for Markdown, is passed through
/// with nothing changed but `Vary`, which is stamped where the collection has
/// room; any other is left untouched for the conversion.
pub fn receive(phase: Phase, headers: &mut HeaderMap<HeaderValue>) -> (step: (Phase, Verdict))
    requires
        phase is AwaitingResponse,
    ensures
        !convertible(values_of(*old(headers), "content-type"@)) ==> step.1 is PassedThrough,
        phase matches Phase::AwaitingResponse { convert } && (step.1 is ToConvert) == (convert
            && convertible(values_of(*old(headers), "content-type"@))),
        step.0 == next(
            phase,
            Event::Responded { html: convertible(values_of(*old(headers), "content-type"@)) },
        ).0,
        match step.1 {
            Verdict::PassedThrough { stamped: stored } => fields(*final(headers)) == stamped(
                fields(*old(headers)),
                stored,
            ),
            Verdict::ToConvert => fields(*final(headers)) == fields(*old(headers)),
        },
        has_room(fields(*old(headers))) ==> step.1 != (Verdict::PassedThrough { stamped: false }),
{
    let html = is_html_response(headers);
    let (after, action) = advance(phase, Event::Responded { html });
    match action {
        Action::Convert => (after, Verdict::ToConvert),
        _ => {
            let stored = append_vary(headers);
            (after, Verdict::PassedThrough { stamped: stored })
        },
    }
}

} // verus!
