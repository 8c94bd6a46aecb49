//! The decisions of the event loop and of the work that each event gets:
//! what to run next, given what the last step came back with.

use vstd::prelude::*;

use crate::error::GrammersthonError;
use crate::table::Route;

verus! {

/// Where the work on one event stands.
#[derive(PartialEq, Eq, Structural, Clone, Copy, Debug)]
pub enum Phase {
    /// Nothing has run yet.
    Start,
    /// The interceptor runs.
    Intercepting,
    /// The handler table is consulted.
    Routing,
    /// A handler or a fallback runs.
    Running,
    /// The error handler runs.
    Reporting,
    /// Nothing more runs.
    Done,
}

/// What the last step of the work came back with.
pub enum Signal {
    /// The event arrived; whether it is a new message.
    Arrived(bool),
    /// The interceptor finished.
    Intercepted(Result<(), GrammersthonError>),
    /// The table chose where the message goes.
    Routed(Route),
    /// A handler, a fallback or the error handler finished.
    Finished(Result<(), GrammersthonError>),
}

/// What to run next.
pub enum Action {
    CallEventFallback,
    CallInterceptor,
    Route,
    CallHandler(usize),
    CallMessageFallback,
    /// Hand this error to the error handler.
    CallErrorHandler(GrammersthonError),
    /// The error handler itself failed: only record it.
    LogError(GrammersthonError),
    Nothing,
}

/// The phase that follows `p` on signal `s`, where `intercepts` tells
/// whether an interceptor is registered.
pub open spec fn next_phase(p: Phase, intercepts: bool, s: Signal) -> Phase {
    match (p, s) {
        (Phase::Start, Signal::Arrived(is_message)) => if !is_message {
            Phase::Running
        } else if intercepts {
            Phase::Intercepting
        } else {
            Phase::Routing
        },
        (Phase::Intercepting, Signal::Intercepted(r)) => if r is Ok {
            Phase::Routing
        } else {
            Phase::Reporting
        },
        (Phase::Routing, Signal::Routed(route)) => if route is Unsatisfied {
            Phase::Reporting
        } else {
            Phase::Running
        },
        (Phase::Running, Signal::Finished(r)) => if r is Ok {
            Phase::Done
        } else {
            Phase::Reporting
        },
        (Phase::Reporting, Signal::Finished(_)) => Phase::Done,
        _ => p,
    }
}

/// Whether `a` is what to run when `p` meets signal `s`: the event fallback
/// for another kind of event; the interceptor, if any, then the table; the
/// handler that the table chose, or the message fallback; the error handler
/// for an error of any of these, or for a message that nothing can take; and
/// a record only, for an error of the error handler. A signal that the phase
/// does not expect changes nothing.
pub open spec fn action_fits(p: Phase, intercepts: bool, s: Signal, a: Action) -> bool {
    match (p, s) {
        (Phase::Start, Signal::Arrived(is_message)) => if !is_message {
            a is CallEventFallback
        } else if intercepts {
            a is CallInterceptor
        } else {
            a is Route
        },
        (Phase::Intercepting, Signal::Intercepted(r)) => match r {
            Ok(_) => a is Route,
            Err(e) => a == Action::CallErrorHandler(e),
        },
        (Phase::Routing, Signal::Routed(route)) => match route {
            Route::Handler(i) => a == Action::CallHandler(i),
            Route::Fallback => a is CallMessageFallback,
            Route::Unsatisfied => a matches Action::CallErrorHandler(e)
                && e matches GrammersthonError::MissingParameters(msg) && msg@
                == "Fallback handle function parameter"@,
        },
        (Phase::Running, Signal::Finished(r)) => match r {
            Ok(_) => a is Nothing,
            Err(e) => a == Action::CallErrorHandler(e),
        },
        (Phase::Reporting, Signal::Finished(r)) => match r {
            Ok(_) => a is Nothing,
            Err(e) => a == Action::LogError(e),
        },
        _ => a is Nothing,
    }
}

/// The next phase and what to run in it.
pub fn step(p: Phase, intercepts: bool, s: Signal) -> (r: (Phase, Action))
    ensures
        r.0 == next_phase(p, intercepts, s),
        action_fits(p, intercepts, s, r.1),
{
    match (p, s) {
        (Phase::Start, Signal::Arrived(is_message)) => if !is_message {
            (Phase::Running, Action::CallEventFallback)
        } else if intercepts {
            (Phase::Intercepting, Action::CallInterceptor)
        } else {
            (Phase::Routing, Action::Route)
        },
        (Phase::Intercepting, Signal::Intercepted(r)) => match r {
            Ok(_) => (Phase::Routing, Action::Route),
            Err(e) => (Phase::Reporting, Action::CallErrorHandler(e)),
        },
        (Phase::Routing, Signal::Routed(route)) => match route {
            Route::Handler(i) => (Phase::Running, Action::CallHandler(i)),
            Route::Fallback => (Phase::Running, Action::CallMessageFallback),
            Route::Unsatisfied => (
                Phase::Reporting,
                Action::CallErrorHandler(
                    GrammersthonError::MissingParameters(
                        "Fallback handle function parameter".to_owned(),
                    ),
                ),
            ),
        },
        (Phase::Running, Signal::Finished(r)) => match r {
            Ok(_) => (Phase::Done, Action::Nothing),
            Err(e) => (Phase::Reporting, Action::CallErrorHandler(e)),
        },
        (Phase::Reporting, Signal::Finished(r)) => match r {
            Ok(_) => (Phase::Done, Action::Nothing),
            Err(e) => (Phase::Done, Action::LogError(e)),
        },
        (p, _) => (p, Action::Nothing),
    }
}

/// What fetching the next event came back with.
pub enum Fetched {
    /// An event, to be handed to work of its own.
    Event,
    /// The stream had nothing.
    Nothing,
    /// Fetching failed.
    Failed(GrammersthonError),
}

/// What the event loop does next.
pub enum LoopAction {
    /// Start work on the event, then fetch the next one without waiting for it.
    SpawnAndFetch,
    /// Fetch again.
    Fetch,
    /// End the loop with the error.
    Stop(GrammersthonError),
}

/// The event loop's decision after a fetch. It does not wait for, nor look
/// at, the work started for earlier events: only a failed fetch ends it.
pub fn loop_step(f: Fetched) -> (r: LoopAction)
    ensures
        match f {
            Fetched::Event => r is SpawnAndFetch,
            Fetched::Nothing => r is Fetch,
            Fetched::Failed(e) => r == LoopAction::Stop(e),
        },
{
    match f {
        Fetched::Event => LoopAction::SpawnAndFetch,
        Fetched::Nothing => LoopAction::Fetch,
        Fetched::Failed(e) => LoopAction::Stop(e),
    }
}

/// An error that a handler returns goes to the error handler, with that
/// error; after that, whatever comes back, the work on the event never calls
/// the error handler again, so it is called exactly once.
pub proof fn lemma_error_reported_once(intercepts: bool, e: GrammersthonError, a: Action)
    requires
        action_fits(Phase::Running, intercepts, Signal::Finished(Err(e)), a),
    ensures
        a == Action::CallErrorHandler(e),
        next_phase(Phase::Running, intercepts, Signal::Finished(Err(e))) == Phase::Reporting,
        forall|s: Signal, b: Action|
            action_fits(Phase::Reporting, intercepts, s, b) ==> !(b is CallErrorHandler),
        forall|s: Signal, b: Action|
            action_fits(Phase::Done, intercepts, s, b) ==> !(b is CallErrorHandler),
        forall|s: Signal|
            #![auto]
            next_phase(Phase::Reporting, intercepts, s) == Phase::Reporting || next_phase(
                Phase::Reporting,
                intercepts,
                s,
            ) == Phase::Done,
        forall|s: Signal| #![auto] next_phase(Phase::Done, intercepts, s) == Phase::Done,
{
}

} // verus!
