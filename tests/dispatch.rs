use grammersthon::{
    loop_step, step, Action, Fetched, GrammersthonError, LoopAction, Phase, Route, Signal,
};

#[test]
fn handler_error_goes_to_error_handler_once() {
    let (p, a) = step(
        Phase::Running,
        false,
        Signal::Finished(Err(GrammersthonError::Error("boom".to_string()))),
    );
    assert_eq!(p, Phase::Reporting);
    assert!(matches!(a, Action::CallErrorHandler(GrammersthonError::Error(ref s)) if s == "boom"));
    let (p, a) = step(p, false, Signal::Finished(Err(GrammersthonError::Unimplemented)));
    assert_eq!(p, Phase::Done);
    assert!(matches!(a, Action::LogError(GrammersthonError::Unimplemented)));
    let (p, a) = step(p, false, Signal::Finished(Err(GrammersthonError::Unimplemented)));
    assert_eq!(p, Phase::Done);
    assert!(matches!(a, Action::Nothing));
    assert!(matches!(loop_step(Fetched::Event), LoopAction::SpawnAndFetch));
}

#[test]
fn message_goes_through_interceptor_then_table() {
    let (p, a) = step(Phase::Start, true, Signal::Arrived(true));
    assert_eq!(p, Phase::Intercepting);
    assert!(matches!(a, Action::CallInterceptor));
    let (p, a) = step(p, true, Signal::Intercepted(Ok(())));
    assert_eq!(p, Phase::Routing);
    assert!(matches!(a, Action::Route));
    let (p, a) = step(p, true, Signal::Routed(Route::Handler(3)));
    assert_eq!(p, Phase::Running);
    assert!(matches!(a, Action::CallHandler(3)));
    let (p, a) = step(p, true, Signal::Finished(Ok(())));
    assert_eq!(p, Phase::Done);
    assert!(matches!(a, Action::Nothing));
}

#[test]
fn other_events_and_failures() {
    let (p, a) = step(Phase::Start, true, Signal::Arrived(false));
    assert_eq!(p, Phase::Running);
    assert!(matches!(a, Action::CallEventFallback));
    let (p, a) = step(Phase::Start, false, Signal::Arrived(true));
    assert_eq!(p, Phase::Routing);
    assert!(matches!(a, Action::Route));
    let (p, a) = step(p, false, Signal::Routed(Route::Unsatisfied));
    assert_eq!(p, Phase::Reporting);
    assert!(matches!(a, Action::CallErrorHandler(GrammersthonError::MissingParameters(ref m)) if m == "Fallback handle function parameter"));
    let (p, a) = step(Phase::Routing, false, Signal::Routed(Route::Fallback));
    assert_eq!(p, Phase::Running);
    assert!(matches!(a, Action::CallMessageFallback));
    let (p, a) = step(
        Phase::Intercepting,
        true,
        Signal::Intercepted(Err(GrammersthonError::Error("no".to_string()))),
    );
    assert_eq!(p, Phase::Reporting);
    assert!(matches!(a, Action::CallErrorHandler(GrammersthonError::Error(_))));
    let (p, a) = step(Phase::Reporting, true, Signal::Finished(Ok(())));
    assert_eq!(p, Phase::Done);
    assert!(matches!(a, Action::Nothing));
    let (p, a) = step(Phase::Routing, true, Signal::Arrived(true));
    assert_eq!(p, Phase::Routing);
    assert!(matches!(a, Action::Nothing));
}

#[test]
fn event_loop_stops_only_on_fetch_failure() {
    assert!(matches!(loop_step(Fetched::Nothing), LoopAction::Fetch));
    assert!(matches!(
        loop_step(Fetched::Failed(GrammersthonError::IO("closed".to_string()))),
        LoopAction::Stop(GrammersthonError::IO(_))
    ));
}

#[test]
fn error_messages() {
    assert_eq!(GrammersthonError::IO("gone".to_string()).describe(), "IO error: gone");
    assert_eq!(
        GrammersthonError::MissingParameters("x".to_string()).describe(),
        "Missing parameters: x"
    );
    assert_eq!(GrammersthonError::Unimplemented.describe(), "Unimplemented");
    assert_eq!(GrammersthonError::Error("plain".to_string()).describe(), "plain");
    assert_eq!(GrammersthonError::Parse("v".to_string(), None).describe(), "Error parsing v");
    assert_eq!(
        GrammersthonError::Parse("v".to_string(), Some("bad digit".to_string())).describe(),
        "Error parsing v: bad digit"
    );
    assert_eq!(
        GrammersthonError::InvocationError("rpc".to_string()).describe(),
        "Other error: rpc"
    );
}
