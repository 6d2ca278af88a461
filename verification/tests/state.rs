use fleetform::state::{
    kv_read_url, kv_write_url, read_remote, read_verdict, write_remote, write_verdict,
    ReadVerdict, RetryAction, RetryPolicy, State, StateError, TryOutcome,
};

#[test]
fn fresh_state_is_empty() {
    let state = State::new();
    assert_eq!(state.version, 1);
    assert_eq!(state.serial, 0);
    assert!(state.resources.is_empty());
}

#[test]
fn recording_appends() {
    let mut state = State::new();
    state.record("aws_instance_example".to_string());
    assert_eq!(state.resources, vec!["aws_instance_example".to_string()]);
    state.record("aws_instance_example".to_string());
    assert_eq!(state.resources.len(), 2);
    assert_eq!(state.version, 1);
    assert_eq!(state.serial, 0);
}

#[test]
fn advancing_counts_revisions() {
    let mut state = State::new();
    state.advance();
    state.advance();
    assert_eq!(state.serial, 2);
    state.serial = u64::MAX;
    state.advance();
    assert_eq!(state.serial, u64::MAX);
}

#[test]
fn lock_is_tried_four_times() {
    let mut policy = RetryPolicy::for_lock();
    assert_eq!(policy.on_outcome(false), RetryAction::PauseThenRetry);
    assert_eq!(policy.on_outcome(false), RetryAction::PauseThenRetry);
    assert_eq!(policy.on_outcome(false), RetryAction::PauseThenRetry);
    assert_eq!(policy.on_outcome(false), RetryAction::Fail(StateError::LockTimeout));
    assert_eq!(policy.on_outcome(false), RetryAction::Fail(StateError::LockTimeout));
}

#[test]
fn success_ends_the_tries() {
    let mut policy = RetryPolicy::new(1);
    assert_eq!(policy.on_outcome(false), RetryAction::PauseThenRetry);
    assert_eq!(policy.on_outcome(true), RetryAction::Done);
    let mut none = RetryPolicy::new(0);
    assert_eq!(none.on_outcome(false), RetryAction::Fail(StateError::LockTimeout));
}

#[test]
fn key_value_addresses() {
    assert_eq!(
        kv_write_url("http://localhost:8500", "fleetform/state"),
        "http://localhost:8500/v1/kv/fleetform/state"
    );
    assert_eq!(
        kv_read_url("http://localhost:8500", "fleetform/state"),
        "http://localhost:8500/v1/kv/fleetform/state?raw"
    );
}

#[test]
fn write_needs_a_success_status() {
    assert_eq!(write_verdict(200), Ok(()));
    assert_eq!(write_verdict(204), Ok(()));
    assert_eq!(write_verdict(299), Ok(()));
    assert_eq!(write_verdict(199), Err(StateError::RemoteUnavailable(Some(199))));
    assert_eq!(write_verdict(300), Err(StateError::RemoteUnavailable(Some(300))));
    assert_eq!(write_verdict(404), Err(StateError::RemoteUnavailable(Some(404))));
    assert_eq!(write_verdict(500), Err(StateError::RemoteUnavailable(Some(500))));
}

#[test]
fn read_verdicts() {
    assert_eq!(read_verdict(Some(200)), ReadVerdict::Decode);
    assert_eq!(read_verdict(Some(404)), ReadVerdict::Fresh);
    assert_eq!(read_verdict(None), ReadVerdict::Fresh);
    assert_eq!(read_verdict(Some(299)), ReadVerdict::Decode);
    assert_eq!(read_verdict(Some(500)), ReadVerdict::Fresh);
    assert_eq!(read_verdict(Some(301)), ReadVerdict::Fresh);
    assert_eq!(read_verdict(Some(199)), ReadVerdict::Fresh);
}

#[test]
fn absent_key_reads_as_empty_state() {
    let mut stale = State::new();
    stale.record("x".to_string());
    let state = read_remote(Some(404), stale).ok().unwrap();
    assert_eq!(state.version, 1);
    assert_eq!(state.serial, 0);
    assert!(state.resources.is_empty());
}

#[test]
fn unreachable_backend_reads_as_empty_state() {
    let state = read_remote(None, State::new()).ok().unwrap();
    assert!(state.resources.is_empty());
}

#[test]
fn stored_state_is_read_back() {
    let mut stored = State::new();
    stored.record("aws_instance_example".to_string());
    stored.advance();
    let state = read_remote(Some(200), stored).ok().unwrap();
    assert_eq!(state.version, 1);
    assert_eq!(state.serial, 1);
    assert_eq!(state.resources, vec!["aws_instance_example".to_string()]);
}

#[test]
fn refused_read_degrades_to_empty_state() {
    for status in [500u16, 503, 403, 301, 199, 300] {
        let mut stale = State::new();
        stale.record("x".to_string());
        stale.advance();
        let state = read_remote(Some(status), stale).ok().unwrap();
        assert_eq!(state.version, 1);
        assert_eq!(state.serial, 0);
        assert!(state.resources.is_empty());
    }
}

#[test]
fn first_record_is_replaced() {
    let mut state = State::new();
    for id in ["a", "old-resource", "b", "old-resource"] {
        state.record(id.to_string());
    }
    assert!(state.replace_first("old-resource", "new-resource"));
    assert_eq!(
        state.resources,
        vec!["a".to_string(), "new-resource".to_string(), "b".to_string(), "old-resource".to_string()]
    );
    assert!(!state.replace_first("missing", "x"));
    assert_eq!(state.resources.len(), 4);
    assert_eq!(state.serial, 0);
}

#[test]
fn write_fails_without_a_connection() {
    assert_eq!(write_remote(None), Err(StateError::RemoteUnavailable(None)));
    assert_eq!(write_remote(Some(200)), Ok(()));
    assert_eq!(write_remote(Some(299)), Ok(()));
    assert_eq!(write_remote(Some(404)), Err(StateError::RemoteUnavailable(Some(404))));
    assert_eq!(write_remote(Some(500)), Err(StateError::RemoteUnavailable(Some(500))));
    assert_eq!(write_remote(Some(199)), Err(StateError::RemoteUnavailable(Some(199))));
}

#[test]
fn only_contention_is_tried_again() {
    let mut policy = RetryPolicy::for_lock();
    assert_eq!(policy.on_try(TryOutcome::Failed), RetryAction::ReportFailure);
    assert_eq!(policy.on_try(TryOutcome::Contended), RetryAction::PauseThenRetry);
    assert_eq!(policy.on_try(TryOutcome::Failed), RetryAction::ReportFailure);
    assert_eq!(policy.on_try(TryOutcome::Contended), RetryAction::PauseThenRetry);
    assert_eq!(policy.on_try(TryOutcome::Contended), RetryAction::PauseThenRetry);
    assert_eq!(
        policy.on_try(TryOutcome::Contended),
        RetryAction::Fail(StateError::LockTimeout)
    );
    assert_eq!(policy.on_try(TryOutcome::Failed), RetryAction::ReportFailure);
    assert_eq!(policy.on_try(TryOutcome::Succeeded), RetryAction::Done);
}
