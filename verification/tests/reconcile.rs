use fleetform::dag::GraphError;
use fleetform::hcl::SyntaxError;
use fleetform::reconcile::{find_resource, plan, Apply, Dependency, Destroy, PlanError};
use fleetform::state::State;

const TEXT: &str = "resource \"aws_instance\" \"web\" {\n  ami = \"ami-1\"\n}\nprovider \"aws\" {\n}\nresource \"aws_s3_bucket\" \"logs\" {\n}\n";

fn dep(from: &str, to: &str) -> Dependency {
    Dependency { from: from.to_string(), to: to.to_string() }
}

#[test]
fn plan_orders_dependencies_first() {
    let made = plan(TEXT, &vec![dep("aws_s3_bucket_logs", "aws_instance_web")]).ok().unwrap();
    assert_eq!(made.blocks.len(), 3);
    assert_eq!(made.order, vec!["aws_instance_web".to_string(), "aws_s3_bucket_logs".to_string()]);
    let made = plan(TEXT, &vec![dep("aws_instance_web", "aws_s3_bucket_logs")]).ok().unwrap();
    assert_eq!(made.order, vec!["aws_s3_bucket_logs".to_string(), "aws_instance_web".to_string()]);
    assert_eq!(find_resource(&made.blocks, "aws_s3_bucket_logs"), Some(2));
    assert_eq!(find_resource(&made.blocks, "aws_instance_web"), Some(0));
    assert_eq!(find_resource(&made.blocks, "aws"), None);
}

#[test]
fn plan_fails_before_anything_is_done() {
    assert_eq!(plan("resource \"a\" \"b\" {", &vec![]).err(), Some(PlanError::Syntax(SyntaxError::UnmatchedBraces)));
    assert_eq!(
        plan(TEXT, &vec![dep("aws_instance_web", "missing")]).err(),
        Some(PlanError::Graph(GraphError::NotFound))
    );
    assert_eq!(
        plan(
            TEXT,
            &vec![dep("aws_instance_web", "aws_s3_bucket_logs"), dep("aws_s3_bucket_logs", "aws_instance_web")]
        )
        .err(),
        Some(PlanError::Graph(GraphError::CycleDetected))
    );
}

#[test]
fn apply_records_each_success() {
    let mut state = State::new();
    state.record("old".to_string());
    let mut apply = Apply::begin(vec!["a".to_string(), "b".to_string()], state);
    assert_eq!(apply.next(), Some(0));
    assert_eq!(apply.next_resource(), "a");
    apply.succeeded();
    assert_eq!(apply.next(), Some(1));
    assert_eq!(apply.next_resource(), "b");
    apply.succeeded();
    assert_eq!(apply.next(), None);
    let (state, failure) = apply.finish();
    assert!(failure.is_none());
    assert_eq!(state.resources, vec!["old".to_string(), "a".to_string(), "b".to_string()]);
}

#[test]
fn apply_halts_at_the_first_failure() {
    let mut apply =
        Apply::begin(vec!["a".to_string(), "b".to_string(), "c".to_string()], State::new());
    apply.succeeded();
    apply.failed("quota exceeded".to_string());
    assert_eq!(apply.next(), None);
    let (state, failure) = apply.finish();
    let failure = failure.unwrap();
    assert_eq!(failure.resource, "b");
    assert_eq!(failure.cause, "quota exceeded");
    assert_eq!(state.resources, vec!["a".to_string()]);
}

#[test]
fn destroy_empties_the_state() {
    let mut state = State::new();
    state.record("a".to_string());
    state.record("b".to_string());
    let mut destroy = Destroy::begin(state);
    assert_eq!(destroy.next(), Some(&"b".to_string()));
    destroy.succeeded();
    assert_eq!(destroy.next(), Some(&"a".to_string()));
    destroy.succeeded();
    assert_eq!(destroy.next(), None);
    let (state, failure) = destroy.finish();
    assert!(failure.is_none());
    assert!(state.resources.is_empty());
}

#[test]
fn destroy_keeps_what_is_left() {
    let mut state = State::new();
    state.record("a".to_string());
    state.record("b".to_string());
    let mut destroy = Destroy::begin(state);
    destroy.succeeded();
    destroy.failed("in use".to_string());
    assert_eq!(destroy.next(), None);
    let (state, failure) = destroy.finish();
    assert_eq!(failure.unwrap().resource, "a");
    assert_eq!(state.resources, vec!["a".to_string()]);
}
