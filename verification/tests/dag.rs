use fleetform::dag::{GraphError, ResourceGraph};

fn names(v: &[&str]) -> Vec<String> {
    v.iter().map(|s| s.to_string()).collect()
}

#[test]
fn dependency_comes_first() {
    let mut graph = ResourceGraph::new();
    graph.add_resource("A");
    graph.add_resource("B");
    assert_eq!(graph.add_dependency("A", "B"), Ok(()));
    assert_eq!(graph.get_ordered_resources(), Ok(names(&["B", "A"])));
}

#[test]
fn mutual_dependency_is_a_cycle() {
    let mut graph = ResourceGraph::new();
    graph.add_resource("A");
    graph.add_resource("B");
    assert_eq!(graph.add_dependency("A", "B"), Ok(()));
    assert_eq!(graph.add_dependency("B", "A"), Ok(()));
    assert_eq!(graph.get_ordered_resources(), Err(GraphError::CycleDetected));
}

#[test]
fn self_dependency_is_a_cycle() {
    let mut graph = ResourceGraph::new();
    graph.add_resource("A");
    assert_eq!(graph.add_dependency("A", "A"), Ok(()));
    assert_eq!(graph.get_ordered_resources(), Err(GraphError::CycleDetected));
}

#[test]
fn unknown_resource_is_not_found() {
    let mut graph = ResourceGraph::new();
    graph.add_resource("A");
    assert_eq!(graph.add_dependency("A", "B"), Err(GraphError::NotFound));
    assert_eq!(graph.add_dependency("B", "A"), Err(GraphError::NotFound));
    assert_eq!(graph.dependency_count(), 0);
    assert_eq!(graph.get_ordered_resources(), Ok(names(&["A"])));
}

#[test]
fn adding_twice_changes_nothing() {
    let mut graph = ResourceGraph::new();
    assert_eq!(graph.add_resource("A"), 0);
    assert_eq!(graph.add_resource("B"), 1);
    assert_eq!(graph.add_resource("A"), 0);
    assert_eq!(graph.resource_count(), 2);
    assert!(graph.has_resource("A"));
    assert!(!graph.has_resource("C"));
    assert_eq!(graph.add_dependency("A", "B"), Ok(()));
    assert_eq!(graph.add_dependency("A", "B"), Ok(()));
    assert_eq!(graph.dependency_count(), 1);
}

#[test]
fn order_respects_every_edge_and_repeats() {
    let mut graph = ResourceGraph::new();
    for name in ["app", "db", "net", "dns", "cache"] {
        graph.add_resource(name);
    }
    let edges = [("app", "db"), ("app", "cache"), ("db", "net"), ("cache", "net"), ("dns", "net")];
    for (from, to) in edges {
        assert_eq!(graph.add_dependency(from, to), Ok(()));
    }
    let order = graph.get_ordered_resources().unwrap();
    assert_eq!(order.len(), 5);
    let position = |name: &str| order.iter().position(|n| n == name).unwrap();
    for (from, to) in edges {
        assert!(position(to) < position(from));
    }
    assert_eq!(graph.get_ordered_resources().unwrap(), order);
    assert_eq!(graph.get_ordered_resources().unwrap(), order);
}

#[test]
fn empty_graph_has_empty_order() {
    let graph = ResourceGraph::new();
    assert_eq!(graph.resource_count(), 0);
    assert_eq!(graph.get_ordered_resources(), Ok(Vec::new()));
}
