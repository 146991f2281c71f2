use ive::basic::BasicNode;
use ive::errors::GraphError;
use ive::graph::{pod_to_sorted, sorted_to_exec, Connection, GraphBuilder, Node, NodeFactory, PODGraph};
use ive::linear::{LinearExecutionDesc, NodeDatabase, NodeDesc};

fn make_test_graph() -> PODGraph {
    let mut graph = PODGraph::default();

    graph.nodes.push(Node {
        id: uuid::Uuid::new_v4().to_string(),
        kind: "one".into(),
        incoming_connections: vec![],
        data: None,
    });
    graph.nodes.push(Node {
        id: uuid::Uuid::new_v4().to_string(),
        kind: "add".into(),
        incoming_connections: vec![
            Connection {
                from_id: graph.nodes[0].id.clone(),
                from_port: "value".to_string(),
                to_port: "a".to_string(),
            },
            Connection {
                from_id: graph.nodes[0].id.clone(),
                from_port: "value".to_string(),
                to_port: "b".to_string(),
            },
        ],
        data: None,
    });
    graph
}

#[test]
fn test_experimental_pod() {
    let graph = make_test_graph();

    let sorted = pod_to_sorted(&graph).unwrap();
    assert_eq!(sorted.order(), &vec![0, 1]);
}

struct TestFactory;
impl NodeFactory<BasicNode> for TestFactory {
    fn create(&self, node: &Node) -> Result<BasicNode, GraphError> {
        match node.kind.as_str() {
            "one" => Ok(BasicNode::One),
            "add" => Ok(BasicNode::Add),
            _ => Err(GraphError::UnknownKind),
        }
    }
}

#[test]
fn test_builder() {
    let mut builder = GraphBuilder::new();
    let one = builder.add_node("one");
    let add = builder.add_node("add");
    builder.connect(&one.out_port("value"), &add.in_port("a"));
    builder.connect(&one.out_port("value"), &add.in_port("b"));

    let graph = builder.build();
    let sorted = pod_to_sorted(&graph).unwrap();
    assert_eq!(sorted.order(), &vec![0, 1]);

    let _exec = sorted_to_exec(&sorted, &TestFactory {}).unwrap();
}

#[test]
fn test_network() {
    let mut builder = GraphBuilder::new();

    let one = builder.add_node("one");
    let add = builder.add_node("add");

    builder.connect(&one.out_port("value"), &add.in_port("a"));
    builder.connect(&one.out_port("value"), &add.in_port("b"));
}

#[test]
fn test_my_builder() {
    let mut builder = GraphBuilder::new();

    let b = builder.add_node("B");
    let a = builder.add_node("A");

    builder.connect(&a.out_port("outport"), &b.in_port("inport"));

    let graph = builder.build();
    let kinds: Vec<&str> = graph.nodes.iter().map(|n| n.kind.as_str()).collect();

    assert!(kinds == vec!["A", "B"] || kinds == vec!["B", "A"]);
}

#[test]
fn test_more_complex_buidler() {
    let mut builder = GraphBuilder::new();

    let a = builder.add_node("A");
    let b = builder.add_node("B");
    let c = builder.add_node("C");
    let d = builder.add_node("D");
    let e = builder.add_node("E");

    builder.connect(&a.out_port("first"), &b.in_port("inport"));
    builder.connect(&a.out_port("second"), &c.in_port("inport"));
    builder.connect(&b.out_port("outport"), &d.in_port("first"));
    builder.connect(&c.out_port("outport"), &d.in_port("second"));
    builder.connect(&d.out_port("outport"), &e.in_port("inport"));

    let graph = builder.build();
    let sorted = pod_to_sorted(&graph).unwrap();

    let sorted_names: Vec<&str> = sorted
        .order()
        .iter()
        .map(|i| graph.nodes[*i].kind.as_str())
        .collect();
    let expected = vec!["A", "B", "C", "D", "E"];
    let expected2 = vec!["A", "C", "B", "D", "E"];

    assert!(sorted_names == expected || sorted_names == expected2);
}

#[test]
fn test_cycles_fail() {
    let mut builder = GraphBuilder::new();

    let a = builder.add_node("A");
    let b = builder.add_node("B");

    builder.connect(&a.out_port("first"), &b.in_port("inport"));
    builder.connect(&b.out_port("second"), &a.in_port("inport"));

    let graph = builder.build();
    let sorted = pod_to_sorted(&graph);

    assert!(sorted.is_err());
    assert!(matches!(sorted.err(), Some(GraphError::CycleDetected)));
}

#[test]
fn builder_added_out_of_order_still_sorts() {
    // the consumer is added before its producer; a constant node identity
    // would collapse the two nodes and wrongly report a cycle
    let mut builder = GraphBuilder::new();
    let add = builder.add_node("add");
    let one = builder.add_node("one");
    builder.connect(&one.out_port("value"), &add.in_port("a"));

    let graph = builder.build();
    let sorted = pod_to_sorted(&graph).unwrap();
    assert_eq!(sorted.order(), &vec![1, 0]);
}

#[test]
fn missing_source_is_reported() {
    let mut graph = PODGraph::default();
    graph.nodes.push(Node {
        id: "sink".to_string(),
        kind: "add".into(),
        incoming_connections: vec![Connection {
            from_id: "nowhere".to_string(),
            from_port: "value".to_string(),
            to_port: "a".to_string(),
        }],
        data: None,
    });
    let sorted = pod_to_sorted(&graph);
    assert!(matches!(sorted.err(), Some(GraphError::NodeNotFound)));
}

struct TestDb;
impl NodeDatabase for TestDb {
    fn lookup(&self, kind: &String) -> Result<NodeDesc, GraphError> {
        match kind.as_str() {
            "one" => Ok(NodeDesc {
                inputs: vec![],
                outputs: vec!["value".to_string()],
            }),
            "add" => Ok(NodeDesc {
                inputs: vec!["a".to_string(), "b".to_string()],
                outputs: vec!["value".to_string()],
            }),
            _ => Err(GraphError::UnknownKind),
        }
    }
}

#[test]
fn linearization_resolves_offsets() {
    let graph = make_test_graph();
    let sorted = pod_to_sorted(&graph).unwrap();
    let led = LinearExecutionDesc::new(&sorted, &TestDb {}).unwrap();

    assert_eq!(led.description.len(), 2);
    assert_eq!(led.input_mapping, vec![vec![], vec![0, 0]]);
}

#[test]
fn linearization_reports_missing_connection() {
    let mut graph = PODGraph::default();
    graph.nodes.push(Node {
        id: "n0".to_string(),
        kind: "add".into(),
        incoming_connections: vec![],
        data: None,
    });
    let sorted = pod_to_sorted(&graph).unwrap();
    let led = LinearExecutionDesc::new(&sorted, &TestDb {});
    assert!(matches!(led.err(), Some(GraphError::MissingConnection)));
}

#[test]
fn linearization_reports_missing_port() {
    let mut graph = PODGraph::default();
    graph.nodes.push(Node {
        id: "n0".to_string(),
        kind: "one".into(),
        incoming_connections: vec![],
        data: None,
    });
    graph.nodes.push(Node {
        id: "n1".to_string(),
        kind: "add".into(),
        incoming_connections: vec![
            Connection {
                from_id: "n0".to_string(),
                from_port: "no_such_port".to_string(),
                to_port: "a".to_string(),
            },
            Connection {
                from_id: "n0".to_string(),
                from_port: "value".to_string(),
                to_port: "b".to_string(),
            },
        ],
        data: None,
    });
    let sorted = pod_to_sorted(&graph).unwrap();
    let led = LinearExecutionDesc::new(&sorted, &TestDb {});
    assert!(matches!(led.err(), Some(GraphError::MissingPort)));
}

#[test]
fn linearization_reports_unknown_kind() {
    let mut graph = PODGraph::default();
    graph.nodes.push(Node {
        id: "n0".to_string(),
        kind: "mystery".into(),
        incoming_connections: vec![],
        data: None,
    });
    let sorted = pod_to_sorted(&graph).unwrap();
    let led = LinearExecutionDesc::new(&sorted, &TestDb {});
    assert!(matches!(led.err(), Some(GraphError::UnknownKind)));
}

#[test]
fn wiring_completes_the_linearization() {
    let graph = make_test_graph();
    let sorted = pod_to_sorted(&graph).unwrap();
    let led = LinearExecutionDesc::new(&sorted, &TestDb {}).unwrap();

    let calls = vec![BasicNode::One, BasicNode::Add];
    let mut exec = led.wire(calls);

    let count = exec.run().expect("Failed to run");
    assert_eq!(count, 2);
    assert_eq!(exec.value(1).unwrap().value_i32().unwrap(), &2);

    // a second tick is a fixpoint; re-marking the producer cascades to the
    // combiner through the derived children list
    assert_eq!(exec.run().expect("Failed to run"), 0);
    exec.set_runnable(0);
    assert_eq!(exec.run().expect("Failed to run"), 2);
}
