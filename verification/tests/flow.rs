use switchboard::flow::executor::{
    lookup_output, ports_of, route_outputs, wiring, FanInMode, InputBuffers, Route,
};
use switchboard::flow::graph::{Edge, Graph, GraphBuilder, GraphError};
use switchboard::flow::ids::{NodeId, PortId};
use switchboard::flow::yaml_loader::{YamlEdge, YamlGraph, YamlGraphError, YamlNode};

fn nid(s: &str) -> NodeId {
    NodeId::new(s.to_string())
}

fn pid(s: &str) -> PortId {
    PortId::new(s.to_string())
}

#[test]
fn build_fails_on_unknown_node_reference() {
    let result = Graph::<()>::builder()
        .input(nid("ghost"), PortId::default_port(), b"in".to_vec())
        .build();

    assert!(result.is_err());
}

#[test]
fn build_reports_first_unknown_node() {
    let result = Graph::<u8>::builder()
        .node(nid("a"), 1)
        .input(nid("a"), pid("in"), b"t".to_vec())
        .output(nid("b"), pid("out"), b"u".to_vec())
        .build();
    match result {
        Err(GraphError::UnknownNode(id)) => assert_eq!(id.as_str(), "b"),
        Ok(_) => panic!("expected an error"),
    }
}

#[test]
fn build_accepts_wired_graph() {
    let graph = Graph::<u8>::builder()
        .node(nid("a"), 1)
        .node(nid("b"), 2)
        .input(nid("a"), pid("in"), b"src".to_vec())
        .output(nid("a"), pid("out"), b"mid".to_vec())
        .input(nid("b"), pid("in"), b"mid".to_vec())
        .build()
        .unwrap();
    let ids: Vec<String> = graph.node_ids().iter().map(|n| n.as_str().to_string()).collect();
    assert_eq!(ids, vec!["a".to_string(), "b".to_string()]);
    let (inputs, outputs) = graph.edges();
    assert_eq!(inputs.len(), 2);
    assert_eq!(outputs.len(), 1);
}

#[test]
fn adding_a_node_twice_keeps_one() {
    let graph = GraphBuilder::<u8>::new()
        .node(nid("a"), 1)
        .node(nid("a"), 2)
        .build()
        .unwrap();
    assert_eq!(graph.node_ids().len(), 1);
    let (nodes, _, _) = graph.into_parts();
    assert_eq!(nodes[0].1, 2);
}

#[test]
fn default_builder_is_empty() {
    let graph = GraphBuilder::<u8>::default().build().unwrap();
    assert!(graph.node_ids().is_empty());
}

#[test]
fn wiring_collects_each_nodes_ports() {
    let graph = Graph::<u8>::builder()
        .node(nid("tag"), 0)
        .input(nid("tag"), pid("a"), b"topic_a".to_vec())
        .input(nid("tag"), pid("b"), b"topic_b".to_vec())
        .output(nid("tag"), PortId::default_port(), b"tagged".to_vec())
        .build()
        .unwrap();
    let w = wiring(&graph);
    assert_eq!(w.len(), 1);
    assert_eq!(w[0].node.as_str(), "tag");
    assert_eq!(w[0].inputs.len(), 2);
    assert_eq!(w[0].inputs[0].0.as_str(), "a");
    assert_eq!(w[0].inputs[1].1, b"topic_b".to_vec());
    assert_eq!(w[0].outputs[0].1, b"tagged".to_vec());
}

#[test]
fn ports_of_filters_by_node() {
    let edges = vec![
        Edge { node: nid("x"), port: pid("p"), topic: b"1".to_vec() },
        Edge { node: nid("y"), port: pid("q"), topic: b"2".to_vec() },
        Edge { node: nid("x"), port: pid("r"), topic: b"3".to_vec() },
    ];
    let ports = ports_of(&edges, &nid("x"));
    assert_eq!(ports.len(), 2);
    assert_eq!(ports[1].1, b"3".to_vec());
}

#[test]
fn outputs_route_by_port_last_edge_wins() {
    let outputs = vec![
        (pid("a"), b"first".to_vec()),
        (pid("b"), b"other".to_vec()),
        (pid("a"), b"second".to_vec()),
    ];
    assert_eq!(lookup_output(&outputs, &pid("a")), Some(&b"second".to_vec()));
    assert_eq!(lookup_output(&outputs, &pid("z")), None);
    let routes = route_outputs(
        &outputs,
        vec![(pid("b"), b"x".to_vec()), (pid("z"), b"y".to_vec())],
    );
    assert_eq!(routes.len(), 2);
    match &routes[0] {
        Route::Publish { topic, payload } => {
            assert_eq!(topic, &b"other".to_vec());
            assert_eq!(payload, &b"x".to_vec());
        }
        Route::Drop { .. } => panic!("expected a publish"),
    }
    match &routes[1] {
        Route::Drop { port } => assert_eq!(port.as_str(), "z"),
        Route::Publish { .. } => panic!("expected a drop"),
    }
}

#[test]
fn input_buffers_hand_out_in_arrival_order() {
    let mut buffers = InputBuffers::new(&vec![pid("a"), pid("b"), pid("a")]);
    assert_eq!(buffers.on_message(&pid("a"), b"1".to_vec()), Some(b"1".to_vec()));
    assert_eq!(buffers.on_message(&pid("b"), b"2".to_vec()), Some(b"2".to_vec()));
    assert_eq!(buffers.on_message(&pid("c"), b"3".to_vec()), None);
}

#[test]
fn fan_in_defaults_to_event_driven() {
    assert!(matches!(FanInMode::default(), FanInMode::EventDriven));
}

#[test]
fn ids_keep_their_text() {
    assert_eq!(nid("n1").as_str(), "n1");
    assert_eq!(NodeId::from("n2".to_string()).as_str(), "n2");
    assert_eq!(PortId::from("p".to_string()).as_str(), "p");
    assert_eq!(PortId::default_port().as_str(), "default");
    assert!(nid("x").same_as(&nid("x")));
    assert!(!pid("x").same_as(&pid("y")));
}

fn yaml_node(id: &str) -> YamlNode {
    YamlNode {
        id: id.to_string(),
        node_type: "TestNode".to_string(),
        config: serde_yaml::Value::Null,
    }
}

fn yaml_edge(from: &str, to: &str) -> YamlEdge {
    YamlEdge {
        from_node: from.to_string(),
        from_port: "out".to_string(),
        to_node: to.to_string(),
        to_port: "in".to_string(),
        topic: "test".to_string(),
    }
}

#[test]
fn yaml_graph_with_known_nodes_validates() {
    let graph = YamlGraph {
        nodes: vec![yaml_node("uppercase"), yaml_node("exclaim")],
        edges: vec![yaml_edge("uppercase", "exclaim")],
    };
    assert!(graph.validate().is_ok());
}

#[test]
fn yaml_graph_unknown_to_node_is_refused() {
    let graph = YamlGraph {
        nodes: vec![yaml_node("node1")],
        edges: vec![yaml_edge("node1", "nonexistent")],
    };
    match graph.validate() {
        Err(YamlGraphError::UnknownToNode(n)) => assert_eq!(n, "nonexistent"),
        _ => panic!("should fail validation for unknown node"),
    }
}

#[test]
fn yaml_graph_unknown_from_node_is_reported_first() {
    let graph = YamlGraph {
        nodes: vec![yaml_node("a")],
        edges: vec![yaml_edge("a", "a"), yaml_edge("x", "y")],
    };
    let err = graph.validate().unwrap_err();
    assert!(matches!(&err, YamlGraphError::UnknownFromNode(n) if n == "x"));
    assert_eq!(err.message(), "edge references unknown from_node: x");
    assert_eq!(
        YamlGraphError::UnknownToNode("y".to_string()).message(),
        "edge references unknown to_node: y"
    );
}

#[test]
fn ids_from_str() {
    assert_eq!(NodeId::from("upper").as_str(), "upper");
    assert_eq!(PortId::from("in").as_str(), "in");
}
