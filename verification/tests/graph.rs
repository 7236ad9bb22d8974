use datagraph::graph::connection::Connection;
use datagraph::graph::error::GraphError;
use datagraph::graph::graph::Graph;
use datagraph::graph::id_map::IdMap;
use datagraph::graph::node::{GraphNode, NodeMeta};
use datagraph::graph::node_id::{NodeId, NodeIdError};
use datagraph::graph::port::{PortKey, PortType};

fn id(s: &str) -> NodeId {
    NodeId::parse(s).unwrap()
}

fn meta(inputs: Vec<&'static str>, outputs: Vec<&'static str>, node_type: &str) -> NodeMeta {
    NodeMeta {
        input_names: inputs,
        output_names: outputs,
        node_type: node_type.to_string(),
    }
}

fn add_param(graph: &mut Graph<&'static str, u32>, id: NodeId, handle: u32) -> NodeId {
    let node = GraphNode::new(id, meta(vec![], vec!["output"], "Param"), "param");
    graph.add_param_with_id(id, node, handle);
    id
}

fn add_adder(graph: &mut Graph<&'static str, u32>, id: NodeId) -> NodeId {
    let node = GraphNode::new(id, meta(vec!["input1", "input2"], vec!["output"], "Add"), "add");
    graph.insert_node(id, node);
    id
}

#[test]
fn graph_adds_nodes() {
    let mut graph: Graph<&'static str, u32> = Graph::new(1);
    let constant_id = add_param(&mut graph, NodeId::new(), 0);
    let node = graph.node_by_id(&constant_id).unwrap();
    assert_eq!(node.node_meta().node_type, "Param");
    assert_eq!(graph.node_count(), 1);
    assert_eq!(graph.param_handle(&constant_id), Ok(&0));
}

#[test]
fn graph_connects_nodes() {
    let mut graph: Graph<&'static str, u32> = Graph::new(1);
    let constant_id = add_param(&mut graph, id("aaaaaaaa"), 0);
    let constant_id2 = add_param(&mut graph, id("bbbbbbbb"), 1);
    let adder_id = add_adder(&mut graph, id("cccccccc"));
    graph
        .connect(&constant_id, 0, &adder_id, 0)
        .expect("Failed to connect nodes");
    graph
        .connect(&constant_id2, 0, &adder_id, 1)
        .expect("Failed to connect nodes");
    assert_eq!(graph.connections().len(), 2);
    assert_eq!(
        graph.connections()[1],
        Connection { from_idx: 1, from_port: 0, to_idx: 2, to_port: 1 }
    );
}

#[test]
fn graph_connect_fails_when_invalid_port() {
    let mut graph: Graph<&'static str, u32> = Graph::new(1);
    let constant_id = add_param(&mut graph, id("aaaaaaaa"), 0);
    let adder_id = add_adder(&mut graph, id("cccccccc"));
    let result = graph.connect(&constant_id, 1, &adder_id, 0);
    assert!(result.is_err());
}

#[test]
fn remove_middle_node_preserves_other_connections() {
    let mut graph: Graph<&'static str, u32> = Graph::new(1);
    let a = add_param(&mut graph, id("aaaaaaaa"), 0);
    let b = add_param(&mut graph, id("bbbbbbbb"), 1);
    let c = add_adder(&mut graph, id("cccccccc"));
    graph.connect(&a, 0, &c, 0).unwrap();
    graph.remove_node(&b).expect("remove b");
    // c took b's place; the a -> c edge follows it.
    assert_eq!(graph.index_of(&c), Some(1));
    assert_eq!(
        graph.connections().clone(),
        vec![Connection { from_idx: 0, from_port: 0, to_idx: 1, to_port: 0 }]
    );
    assert_eq!(graph.node_at(1).node_id(), c);
}

#[test]
fn remove_node_drops_edges_touching_it() {
    let mut graph: Graph<&'static str, u32> = Graph::new(1);
    let a = add_param(&mut graph, id("aaaaaaaa"), 0);
    let b = add_adder(&mut graph, id("bbbbbbbb"));
    let c = add_adder(&mut graph, id("cccccccc"));
    graph.connect(&a, 0, &b, 0).unwrap();
    graph.connect(&a, 0, &c, 0).unwrap();
    graph.remove_node(&b).expect("remove b");
    let result = graph.connect(&a, 0, &c, 0);
    assert!(
        result.is_err(),
        "c[0] should still be occupied after removing b"
    );
    assert_eq!(graph.connections().len(), 1);
}

#[test]
fn each_refusal_names_its_reason() {
    let mut graph: Graph<&'static str, u32> = Graph::new(48000);
    let a = add_param(&mut graph, id("aaaaaaaa"), 7);
    let c = add_adder(&mut graph, id("cccccccc"));
    let missing = id("zzzzzzzz");
    assert_eq!(
        graph.connect(&missing, 0, &c, 0),
        Err(GraphError::NodeNotFound { node_id: missing })
    );
    assert_eq!(
        graph.connect(&a, 3, &c, 0),
        Err(GraphError::PortNotFound { node_id: a, port: 3, port_type: PortType::Output })
    );
    assert_eq!(
        graph.connect(&c, 0, &c, 1),
        Err(GraphError::ImpossibleConnection {
            from_node_id: c,
            from_port: 0,
            to_node_id: c,
            to_port: 1
        })
    );
    assert_eq!(
        graph.connect(&a, 0, &c, 2),
        Err(GraphError::PortNotFound { node_id: c, port: 2, port_type: PortType::Input })
    );
    graph.connect(&a, 0, &c, 0).unwrap();
    assert_eq!(
        graph.connect(&a, 0, &c, 0),
        Err(GraphError::PortAlreadyConnected { node_id: c, port: 0, port_type: PortType::Input })
    );
    assert_eq!(
        graph.param_handle(&c),
        Err(GraphError::NotAParameter { node_id: c })
    );
    assert_eq!(
        graph.remove_node(&missing),
        Err(GraphError::NodeNotFound { node_id: missing })
    );
    assert_eq!(graph.sample_rate(), 48000);
}

#[test]
fn disconnect_undoes_connect() {
    let mut graph: Graph<&'static str, u32> = Graph::new(1);
    let a = add_param(&mut graph, id("aaaaaaaa"), 0);
    let c = add_adder(&mut graph, id("cccccccc"));
    graph.connect(&a, 0, &c, 1).unwrap();
    assert!(graph.port_is_free(&c, 1).is_err());
    graph.disconnect(&a, 0, &c, 1).unwrap();
    assert!(graph.connections().is_empty());
    assert_eq!(graph.port_is_free(&c, 1), Ok(()));
    // Disconnecting what is not connected changes nothing.
    assert_eq!(graph.disconnect(&a, 0, &c, 1), Ok(()));
    assert_eq!(
        graph.disconnect(&a, 0, &c, 5),
        Err(GraphError::PortNotFound { node_id: c, port: 5, port_type: PortType::Input })
    );
}

#[test]
fn port_info_names_the_port() {
    let mut graph: Graph<&'static str, u32> = Graph::new(1);
    let c = add_adder(&mut graph, id("cccccccc"));
    let info = graph.port_info(&c, 1, PortType::Input).unwrap();
    assert_eq!(info.name(), "input2");
    assert_eq!(*info.key(), PortKey::new(c, 1, PortType::Input));
    assert!(graph.port_info(&c, 1, PortType::Output).is_none());
    assert!(graph.port_info(&id("zzzzzzzz"), 0, PortType::Input).is_none());
}

#[test]
fn payloads_can_be_changed_in_place() {
    let mut graph: Graph<&'static str, u32> = Graph::new(1);
    let c = add_adder(&mut graph, id("cccccccc"));
    *graph.inner_mut(0) = "changed";
    assert_eq!(*graph.node_at(0).inner(), "changed");
    assert_eq!(graph.node_at(0).node_id(), c);
}

#[test]
fn node_ids_parse_and_refuse() {
    let n = NodeId::parse("abcdefgh").unwrap();
    assert_eq!(n.chars(), ['a', 'b', 'c', 'd', 'e', 'f', 'g', 'h']);
    assert_eq!(NodeId::parse("abc"), Err(NodeIdError::WrongLength(3)));
    assert_eq!(NodeId::parse("abcdeéf"), Err(NodeIdError::NotEightChars));
    assert!(n.equals(&NodeId::from_chars(['a', 'b', 'c', 'd', 'e', 'f', 'g', 'h'])));
}

#[test]
fn fresh_node_ids_use_the_url_safe_alphabet() {
    for _ in 0..20 {
        let n = NodeId::new();
        for c in n.chars() {
            assert!(c.is_ascii_alphanumeric() || c == '_' || c == '-');
        }
    }
    assert_ne!(NodeId::new(), NodeId::new());
}

#[test]
fn port_keys_print_and_parse() {
    let k = PortKey::new(id("abcdefgh"), 12, PortType::Output);
    let text = k.to_key_string();
    assert_eq!(text, "abcdefgh[out:12]");
    assert_eq!(PortKey::parse(&text), Ok(k));
    let parsed: PortKey = " abcdefgh [ in : 3 ]".parse().unwrap();
    assert_eq!(parsed, PortKey::new(id("abcdefgh"), 3, PortType::Input));
    assert_eq!(
        PortKey::parse("abcdefgh[sideways:0]"),
        Err(GraphError::InvalidPortKey { key: "abcdefgh[sideways:0]".to_string() })
    );
    assert!(PortKey::parse("abcdefgh").is_err());
    assert!(PortKey::parse("abcdefgh[in:x]").is_err());
    assert!(PortKey::parse("abc[in:0]").is_err());
}

#[test]
fn error_messages_name_the_refusal() {
    let a = id("abcdefgh");
    let b = id("zzzzzzzz");
    let da = format!("{:?}", a);
    let db = format!("{:?}", b);
    assert_eq!(GraphError::NodeNotFound { node_id: a }.message(), format!("Node not found: {da}"));
    assert_eq!(
        GraphError::NotAParameter { node_id: a }.message(),
        format!("Node is not a parameter: {da}")
    );
    assert_eq!(
        GraphError::PortNotFound { node_id: a, port: 12, port_type: PortType::Input }.message(),
        format!("Port not found: node {da} has no input port 12")
    );
    assert_eq!(
        GraphError::PortAlreadyConnected { node_id: a, port: 0, port_type: PortType::Output }.message(),
        format!("Port already connected: node {da} output port 0 is already connected")
    );
    assert_eq!(
        GraphError::ImpossibleConnection { from_node_id: a, from_port: 3, to_node_id: b, to_port: 40 }.message(),
        format!("Impossible connection: cannot connect output port 3 of node {da} to input port 40 of node {db}")
    );
    assert_eq!(
        GraphError::InvalidPortKey { key: "x[".to_string() }.message(),
        "Invalid port key: x["
    );
    assert_eq!(GraphError::InvalidNodeId { id: "é".to_string() }.message(), "Invalid node id: é");
}

#[test]
fn id_map_keys_tell_identifiers_apart() {
    let mut m: IdMap<u8> = IdMap::new();
    let a = id("abcdefgh");
    let b = id("abcdefgi");
    assert_ne!(a.key(), b.key());
    m.insert(a, 1);
    m.insert(b, 2);
    assert_eq!(m.get(&a), Some(&1));
    assert_eq!(m.get(&b), Some(&2));
    m.insert(a, 3);
    assert_eq!(m.get(&a), Some(&3));
    m.remove(&a);
    assert!(!m.contains_key(&a));
    assert!(m.contains_key(&b));
    assert_eq!(id("aaaaaaaa").key(), 0x61 * (1 + (1 << 7) + (1 << 14) + (1 << 21) + (1 << 28) + (1 << 35) + (1 << 42) + (1 << 49)));
}

#[test]
fn node_id_text_errors_and_conversions() {
    assert_eq!(
        "abc".parse::<NodeId>(),
        Err("NodeId must be 8 characters long, got 3".to_string())
    );
    assert_eq!("abcdeéf".parse::<NodeId>(), Err("Failed to parse NodeId".to_string()));
    assert_eq!("abcdefgh".parse::<NodeId>(), Ok(id("abcdefgh")));
    assert_eq!(NodeId::try_from("abcdefgh".to_string()), Ok(id("abcdefgh")));
    assert_eq!(
        NodeId::try_from("abcdefghi".to_string()),
        Err("NodeId must be 8 characters long, got 9".to_string())
    );
    assert_eq!(NodeIdError::WrongLength(12).message(), "NodeId must be 8 characters long, got 12");
    let d = NodeId::default();
    assert!(d.chars().iter().all(|c| c.is_ascii_alphanumeric() || *c == '_' || *c == '-'));
}
