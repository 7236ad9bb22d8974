use datagraph::graph::cache::{NodeState, PortCache};
use datagraph::graph::graph::Graph;
use datagraph::graph::node::{GraphNode, NodeMeta};
use datagraph::graph::node_id::NodeId;
use datagraph::graph::port::{PortKey, PortType};

type State = NodeState<u32, &'static str>;

fn node(id: &str, inputs: Vec<&'static str>, defaults: Vec<u32>, outputs: Vec<u32>) -> (NodeId, GraphNode<State>) {
    let id = NodeId::parse(id).unwrap();
    let meta = NodeMeta {
        input_names: inputs,
        output_names: outputs.iter().map(|_| "out").collect(),
        node_type: "test".to_string(),
    };
    let state = NodeState { cache: PortCache::new(defaults, outputs), processor: "p" };
    (id, GraphNode::new(id, meta, state))
}

#[test]
fn values_flow_along_connections_and_defaults_fill_the_rest() {
    let mut g: Graph<State, ()> = Graph::new(1);
    let (a, na) = node("aaaaaaaa", vec![], vec![], vec![5]);
    let (b, nb) = node("bbbbbbbb", vec!["x", "y"], vec![1, 2], vec![0]);
    let (c, nc) = node("cccccccc", vec!["z"], vec![3], vec![8, 9]);
    g.insert_node(a, na);
    g.insert_node(b, nb);
    g.insert_node(c, nc);
    g.connect(&a, 0, &b, 1).unwrap();
    g.connect(&c, 1, &b, 0).unwrap();
    assert!(g.check_caches());
    g.propagate();
    assert_eq!(g.node_at(1).inner().cache.input_values(), &[9, 5]);
    assert_eq!(g.node_at(2).inner().cache.input_values(), &[3]);
    assert_eq!(g.port_value(&PortKey::new(b, 1, PortType::Input)), Some(5));
    assert_eq!(g.port_value(&PortKey::new(c, 1, PortType::Output)), Some(9));
    assert_eq!(g.port_value(&PortKey::new(c, 2, PortType::Output)), None);
    assert_eq!(g.output_or(&PortKey::new(c, 1, PortType::Output), 0), 9);
    assert_eq!(g.output_or(&PortKey::new(NodeId::parse("zzzzzzzz").unwrap(), 0, PortType::Output), 0), 0);
    assert_eq!(g.port_value(&PortKey::new(NodeId::parse("zzzzzzzz").unwrap(), 0, PortType::Output)), None);

    // Inputs set by hand are reset on the next propagation.
    g.inner_mut(2).cache.set_input(0, 77);
    assert_eq!(g.node_at(2).inner().cache.input_value(0), 77);
    g.propagate();
    assert_eq!(g.node_at(2).inner().cache.input_value(0), 3);

    // A new default takes effect when nothing feeds the input.
    g.disconnect(&c, 1, &b, 0).unwrap();
    assert_eq!(g.set_default_input_value(&b, 0, 40), Ok(()));
    assert!(g.set_default_input_value(&b, 2, 40).is_err());
    assert!(g.set_default_input_value(&NodeId::parse("zzzzzzzz").unwrap(), 0, 40).is_err());
    g.propagate();
    assert_eq!(g.node_at(1).inner().cache.input_values(), &[40, 5]);
}

#[test]
fn caches_that_do_not_fit_are_found() {
    let mut g: Graph<State, ()> = Graph::new(1);
    let (a, na) = node("aaaaaaaa", vec!["x"], vec![], vec![5]);
    g.insert_node(a, na);
    assert!(!g.check_caches());
}

#[test]
fn port_cache_reads_and_writes() {
    let mut cache = PortCache::new(vec![1u8, 2], vec![7]);
    assert_eq!(cache.input_count(), 2);
    assert_eq!(cache.port_value(PortType::Input, 1), Some(2));
    assert_eq!(cache.port_value(PortType::Input, 2), None);
    assert_eq!(cache.port_value(PortType::Output, 0), Some(7));
    assert_eq!(cache.port_value(PortType::Output, 1), None);
    cache.set_input(1, 9);
    cache.set_input(5, 9);
    assert_eq!(cache.input_values(), &[1, 9]);
    cache.set_default_input(0, 4);
    cache.set_default_input(3, 4);
    assert_eq!(cache.default_inputs(), &[4, 2]);
    cache.reset_inputs();
    assert_eq!(cache.input_values(), &[4, 2]);
    {
        let (inputs, outputs) = cache.inputs_and_outputs();
        outputs[0] = inputs[0] + inputs[1];
    }
    assert_eq!(cache.output_value(0), 6);
    assert_eq!(cache.output_count(), 1);
}

#[test]
fn parameter_values_reach_the_adder_inputs() {
    let mut g: Graph<State, ()> = Graph::new(1);
    let (p1, n1) = node("aaaaaaaa", vec![], vec![], vec![50]);
    let (p2, n2) = node("bbbbbbbb", vec![], vec![], vec![50]);
    let (add, na) = node("cccccccc", vec!["input1", "input2"], vec![0, 0], vec![0]);
    g.insert_node(p1, n1);
    g.insert_node(p2, n2);
    g.insert_node(add, na);
    g.connect(&p1, 0, &add, 0).expect("Failed to connect nodes");
    g.connect(&p2, 0, &add, 1).expect("Failed to connect nodes");
    g.propagate();
    assert_eq!(g.port_value(&PortKey::new(add, 0, PortType::Input)), Some(50));
    assert_eq!(g.port_value(&PortKey::new(add, 1, PortType::Input)), Some(50));
}

#[test]
fn routing_survives_removing_a_middle_node() {
    let mut g: Graph<State, ()> = Graph::new(1);
    let (a, na) = node("aaaaaaaa", vec![], vec![], vec![25]);
    let (b, nb) = node("bbbbbbbb", vec![], vec![], vec![50]);
    let (c, nc) = node("cccccccc", vec!["input1", "input2"], vec![0, 0], vec![0]);
    g.insert_node(a, na);
    g.insert_node(b, nb);
    g.insert_node(c, nc);
    g.connect(&a, 0, &c, 0).unwrap();
    g.remove_node(&b).expect("remove b");
    g.propagate();
    assert_eq!(g.port_value(&PortKey::new(c, 0, PortType::Input)), Some(25));
    assert_eq!(g.port_value(&PortKey::new(c, 1, PortType::Input)), Some(0));
}
