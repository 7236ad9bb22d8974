//! The structure of the audio graph: its nodes, the index from identifiers
//! to node positions, the parameter handles, and the connections.
//!
//! Each node carries a value of type `N` (what processes its samples) and
//! each parameter node a handle of type `H`; the graph only stores them.
use vstd::prelude::*;
use vstd::seq_lib::group_seq_properties;
use super::connection::{
    Connection, remap, remap_fn, same_target, input_taken, without, differs_from,
    lemma_disconnect_undoes_connect,
};
use super::error::GraphError;
use super::id_map::IdMap;
use super::node::GraphNode;
use super::cache::NodeState;
use super::node_id::NodeId;
use super::port::{PortIndex, PortInfo, PortKey, PortType};

verus! {

/// The graph.
pub struct Graph<N, H> {
    nodes: Vec<GraphNode<N>>,
    node_index: IdMap<usize>,
    param_handles: IdMap<H>,
    connections: Vec<Connection>,
    sample_rate: u32,
}

/// A connection is valid in `nodes`: both ends exist, differ, and have the
/// ports it names.
pub open spec fn conn_valid<N>(nodes: Seq<GraphNode<N>>, c: Connection) -> bool {
    &&& c.from_idx < nodes.len()
    &&& c.to_idx < nodes.len()
    &&& c.from_idx != c.to_idx
    &&& c.from_port < nodes[c.from_idx as int].meta().outputs()
    &&& c.to_port < nodes[c.to_idx as int].meta().inputs()
}

/// No two connections feed the same input.
pub open spec fn targets_distinct(conns: Seq<Connection>) -> bool {
    forall|i: int, j: int|
        0 <= i < j < conns.len() ==> !same_target(#[trigger] conns[i], #[trigger] conns[j])
}

impl<N, H> Graph<N, H> {
    pub closed spec fn nodes(&self) -> Seq<GraphNode<N>> {
        self.nodes@
    }

    /// The position of each indexed node, by identifier.
    pub closed spec fn index(&self) -> Map<NodeId, usize> {
        self.node_index.map()
    }

    /// The handles of the parameter nodes, by identifier.
    pub closed spec fn params(&self) -> Map<NodeId, H> {
        self.param_handles.map()
    }

    pub closed spec fn conns(&self) -> Seq<Connection> {
        self.connections@
    }

    pub closed spec fn rate(&self) -> u32 {
        self.sample_rate
    }

    pub closed spec fn maps_wf(&self) -> bool {
        self.node_index.wf() && self.param_handles.wf()
    }

    /// The graph's invariant: the index points at nodes with the given
    /// identifiers, every connection is valid, and every input is fed by at
    /// most one connection.
    pub open spec fn wf(&self) -> bool {
        &&& self.maps_wf()
        &&& forall|id: NodeId| #[trigger]
            self.index().contains_key(id) ==> self.index()[id] < self.nodes().len()
                && self.nodes()[self.index()[id] as int].id() == id
        &&& forall|i: int|
            0 <= i < self.conns().len() ==> conn_valid(self.nodes(), #[trigger] self.conns()[i])
        &&& targets_distinct(self.conns())
    }

    /// The node with identifier `id`, by way of the index.
    pub open spec fn node_of(&self, id: NodeId) -> GraphNode<N> {
        self.nodes()[self.index()[id] as int]
    }

    /// Whether node `id` exists and has the given port; why not otherwise.
    pub open spec fn port_check(&self, id: NodeId, port: PortIndex, port_type: PortType) -> Result<
        (),
        GraphError,
    > {
        if !self.index().contains_key(id) {
            Err(GraphError::NodeNotFound { node_id: id })
        } else if !self.node_of(id).meta().has_port(port_type, port as int) {
            Err(GraphError::PortNotFound { node_id: id, port, port_type })
        } else {
            Ok(())
        }
    }

    /// The outcome of connecting output `from_port` of `from` to input
    /// `to_port` of `to`.
    pub open spec fn connect_outcome(
        &self,
        from: NodeId,
        from_port: PortIndex,
        to: NodeId,
        to_port: PortIndex,
    ) -> Result<(), GraphError> {
        match self.port_check(from, from_port, PortType::Output) {
            Err(e) => Err(e),
            Ok(_) => {
                if from == to {
                    Err(
                        GraphError::ImpossibleConnection {
                            from_node_id: from,
                            from_port,
                            to_node_id: to,
                            to_port,
                        },
                    )
                } else {
                    match self.port_check(to, to_port, PortType::Input) {
                        Err(e) => Err(e),
                        Ok(_) => {
                            if input_taken(self.conns(), self.index()[to], to_port) {
                                Err(
                                    GraphError::PortAlreadyConnected {
                                        node_id: to,
                                        port: to_port,
                                        port_type: PortType::Input,
                                    },
                                )
                            } else {
                                Ok(())
                            }
                        },
                    }
                }
            },
        }
    }

    /// The outcome of disconnecting output `from_port` of `from` from input
    /// `to_port` of `to`.
    pub open spec fn disconnect_outcome(
        &self,
        from: NodeId,
        from_port: PortIndex,
        to: NodeId,
        to_port: PortIndex,
    ) -> Result<(), GraphError> {
        match self.port_check(from, from_port, PortType::Output) {
            Err(e) => Err(e),
            Ok(_) => self.port_check(to, to_port, PortType::Input),
        }
    }

    /// The connection between two indexed nodes.
    pub open spec fn connection_between(
        &self,
        from: NodeId,
        from_port: PortIndex,
        to: NodeId,
        to_port: PortIndex,
    ) -> Connection {
        Connection { from_idx: self.index()[from], from_port, to_idx: self.index()[to], to_port }
    }

    /// An empty graph for the given sample rate.
    pub fn new(sample_rate: u32) -> (r: Self)
        ensures
            r.wf(),
            r.nodes().len() == 0,
            r.index() == Map::<NodeId, usize>::empty(),
            r.params() == Map::<NodeId, H>::empty(),
            r.conns().len() == 0,
            r.rate() == sample_rate,
    {
        Graph {
            nodes: Vec::new(),
            node_index: IdMap::new(),
            param_handles: IdMap::new(),
            connections: Vec::new(),
            sample_rate,
        }
    }

    /// The sample rate.
    pub fn sample_rate(&self) -> (r: u32)
        ensures
            r == self.rate(),
    {
        self.sample_rate
    }

    /// The number of nodes.
    pub fn node_count(&self) -> (r: usize)
        ensures
            r == self.nodes().len(),
    {
        self.nodes.len()
    }

    /// The node at position `idx`.
    pub fn node_at(&self, idx: usize) -> (r: &GraphNode<N>)
        requires
            idx < self.nodes().len(),
        ensures
            *r == self.nodes()[idx as int],
    {
        &self.nodes[idx]
    }

    /// The payload of the node at position `idx`, to change in place; all
    /// else stays as it is.
    pub fn inner_mut(&mut self, idx: usize) -> (r: &mut N)
        requires
            idx < old(self).nodes().len(),
        ensures
            *r == old(self).nodes()[idx as int].payload(),
            final(self).nodes().len() == old(self).nodes().len(),
            final(self).nodes()[idx as int].id() == old(self).nodes()[idx as int].id(),
            final(self).nodes()[idx as int].meta() == old(self).nodes()[idx as int].meta(),
            final(self).nodes()[idx as int].payload() == *final(r),
            forall|j: int| 0 <= j < old(self).nodes().len() && j != idx ==> final(self).nodes()[j] == old(self).nodes()[j],
            final(self).index() == old(self).index(),
            final(self).params() == old(self).params(),
            final(self).conns() == old(self).conns(),
            final(self).rate() == old(self).rate(),
    {
        self.nodes[idx].inner_mut()
    }

    /// The connections, in the order they were made.
    pub fn connections(&self) -> (r: &Vec<Connection>)
        ensures
            r@ == self.conns(),
    {
        &self.connections
    }

    /// The position of node `id`, if it is indexed.
    pub fn index_of(&self, id: &NodeId) -> (r: Option<usize>)
        requires
            self.wf(),
        ensures
            r == (if self.index().contains_key(*id) {
                Some(self.index()[*id])
            } else {
                None
            }),
    {
        match self.node_index.get(id) {
            Some(i) => Some(*i),
            None => None,
        }
    }

    fn push_node(&mut self, id: NodeId, node: GraphNode<N>)
        requires
            old(self).wf(),
            node.id() == id,
        ensures
            final(self).wf(),
            final(self).nodes() == old(self).nodes().push(node),
            final(self).index() == old(self).index().insert(id, old(self).nodes().len() as usize),
            final(self).params() == old(self).params(),
            final(self).conns() == old(self).conns(),
            final(self).rate() == old(self).rate(),
    {
        let idx = self.nodes.len();
        self.nodes.push(node);
        self.node_index.insert(id, idx);
        proof {
            assert forall|i: int| 0 <= i < self.conns().len() implies conn_valid(
                self.nodes(),
                #[trigger] self.conns()[i],
            ) by {
                assert(conn_valid(old(self).nodes(), old(self).conns()[i]));
            }
            assert forall|k: NodeId| #[trigger]
                self.index().contains_key(k) implies self.index()[k] < self.nodes().len()
                && self.nodes()[self.index()[k] as int].id() == k by {
                if k != id {
                    assert(old(self).index().contains_key(k));
                }
            }
        }
    }

    /// Adds `node`, indexed under `id`; a node already indexed under `id`
    /// stays in the graph but is no longer indexed.
    pub fn insert_node(&mut self, id: NodeId, node: GraphNode<N>)
        requires
            old(self).wf(),
            node.id() == id,
        ensures
            final(self).wf(),
            final(self).nodes() == old(self).nodes().push(node),
            final(self).index() == old(self).index().insert(id, old(self).nodes().len() as usize),
            final(self).params() == old(self).params(),
            final(self).conns() == old(self).conns(),
            final(self).rate() == old(self).rate(),
    {
        self.push_node(id, node);
    }

    /// Adds a parameter node under `id` with its handle.
    pub fn add_param_with_id(&mut self, id: NodeId, node: GraphNode<N>, handle: H)
        requires
            old(self).wf(),
            node.id() == id,
        ensures
            final(self).wf(),
            final(self).nodes() == old(self).nodes().push(node),
            final(self).index() == old(self).index().insert(id, old(self).nodes().len() as usize),
            final(self).params() == old(self).params().insert(id, handle),
            final(self).conns() == old(self).conns(),
            final(self).rate() == old(self).rate(),
    {
        self.push_node(id, node);
        self.param_handles.insert(id, handle);
    }

    /// The node indexed under `id`.
    pub fn node_by_id(&self, node_id: &NodeId) -> (r: Result<&GraphNode<N>, GraphError>)
        requires
            self.wf(),
        ensures
            self.index().contains_key(*node_id) ==> (r matches Ok(n) && *n == self.node_of(*node_id)),
            !self.index().contains_key(*node_id) ==> r == Err::<&GraphNode<N>, GraphError>(
                GraphError::NodeNotFound { node_id: *node_id },
            ),
    {
        match self.node_index.get(node_id) {
            Some(i) => {
                proof {
                    assert(self.index().contains_key(*node_id));
                }
                Ok(&self.nodes[*i])
            },
            None => Err(GraphError::NodeNotFound { node_id: *node_id }),
        }
    }

    /// Whether node `id` is indexed; why not otherwise.
    pub fn node_exists(&self, node_id: &NodeId) -> (r: Result<(), GraphError>)
        requires
            self.wf(),
        ensures
            self.index().contains_key(*node_id) ==> r is Ok,
            !self.index().contains_key(*node_id) ==> r == Err::<(), GraphError>(
                GraphError::NodeNotFound { node_id: *node_id },
            ),
    {
        if self.node_index.contains_key(node_id) {
            Ok(())
        } else {
            Err(GraphError::NodeNotFound { node_id: *node_id })
        }
    }

    /// Whether node `id` exists and has the given port; why not otherwise.
    pub fn port_exists(&self, node_id: &NodeId, port: PortIndex, port_type: PortType) -> (r: Result<
        (),
        GraphError,
    >)
        requires
            self.wf(),
        ensures
            r == self.port_check(*node_id, port, port_type),
    {
        let node = self.node_by_id(node_id)?;
        match node.port_info(port_type, port) {
            Some(_) => Ok(()),
            None => Err(GraphError::PortNotFound { node_id: *node_id, port, port_type }),
        }
    }

    /// Whether input `port` of node `id` exists and is not yet fed by a
    /// connection; why not otherwise.
    pub fn port_is_free(&self, node_id: &NodeId, port: PortIndex) -> (r: Result<(), GraphError>)
        requires
            self.wf(),
        ensures
            self.port_check(*node_id, port, PortType::Input) is Err ==> r == self.port_check(
                *node_id,
                port,
                PortType::Input,
            ),
            self.port_check(*node_id, port, PortType::Input) is Ok ==> (if input_taken(
                self.conns(),
                self.index()[*node_id],
                port,
            ) {
                r == Err::<(), GraphError>(
                    GraphError::PortAlreadyConnected {
                        node_id: *node_id,
                        port,
                        port_type: PortType::Input,
                    },
                )
            } else {
                r is Ok
            }),
    {
        self.port_exists(node_id, port, PortType::Input)?;
        let to_idx = match self.node_index.get(node_id) {
            Some(i) => *i,
            None => {
                return Err(GraphError::NodeNotFound { node_id: *node_id });
            },
        };
        let mut i: usize = 0;
        while i < self.connections.len()
            invariant
                i <= self.conns().len(),
                to_idx == self.index()[*node_id],
                self.port_check(*node_id, port, PortType::Input) is Ok,
                forall|j: int|
                    0 <= j < i ==> !(#[trigger] self.conns()[j].to_idx == to_idx && self.conns()[j].to_port
                        == port),
            decreases self.conns().len() - i,
        {
            let c = &self.connections[i];
            if c.to_idx == to_idx && c.to_port == port {
                return Err(
                    GraphError::PortAlreadyConnected {
                        node_id: *node_id,
                        port,
                        port_type: PortType::Input,
                    },
                );
            }
            i = i + 1;
        }
        Ok(())
    }

    /// The port of node `id` of the given direction and index, with its name.
    pub fn port_info(&self, node_id: &NodeId, port: PortIndex, port_type: PortType) -> (r: Option<
        PortInfo,
    >)
        requires
            self.wf(),
        ensures
            self.port_check(*node_id, port, port_type) is Ok ==> (r matches Some(info)
                && info.portkey == (PortKey { node_id: *node_id, port_index: port, port_type })
                && info.name == self.node_of(*node_id).meta().port_name(port_type, port as int)),
            self.port_check(*node_id, port, port_type) is Err ==> r is None,
    {
        let idx = match self.node_index.get(node_id) {
            Some(i) => *i,
            None => {
                return None;
            },
        };
        self.nodes[idx].port_info(port_type, port)
    }

    /// The handle of parameter node `id`.
    pub fn param_handle(&self, node_id: &NodeId) -> (r: Result<&H, GraphError>)
        requires
            self.wf(),
        ensures
            !self.index().contains_key(*node_id) ==> r == Err::<&H, GraphError>(
                GraphError::NodeNotFound { node_id: *node_id },
            ),
            self.index().contains_key(*node_id) && self.params().contains_key(*node_id) ==> (r matches Ok(
                h,
            ) && *h == self.params()[*node_id]),
            self.index().contains_key(*node_id) && !self.params().contains_key(*node_id) ==> r
                == Err::<&H, GraphError>(GraphError::NotAParameter { node_id: *node_id }),
    {
        self.node_exists(node_id)?;
        match self.param_handles.get(node_id) {
            Some(h) => Ok(h),
            None => Err(GraphError::NotAParameter { node_id: *node_id }),
        }
    }

    /// Connects output `from_port` of `from` to input `to_port` of `to`.
    /// Refused when either port does not exist, when `from` and `to` are the
    /// same node, or when the input is already fed.
    pub fn connect(&mut self, from: &NodeId, from_port: PortIndex, to: &NodeId, to_port: PortIndex) -> (r:
        Result<(), GraphError>)
        requires
            old(self).wf(),
        ensures
            final(self).wf(),
            r == old(self).connect_outcome(*from, from_port, *to, to_port),
            r is Ok ==> final(self).conns() == old(self).conns().push(
                old(self).connection_between(*from, from_port, *to, to_port),
            ),
            r is Err ==> final(self).conns() == old(self).conns(),
            final(self).nodes() == old(self).nodes(),
            final(self).index() == old(self).index(),
            final(self).params() == old(self).params(),
            final(self).rate() == old(self).rate(),
    {
        self.port_exists(from, from_port, PortType::Output)?;
        if from.equals(to) {
            return Err(
                GraphError::ImpossibleConnection {
                    from_node_id: *from,
                    from_port,
                    to_node_id: *to,
                    to_port,
                },
            );
        }
        self.port_is_free(to, to_port)?;
        let from_idx = *self.node_index.get(from).unwrap();
        let to_idx = *self.node_index.get(to).unwrap();
        let c = Connection { from_idx, from_port, to_idx, to_port };
        self.connections.push(c);
        proof {
            let old_conns = old(self).conns();
            assert(self.conns() == old_conns.push(c));
            assert(conn_valid(self.nodes(), c));
            assert forall|i: int, j: int| 0 <= i < j < self.conns().len() implies !same_target(
                #[trigger] self.conns()[i],
                #[trigger] self.conns()[j],
            ) by {
                if j == old_conns.len() {
                    assert(self.conns()[i] == old_conns[i]);
                    if same_target(old_conns[i], c) {
                        assert(old_conns[i].to_idx == to_idx && old_conns[i].to_port == to_port);
                        assert(input_taken(old_conns, to_idx, to_port));
                    }
                } else {
                    assert(self.conns()[i] == old_conns[i]);
                    assert(self.conns()[j] == old_conns[j]);
                }
            }
            assert forall|i: int| 0 <= i < self.conns().len() implies conn_valid(
                self.nodes(),
                #[trigger] self.conns()[i],
            ) by {
                if i < old_conns.len() {
                    assert(self.conns()[i] == old_conns[i]);
                }
            }
        }
        Ok(())
    }

    /// Removes every connection from output `from_port` of `from` to input
    /// `to_port` of `to`. Refused when either port does not exist.
    pub fn disconnect(&mut self, from: &NodeId, from_port: PortIndex, to: &NodeId, to_port: PortIndex) -> (r:
        Result<(), GraphError>)
        requires
            old(self).wf(),
        ensures
            final(self).wf(),
            r == old(self).disconnect_outcome(*from, from_port, *to, to_port),
            r is Ok ==> final(self).conns() == without(
                old(self).conns(),
                old(self).connection_between(*from, from_port, *to, to_port),
            ),
            r is Err ==> final(self).conns() == old(self).conns(),
            final(self).nodes() == old(self).nodes(),
            final(self).index() == old(self).index(),
            final(self).params() == old(self).params(),
            final(self).rate() == old(self).rate(),
    {
        self.port_exists(from, from_port, PortType::Output)?;
        self.port_exists(to, to_port, PortType::Input)?;
        let from_idx = *self.node_index.get(from).unwrap();
        let to_idx = *self.node_index.get(to).unwrap();
        let target = Connection { from_idx, from_port, to_idx, to_port };
        let ghost pred = differs_from(target);
        let ghost old_conns = old(self).conns();
        let mut kept: Vec<Connection> = Vec::new();
        let mut i: usize = 0;
        while i < self.connections.len()
            invariant
                self.conns() == old_conns,
                self.nodes() == old(self).nodes(),
                old(self).wf(),
                old_conns == old(self).conns(),
                pred == differs_from(target),
                i <= old_conns.len(),
                kept@ == old_conns.take(i as int).filter(pred),
                forall|k: int| 0 <= k < kept@.len() ==> conn_valid(self.nodes(), #[trigger] kept@[k]),
                targets_distinct(kept@),
            decreases old_conns.len() - i,
        {
            let c = self.connections[i];
            proof {
                reveal(Seq::filter);
                assert(old_conns.take(i + 1).drop_last() =~= old_conns.take(i as int));
                assert(old_conns.take(i + 1).last() == c);
            }
            if !c.same_as(&target) {
                proof {
                    assert forall|k: int| 0 <= k < kept@.len() implies !same_target(
                        #[trigger] kept@[k],
                        c,
                    ) by {
                        let e = kept@[k];
                        assert(old_conns.take(i as int).filter(pred).contains(e));
                        old_conns.take(i as int).lemma_filter_contains_rev(pred, e);
                        let j = choose|j: int| 0 <= j < i && #[trigger] old_conns.take(i as int)[j] == e;
                        assert(old_conns[j] == e);
                        assert(!same_target(old_conns[j], old_conns[i as int]));
                    }
                    assert(conn_valid(self.nodes(), old_conns[i as int]));
                }
                kept.push(c);
            }
            i = i + 1;
        }
        proof {
            assert(old_conns.take(old_conns.len() as int) =~= old_conns);
        }
        self.connections = kept;
        Ok(())
    }

    /// Removes node `id` and every connection touching it. The last node of
    /// the list takes its position, and its connections follow it. Refused
    /// when no node is indexed under `id`.
    pub fn remove_node(&mut self, node: &NodeId) -> (r: Result<(), GraphError>)
        requires
            old(self).wf(),
        ensures
            final(self).wf(),
            !old(self).index().contains_key(*node) ==> r == Err::<(), GraphError>(
                GraphError::NodeNotFound { node_id: *node },
            ) && *final(self) == *old(self),
            old(self).index().contains_key(*node) ==> r is Ok && ({
                let idx = old(self).index()[*node];
                let last = (old(self).nodes().len() - 1) as usize;
                let moved_id = old(self).nodes()[last as int].id();
                &&& final(self).nodes() == old(self).nodes().update(
                    idx as int,
                    old(self).nodes()[last as int],
                ).drop_last()
                &&& final(self).index() == (if idx != last {
                    old(self).index().remove(*node).insert(moved_id, idx)
                } else {
                    old(self).index().remove(*node)
                })
                &&& final(self).conns() == old(self).conns().filter_map(remap_fn(idx, last))
                &&& final(self).params() == old(self).params().remove(*node)
                &&& final(self).rate() == old(self).rate()
            }),
    {
        let idx = match self.node_index.get(node) {
            Some(i) => *i,
            None => {
                return Err(GraphError::NodeNotFound { node_id: *node });
            },
        };
        proof {
            assert(self.index().contains_key(*node));
        }
        let last_idx = self.nodes.len() - 1;
        let ghost old_nodes = old(self).nodes();
        let ghost moved_id = old_nodes[last_idx as int].id();
        let _removed = self.nodes.swap_remove(idx);
        self.node_index.remove(node);
        if idx != last_idx {
            let moved = self.nodes[idx].node_id();
            self.node_index.insert(moved, idx);
        }
        proof {
            let new_nodes = self.nodes();
            assert(new_nodes == old_nodes.update(idx as int, old_nodes[last_idx as int]).drop_last());
            assert forall|id: NodeId| #[trigger]
                self.index().contains_key(id) implies self.index()[id] < new_nodes.len()
                && new_nodes[self.index()[id] as int].id() == id by {
                if idx != last_idx && id == moved_id {
                } else {
                    let j = old(self).index()[id];
                    assert(old(self).index().contains_key(id));
                    assert(old_nodes[j as int].id() == id);
                    assert(j != idx);
                    assert(j != last_idx);
                }
            }
        }
        let ghost old_conns = old(self).conns();
        let ghost f = remap_fn(idx, last_idx);
        let mut kept: Vec<Connection> = Vec::new();
        let mut i: usize = 0;
        while i < self.connections.len()
            invariant
                self.conns() == old_conns,
                self.nodes() == old_nodes.update(idx as int, old_nodes[last_idx as int]).drop_last(),
                old_nodes == old(self).nodes(),
                old_conns == old(self).conns(),
                old(self).wf(),
                idx < old_nodes.len(),
                last_idx == old_nodes.len() - 1,
                f == remap_fn(idx, last_idx),
                i <= old_conns.len(),
                kept@ == old_conns.take(i as int).filter_map(f),
                forall|k: int| 0 <= k < kept@.len() ==> conn_valid(self.nodes(), #[trigger] kept@[k]),
                targets_distinct(kept@),
            decreases old_conns.len() - i,
        {
            let c = self.connections[i];
            proof {
                assert(old_conns.take(i + 1).drop_last() =~= old_conns.take(i as int));
                assert(old_conns.take(i + 1).last() == c);
                assert(conn_valid(old_nodes, c));
            }
            match c.remapped(idx, last_idx) {
                Some(nc) => {
                    proof {
                        assert forall|k: int| 0 <= k < kept@.len() implies !same_target(
                            #[trigger] kept@[k],
                            nc,
                        ) by {
                            let e = kept@[k];
                            assert(old_conns.take(i as int).filter_map(f).contains(e));
                            old_conns.take(i as int).lemma_filter_map_contains(f, e);
                            let t = choose|t: Connection| #[trigger] old_conns.take(i as int).contains(t) && f(t) == Some(e);
                            let j = choose|j: int| 0 <= j < i && #[trigger] old_conns.take(i as int)[j] == t;
                            assert(old_conns[j] == t);
                            assert(!same_target(old_conns[j], old_conns[i as int]));
                        }
                    }
                    kept.push(nc);
                    proof {
                        assert(kept@ =~= old_conns.take(i + 1).filter_map(f));
                    }
                },
                None => {
                    proof {
                        assert(kept@ =~= old_conns.take(i + 1).filter_map(f));
                    }
                },
            }
            i = i + 1;
        }
        proof {
            assert(old_conns.take(old_conns.len() as int) =~= old_conns);
        }
        self.connections = kept;
        self.param_handles.remove(node);
        Ok(())
    }
}

/// The identifiers and ports that a connection joins, in `nodes`.
pub open spec fn endpoint_ids<N>(nodes: Seq<GraphNode<N>>, c: Connection) -> (
    NodeId,
    PortIndex,
    NodeId,
    PortIndex,
) {
    (nodes[c.from_idx as int].id(), c.from_port, nodes[c.to_idx as int].id(), c.to_port)
}

/// `endpoint_ids` in `nodes` as a function value.
pub open spec fn endpoint_ids_fn<N>(nodes: Seq<GraphNode<N>>) -> spec_fn(Connection) -> (
    NodeId,
    PortIndex,
    NodeId,
    PortIndex,
) {
    |c: Connection| endpoint_ids(nodes, c)
}

/// Whether a connection leaves or enters the node at `idx`, as a function
/// value.
pub open spec fn avoids(idx: usize) -> spec_fn(Connection) -> bool {
    |c: Connection| c.from_idx != idx && c.to_idx != idx
}

impl<N, H> Graph<N, H> {
    /// Law: disconnecting what was just connected is allowed, and gives back
    /// the connections there were before.
    pub proof fn lemma_disconnect_after_connect(
        &self,
        from: NodeId,
        from_port: PortIndex,
        to: NodeId,
        to_port: PortIndex,
    )
        requires
            self.wf(),
            self.connect_outcome(from, from_port, to, to_port) is Ok,
        ensures
            self.disconnect_outcome(from, from_port, to, to_port) is Ok,
            without(
                self.conns().push(self.connection_between(from, from_port, to, to_port)),
                self.connection_between(from, from_port, to, to_port),
            ) == self.conns(),
    {
        lemma_disconnect_undoes_connect(
            self.conns(),
            self.connection_between(from, from_port, to, to_port),
        );
    }

    /// Law: a connected input is refused a second connection until it is
    /// disconnected.
    pub proof fn lemma_connected_input_is_taken(
        &self,
        from: NodeId,
        from_port: PortIndex,
        to: NodeId,
        to_port: PortIndex,
    )
        requires
            self.wf(),
            self.connect_outcome(from, from_port, to, to_port) is Ok,
        ensures
            input_taken(
                self.conns().push(self.connection_between(from, from_port, to, to_port)),
                self.index()[to],
                to_port,
            ),
    {
        let c = self.connection_between(from, from_port, to, to_port);
        let s = self.conns().push(c);
        assert(s[self.conns().len() as int].to_idx == self.index()[to]);
        assert(s[self.conns().len() as int].to_port == to_port);
    }
}

/// Law: removing the node at `idx` keeps every connection that does not
/// touch it, between the same nodes and ports and in the same order, and
/// no other: the node at `last` moves into position `idx` and its
/// connections follow it.
pub proof fn lemma_remove_keeps_other_connections<N>(
    nodes: Seq<GraphNode<N>>,
    conns: Seq<Connection>,
    idx: usize,
    last: usize,
)
    requires
        idx < nodes.len(),
        last == nodes.len() - 1,
        forall|i: int|
            0 <= i < conns.len() ==> (#[trigger] conns[i]).from_idx < nodes.len()
                && conns[i].to_idx < nodes.len(),
    ensures
        conns.filter_map(remap_fn(idx, last)).map_values(
            endpoint_ids_fn(nodes.update(idx as int, nodes[last as int]).drop_last()),
        ) == conns.filter(avoids(idx)).map_values(endpoint_ids_fn(nodes)),
    decreases conns.len(),
{
    reveal(Seq::filter);
    let new_nodes = nodes.update(idx as int, nodes[last as int]).drop_last();
    if conns.len() > 0 {
        let init = conns.drop_last();
        let c = conns.last();
        assert forall|i: int| 0 <= i < init.len() implies (#[trigger] init[i]).from_idx < nodes.len()
            && init[i].to_idx < nodes.len() by {
            assert(init[i] == conns[i]);
        }
        lemma_remove_keeps_other_connections(nodes, init, idx, last);
        let f = remap_fn(idx, last);
        let g = endpoint_ids_fn(new_nodes);
        let h = endpoint_ids_fn(nodes);
        match remap(c, idx, last) {
            Some(nc) => {
                assert(conns.filter_map(f) == init.filter_map(f) + seq![nc]);
                assert((init.filter_map(f) + seq![nc]).map_values(g) =~= init.filter_map(f).map_values(
                    g,
                ).push(g(nc)));
                assert(conns.filter(avoids(idx)) == init.filter(avoids(idx)).push(c));
                assert(init.filter(avoids(idx)).push(c).map_values(h) =~= init.filter(
                    avoids(idx),
                ).map_values(h).push(h(c)));
                assert(g(nc) == h(c));
            },
            None => {
                assert(conns.filter_map(f) == init.filter_map(f));
                assert(conns.filter(avoids(idx)) == init.filter(avoids(idx)));
            },
        }
    } else {
        assert(conns.filter_map(remap_fn(idx, last)) =~= Seq::<Connection>::empty());
    }
}

/// Every node's cache has one value per port: an input value and a
/// default for each input, and a value for each output.
pub open spec fn caches_fit<T: Copy, P>(nodes: Seq<GraphNode<NodeState<T, P>>>) -> bool {
    forall|i: int|
        0 <= i < nodes.len() ==> {
            let n = #[trigger] nodes[i];
            &&& n.payload().cache.wf()
            &&& n.payload().cache.inputs().len() == n.meta().inputs()
            &&& n.payload().cache.outputs().len() == n.meta().outputs()
        }
}

/// Two nodes agree in all but their input values.
pub open spec fn same_but_inputs<T: Copy, P>(a: GraphNode<NodeState<T, P>>, b: GraphNode<NodeState<T, P>>) -> bool {
    &&& a.id() == b.id()
    &&& a.meta() == b.meta()
    &&& a.payload().processor == b.payload().processor
    &&& a.payload().cache.outputs() == b.payload().cache.outputs()
    &&& a.payload().cache.defaults() == b.payload().cache.defaults()
    &&& a.payload().cache.inputs().len() == b.payload().cache.inputs().len()
}

impl<T: Copy, P, H> Graph<NodeState<T, P>, H> {
    /// Whether every node's cache fits its ports.
    pub fn check_caches(&self) -> (r: bool)
        ensures
            r == caches_fit(self.nodes()),
    {
        let mut i: usize = 0;
        while i < self.nodes.len()
            invariant
                i <= self.nodes@.len(),
                forall|j: int|
                    0 <= j < i ==> {
                        let n = #[trigger] self.nodes@[j];
                        &&& n.payload().cache.wf()
                        &&& n.payload().cache.inputs().len() == n.meta().inputs()
                        &&& n.payload().cache.outputs().len() == n.meta().outputs()
                    },
            decreases self.nodes@.len() - i,
        {
            let node = &self.nodes[i];
            let cache = &node.inner().cache;
            let fits = cache.input_values().len() == cache.default_inputs().len()
                && cache.input_values().len() == node.input_count()
                && cache.output_count() == node.output_count();
            if !fits {
                return false;
            }
            i = i + 1;
        }
        true
    }

    /// The value on port `port`, if its node is indexed and has that port.
    pub fn port_value(&self, port: &PortKey) -> (r: Option<T>)
        requires
            self.wf(),
        ensures
            !self.index().contains_key(port.node_id) ==> r is None,
            self.index().contains_key(port.node_id) ==> {
                let cache = self.node_of(port.node_id).payload().cache;
                r == (match port.port_type {
                    PortType::Input => if port.port_index < cache.inputs().len() {
                        Some(cache.inputs()[port.port_index as int])
                    } else {
                        None
                    },
                    PortType::Output => if port.port_index < cache.outputs().len() {
                        Some(cache.outputs()[port.port_index as int])
                    } else {
                        None
                    },
                })
            },
    {
        match self.node_index.get(port.node_id()) {
            Some(idx) => {
                proof {
                    assert(self.index().contains_key(port.node_id));
                }
                self.nodes[*idx].inner().cache.port_value(port.port_type(), port.port_index())
            },
            None => None,
        }
    }

    /// The value on output `port.port_index` of the node of `port`, or
    /// `missing` when no node is indexed under its identifier. The node, if
    /// there is one, must have that output.
    pub fn output_or(&self, port: &PortKey, missing: T) -> (r: T)
        requires
            self.wf(),
            self.index().contains_key(port.node_id) ==> port.port_index < self.node_of(
                port.node_id,
            ).payload().cache.outputs().len(),
        ensures
            r == (if self.index().contains_key(port.node_id) {
                self.node_of(port.node_id).payload().cache.outputs()[port.port_index as int]
            } else {
                missing
            }),
    {
        match self.node_index.get(port.node_id()) {
            Some(idx) => {
                proof {
                    assert(self.index().contains_key(port.node_id));
                }
                self.nodes[*idx].inner().cache.output_value(port.port_index())
            },
            None => missing,
        }
    }

    /// Sets the default of input `port` of node `id` to `value`; refused,
    /// with nothing changed, when the node or the input does not exist.
    pub fn set_default_input_value(&mut self, node_id: &NodeId, port: PortIndex, value: T) -> (r: Result<
        (),
        GraphError,
    >)
        requires
            old(self).wf(),
        ensures
            r == old(self).port_check(*node_id, port, PortType::Input),
            r is Err ==> *final(self) == *old(self),
            r is Ok ==> ({
                let idx = old(self).index()[*node_id] as int;
                let before = old(self).nodes()[idx].payload().cache;
                let after = final(self).nodes()[idx].payload().cache;
                &&& final(self).index() == old(self).index()
                &&& final(self).params() == old(self).params()
                &&& final(self).conns() == old(self).conns()
                &&& final(self).rate() == old(self).rate()
                &&& final(self).nodes().len() == old(self).nodes().len()
                &&& forall|j: int| 0 <= j < old(self).nodes().len() && j != idx
                    ==> #[trigger] final(self).nodes()[j] == old(self).nodes()[j]
                &&& final(self).nodes()[idx].id() == old(self).nodes()[idx].id()
                &&& final(self).nodes()[idx].meta() == old(self).nodes()[idx].meta()
                &&& final(self).nodes()[idx].payload().processor == old(self).nodes()[idx].payload().processor
                &&& after.inputs() == before.inputs()
                &&& after.outputs() == before.outputs()
                &&& after.defaults() == (if port < before.defaults().len() {
                    before.defaults().update(port as int, value)
                } else {
                    before.defaults()
                })
            }),
            final(self).wf(),
    {
        self.port_exists(node_id, port, PortType::Input)?;
        let idx = match self.node_index.get(node_id) {
            Some(i) => *i,
            None => {
                return Err(GraphError::NodeNotFound { node_id: *node_id });
            },
        };
        proof {
            assert(self.index().contains_key(*node_id));
        }
        self.nodes[idx].inner_mut().cache.set_default_input(port, value);
        proof {
            assert forall|id: NodeId| #[trigger] self.index().contains_key(id) implies self.index()[id]
                < self.nodes().len() && self.nodes()[self.index()[id] as int].id() == id by {
                assert(old(self).index().contains_key(id));
            }
            assert forall|m: int| 0 <= m < self.conns().len() implies conn_valid(
                self.nodes(),
                #[trigger] self.conns()[m],
            ) by {
                assert(conn_valid(old(self).nodes(), old(self).conns()[m]));
            }
        }
        Ok(())
    }

    /// Moves values along the connections: every input is put back to its
    /// default, then each connection sets its input to the value on the
    /// output it comes from. An input that a connection feeds ends with that
    /// output's value; any other keeps its default. Nothing else changes.
    pub fn propagate(&mut self)
        requires
            old(self).wf(),
            caches_fit(old(self).nodes()),
        ensures
            final(self).wf(),
            caches_fit(final(self).nodes()),
            final(self).index() == old(self).index(),
            final(self).params() == old(self).params(),
            final(self).conns() == old(self).conns(),
            final(self).rate() == old(self).rate(),
            final(self).nodes().len() == old(self).nodes().len(),
            forall|i: int|
                0 <= i < old(self).nodes().len() ==> same_but_inputs(
                    #[trigger] final(self).nodes()[i],
                    old(self).nodes()[i],
                ),
            forall|k: int|
                0 <= k < old(self).conns().len() ==> {
                    let c = #[trigger] old(self).conns()[k];
                    final(self).nodes()[c.to_idx as int].payload().cache.inputs()[c.to_port as int]
                        == old(self).nodes()[c.from_idx as int].payload().cache.outputs()[c.from_port as int]
                },
            forall|j: int, p: int|
                0 <= j < old(self).nodes().len() && 0 <= p < old(self).nodes()[j].meta().inputs()
                    && !input_taken(old(self).conns(), j as usize, p as usize)
                    ==> #[trigger] final(self).nodes()[j].payload().cache.inputs()[p]
                    == old(self).nodes()[j].payload().cache.defaults()[p],
    {
        let n = self.nodes.len();
        let mut i: usize = 0;
        while i < n
            invariant
                n == old(self).nodes().len(),
                self.nodes@.len() == n,
                i <= n,
                self.node_index == old(self).node_index,
                self.param_handles == old(self).param_handles,
                self.connections == old(self).connections,
                self.sample_rate == old(self).sample_rate,
                caches_fit(old(self).nodes()),
                forall|j: int| 0 <= j < n ==> same_but_inputs(#[trigger] self.nodes@[j], old(self).nodes()[j]),
                forall|j: int| 0 <= j < i ==> (#[trigger] self.nodes@[j]).payload().cache.inputs()
                    == old(self).nodes()[j].payload().cache.defaults(),
            decreases n - i,
        {
            let ghost before = self.nodes@[i as int];
            assert(before.payload().cache.wf());
            self.nodes[i].inner_mut().cache.reset_inputs();
            i = i + 1;
        }
        assert(caches_fit(self.nodes@));
        let mut k: usize = 0;
        while k < self.connections.len()
            invariant
                n == old(self).nodes().len(),
                self.nodes@.len() == n,
                k <= self.connections@.len(),
                self.node_index == old(self).node_index,
                self.param_handles == old(self).param_handles,
                self.connections == old(self).connections,
                self.sample_rate == old(self).sample_rate,
                old(self).wf(),
                caches_fit(old(self).nodes()),
                caches_fit(self.nodes@),
                forall|j: int| 0 <= j < n ==> same_but_inputs(#[trigger] self.nodes@[j], old(self).nodes()[j]),
                forall|m: int|
                    0 <= m < k ==> {
                        let c = #[trigger] self.connections@[m];
                        self.nodes@[c.to_idx as int].payload().cache.inputs()[c.to_port as int]
                            == old(self).nodes()[c.from_idx as int].payload().cache.outputs()[c.from_port as int]
                    },
                forall|j: int, p: int|
                    0 <= j < n && 0 <= p < old(self).nodes()[j].meta().inputs()
                        && !input_taken(self.connections@.take(k as int), j as usize, p as usize)
                        ==> #[trigger] self.nodes@[j].payload().cache.inputs()[p]
                        == old(self).nodes()[j].payload().cache.defaults()[p],
            decreases self.connections@.len() - k,
        {
            let c = self.connections[k];
            proof {
                assert(conn_valid(old(self).nodes(), old(self).conns()[k as int]));
                assert(same_but_inputs(self.nodes@[c.from_idx as int], old(self).nodes()[c.from_idx as int]));
                assert(same_but_inputs(self.nodes@[c.to_idx as int], old(self).nodes()[c.to_idx as int]));
            }
            let v = self.nodes[c.from_idx].inner().cache.output_value(c.from_port);
            let ghost mid = self.nodes@;
            self.nodes[c.to_idx].inner_mut().cache.set_input(c.to_port, v);
            proof {
                let conns = self.connections@;
                assert forall|j: int| 0 <= j < n implies same_but_inputs(
                    #[trigger] self.nodes@[j],
                    old(self).nodes()[j],
                ) by {
                    assert(same_but_inputs(mid[j], old(self).nodes()[j]));
                }
                assert forall|m: int| 0 <= m < k + 1 implies {
                    let d = #[trigger] conns[m];
                    self.nodes@[d.to_idx as int].payload().cache.inputs()[d.to_port as int]
                        == old(self).nodes()[d.from_idx as int].payload().cache.outputs()[d.from_port as int]
                } by {
                    if m < k {
                        assert(!same_target(conns[m], conns[k as int]));
                        assert(conn_valid(old(self).nodes(), old(self).conns()[m]));
                    }
                }
                assert forall|j: int, p: int|
                    0 <= j < n && 0 <= p < old(self).nodes()[j].meta().inputs()
                        && !input_taken(conns.take(k + 1), j as usize, p as usize) implies #[trigger] self.nodes@[j].payload().cache.inputs()[p]
                        == old(self).nodes()[j].payload().cache.defaults()[p] by {
                    assert(conns.take(k + 1)[k as int] == conns[k as int]);
                    if input_taken(conns.take(k as int), j as usize, p as usize) {
                        let w = choose|w: int| 0 <= w < k && #[trigger] conns.take(k as int)[w].to_idx == j as usize
                            && conns.take(k as int)[w].to_port == p as usize;
                        assert(conns.take(k + 1)[w] == conns.take(k as int)[w]);
                    }
                }
                assert(caches_fit(self.nodes@)) by {
                    assert forall|j: int| 0 <= j < n implies {
                        let x = #[trigger] self.nodes@[j];
                        &&& x.payload().cache.wf()
                        &&& x.payload().cache.inputs().len() == x.meta().inputs()
                        &&& x.payload().cache.outputs().len() == x.meta().outputs()
                    } by {
                        assert(same_but_inputs(self.nodes@[j], old(self).nodes()[j]));
                        assert(old(self).nodes()[j].payload().cache.wf());
                    }
                }
            }
            k = k + 1;
        }
        proof {
            assert(self.connections@.take(self.connections@.len() as int) =~= self.connections@);
            assert forall|id: NodeId| #[trigger] self.index().contains_key(id) implies self.index()[id]
                < self.nodes().len() && self.nodes()[self.index()[id] as int].id() == id by {
                assert(same_but_inputs(self.nodes@[old(self).index()[id] as int], old(self).nodes()[old(self).index()[id] as int]));
            }
            assert forall|m: int| 0 <= m < self.conns().len() implies conn_valid(
                self.nodes(),
                #[trigger] self.conns()[m],
            ) by {
                let c = self.conns()[m];
                assert(conn_valid(old(self).nodes(), old(self).conns()[m]));
                assert(same_but_inputs(self.nodes@[c.from_idx as int], old(self).nodes()[c.from_idx as int]));
                assert(same_but_inputs(self.nodes@[c.to_idx as int], old(self).nodes()[c.to_idx as int]));
            }
        }
    }
}

} // verus!
