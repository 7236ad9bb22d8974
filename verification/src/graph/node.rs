//! A node of the graph as the graph's structure sees it: its identifier,
//! the names of its ports, its type, and whatever the node carries besides.
use vstd::prelude::*;
use super::node_id::NodeId;
use super::port::{PortInfo, PortKey, PortType};

verus! {

/// The names of a node's ports and the name of its type.
#[derive(Clone, Debug)]
pub struct NodeMeta {
    pub input_names: Vec<&'static str>,
    pub output_names: Vec<&'static str>,
    pub node_type: String,
}

impl NodeMeta {
    pub open spec fn inputs(&self) -> nat {
        self.input_names@.len()
    }

    pub open spec fn outputs(&self) -> nat {
        self.output_names@.len()
    }

    pub open spec fn has_port(&self, port_type: PortType, port: int) -> bool {
        match port_type {
            PortType::Input => 0 <= port < self.inputs(),
            PortType::Output => 0 <= port < self.outputs(),
        }
    }

    pub open spec fn port_name(&self, port_type: PortType, port: int) -> &'static str {
        match port_type {
            PortType::Input => self.input_names@[port],
            PortType::Output => self.output_names@[port],
        }
    }
}

/// A node with identifier `node_id`, described by `meta`, carrying `inner`.
pub struct GraphNode<N> {
    node_id: NodeId,
    meta: NodeMeta,
    inner: N,
}

impl<N> GraphNode<N> {
    pub closed spec fn id(&self) -> NodeId {
        self.node_id
    }

    pub closed spec fn meta(&self) -> NodeMeta {
        self.meta
    }

    pub closed spec fn payload(&self) -> N {
        self.inner
    }

    pub fn new(node_id: NodeId, meta: NodeMeta, inner: N) -> (r: Self)
        ensures
            r.id() == node_id,
            r.meta() == meta,
            r.payload() == inner,
    {
        GraphNode { node_id, meta, inner }
    }

    pub fn node_id(&self) -> (r: NodeId)
        ensures
            r == self.id(),
    {
        self.node_id
    }

    pub fn node_meta(&self) -> (r: &NodeMeta)
        ensures
            *r == self.meta(),
    {
        &self.meta
    }

    pub fn inner(&self) -> (r: &N)
        ensures
            *r == self.payload(),
    {
        &self.inner
    }

    /// The payload, to change in place.
    pub fn inner_mut(&mut self) -> (r: &mut N)
        ensures
            *r == old(self).payload(),
            final(self).id() == old(self).id(),
            final(self).meta() == old(self).meta(),
            final(self).payload() == *final(r),
    {
        &mut self.inner
    }

    /// The number of inputs.
    pub fn input_count(&self) -> (r: usize)
        ensures
            r == self.meta().inputs(),
    {
        self.meta.input_names.len()
    }

    /// The number of outputs.
    pub fn output_count(&self) -> (r: usize)
        ensures
            r == self.meta().outputs(),
    {
        self.meta.output_names.len()
    }

    /// The port of the given direction and index with its name, if the node
    /// has it.
    pub fn port_info(&self, port_type: PortType, port: usize) -> (r: Option<PortInfo>)
        ensures
            self.meta().has_port(port_type, port as int) ==> (r matches Some(info) && info.portkey
                == (PortKey { node_id: self.id(), port_index: port, port_type }) && info.name
                == self.meta().port_name(port_type, port as int)),
            !self.meta().has_port(port_type, port as int) ==> r is None,
    {
        match port_type {
            PortType::Input => {
                if port < self.meta.input_names.len() {
                    Some(PortInfo::new(self.node_id, port, PortType::Input, self.meta.input_names[port]))
                } else {
                    None
                }
            },
            PortType::Output => {
                if port < self.meta.output_names.len() {
                    Some(PortInfo::new(self.node_id, port, PortType::Output, self.meta.output_names[port]))
                } else {
                    None
                }
            },
        }
    }
}

} // verus!
