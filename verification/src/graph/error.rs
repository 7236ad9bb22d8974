//! Why a graph operation was refused, and the message that says so.
use vstd::prelude::*;
use super::node_id::NodeId;
use super::port::{PortType, string_from_chars};
use crate::text::{decimal, decimal_chars, push_str, push_chars};

verus! {

#[derive(Debug, Clone, PartialEq, Eq)]
pub enum GraphError {
    NodeNotFound { node_id: NodeId },
    NotAParameter { node_id: NodeId },
    PortNotFound { node_id: NodeId, port: usize, port_type: PortType },
    PortAlreadyConnected { node_id: NodeId, port: usize, port_type: PortType },
    ImpossibleConnection { from_node_id: NodeId, from_port: usize, to_node_id: NodeId, to_port: usize },
    InvalidPortKey { key: String },
    InvalidNodeId { id: String },
}

/// The text that `{:?}` gives for the node identifier with characters
/// `id`.
pub uninterp spec fn node_id_debug_text(id: Seq<char>) -> Seq<char>;

/// A node identifier as `{:?}` formats it.
///
/// Calls `format!("{:?}", id)`, which runs the `Debug` impl that `derive`
/// wrote for `NodeId`; that text depends on the identifier's characters
/// alone, and is named here without being spelled out.
#[verifier::external_body]
fn node_id_debug(id: &NodeId) -> (r: String)
    ensures
        r@ == node_id_debug_text(id@),
{
    format!("{:?}", id)
}

/// How a port direction reads in a message.
pub open spec fn direction_text(port_type: PortType) -> Seq<char> {
    match port_type {
        PortType::Input => "input"@,
        PortType::Output => "output"@,
    }
}

/// The message for an error.
pub open spec fn graph_error_text(e: GraphError) -> Seq<char> {
    match e {
        GraphError::NodeNotFound { node_id } => "Node not found: "@ + node_id_debug_text(node_id@),
        GraphError::NotAParameter { node_id } => "Node is not a parameter: "@ + node_id_debug_text(
            node_id@,
        ),
        GraphError::PortNotFound { node_id, port, port_type } => "Port not found: node "@
            + node_id_debug_text(node_id@) + " has no "@ + direction_text(port_type) + " port "@
            + decimal(port as nat),
        GraphError::PortAlreadyConnected { node_id, port, port_type } => "Port already connected: node "@
            + node_id_debug_text(node_id@) + " "@ + direction_text(port_type) + " port "@ + decimal(
            port as nat,
        ) + " is already connected"@,
        GraphError::ImpossibleConnection { from_node_id, from_port, to_node_id, to_port } =>
            "Impossible connection: cannot connect output port "@ + decimal(from_port as nat)
            + " of node "@ + node_id_debug_text(from_node_id@) + " to input port "@ + decimal(
            to_port as nat,
        ) + " of node "@ + node_id_debug_text(to_node_id@),
        GraphError::InvalidPortKey { key } => "Invalid port key: "@ + key@,
        GraphError::InvalidNodeId { id } => "Invalid node id: "@ + id@,
    }
}

/// Appends the `{:?}` text of `id`.
fn push_debug(v: &mut Vec<char>, id: &NodeId)
    ensures
        final(v)@ == old(v)@ + node_id_debug_text(id@),
{
    let text = node_id_debug(id);
    push_str(v, text.as_str());
}

/// Appends the decimal digits of `n`.
fn push_decimal(v: &mut Vec<char>, n: usize)
    ensures
        final(v)@ == old(v)@ + decimal(n as nat),
{
    let digits = decimal_chars(n);
    push_chars(v, &digits);
}

/// Appends the word for a port direction.
fn push_direction(v: &mut Vec<char>, port_type: PortType)
    ensures
        final(v)@ == old(v)@ + direction_text(port_type),
{
    match port_type {
        PortType::Input => push_str(v, "input"),
        PortType::Output => push_str(v, "output"),
    }
}

impl GraphError {
    /// The message that says why the operation was refused.
    pub fn message(&self) -> (r: String)
        ensures
            r@ == graph_error_text(*self),
    {
        let mut v: Vec<char> = Vec::new();
        match self {
            GraphError::NodeNotFound { node_id } => {
                push_str(&mut v, "Node not found: ");
                push_debug(&mut v, node_id);
            },
            GraphError::NotAParameter { node_id } => {
                push_str(&mut v, "Node is not a parameter: ");
                push_debug(&mut v, node_id);
            },
            GraphError::PortNotFound { node_id, port, port_type } => {
                push_str(&mut v, "Port not found: node ");
                push_debug(&mut v, node_id);
                push_str(&mut v, " has no ");
                push_direction(&mut v, *port_type);
                push_str(&mut v, " port ");
                push_decimal(&mut v, *port);
            },
            GraphError::PortAlreadyConnected { node_id, port, port_type } => {
                push_str(&mut v, "Port already connected: node ");
                push_debug(&mut v, node_id);
                push_str(&mut v, " ");
                push_direction(&mut v, *port_type);
                push_str(&mut v, " port ");
                push_decimal(&mut v, *port);
                push_str(&mut v, " is already connected");
            },
            GraphError::ImpossibleConnection { from_node_id, from_port, to_node_id, to_port } => {
                push_str(&mut v, "Impossible connection: cannot connect output port ");
                push_decimal(&mut v, *from_port);
                push_str(&mut v, " of node ");
                push_debug(&mut v, from_node_id);
                push_str(&mut v, " to input port ");
                push_decimal(&mut v, *to_port);
                push_str(&mut v, " of node ");
                push_debug(&mut v, to_node_id);
            },
            GraphError::InvalidPortKey { key } => {
                push_str(&mut v, "Invalid port key: ");
                push_str(&mut v, key.as_str());
            },
            GraphError::InvalidNodeId { id } => {
                push_str(&mut v, "Invalid node id: ");
                push_str(&mut v, id.as_str());
            },
        }
        proof {
            assert(v@ =~= graph_error_text(*self));
        }
        string_from_chars(&v)
    }
}

} // verus!
