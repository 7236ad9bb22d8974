//! Connections from an output of one node to an input of another.
use vstd::prelude::*;
use super::port::PortIndex;

verus! {

/// A connection, by the positions of its two nodes in the graph's node list.
#[derive(Debug, Clone, Copy, PartialEq, Eq, Structural)]
pub struct Connection {
    pub from_idx: usize,
    pub from_port: PortIndex,
    pub to_idx: usize,
    pub to_port: PortIndex,
}

/// Whether two connections feed the same input port.
pub open spec fn same_target(a: Connection, b: Connection) -> bool {
    a.to_idx == b.to_idx && a.to_port == b.to_port
}

/// What becomes of a connection when the node at `removed` is taken out and
/// the node at `moved` takes its place: connections touching `removed` go,
/// and those touching `moved` follow it.
pub open spec fn remap(c: Connection, removed: usize, moved: usize) -> Option<Connection> {
    if c.from_idx == removed || c.to_idx == removed {
        None
    } else {
        Some(
            Connection {
                from_idx: if c.from_idx == moved {
                    removed
                } else {
                    c.from_idx
                },
                from_port: c.from_port,
                to_idx: if c.to_idx == moved {
                    removed
                } else {
                    c.to_idx
                },
                to_port: c.to_port,
            },
        )
    }
}

/// `remap` as a function value.
pub open spec fn remap_fn(removed: usize, moved: usize) -> spec_fn(Connection) -> Option<Connection> {
    |c: Connection| remap(c, removed, moved)
}

/// Whether a connection differs from `c`, as a function value.
pub open spec fn differs_from(c: Connection) -> spec_fn(Connection) -> bool {
    |x: Connection| x != c
}

/// The connections other than `c`.
pub open spec fn without(conns: Seq<Connection>, c: Connection) -> Seq<Connection> {
    conns.filter(differs_from(c))
}

/// Whether some connection feeds input `port` of the node at `idx`.
pub open spec fn input_taken(conns: Seq<Connection>, idx: usize, port: PortIndex) -> bool {
    exists|i: int| 0 <= i < conns.len() && #[trigger] conns[i].to_idx == idx && conns[i].to_port == port
}

impl Connection {
    /// The connection that `remap` gives.
    pub fn remapped(&self, removed: usize, moved: usize) -> (r: Option<Connection>)
        ensures
            r == remap(*self, removed, moved),
    {
        if self.from_idx == removed || self.to_idx == removed {
            None
        } else {
            Some(
                Connection {
                    from_idx: if self.from_idx == moved {
                        removed
                    } else {
                        self.from_idx
                    },
                    from_port: self.from_port,
                    to_idx: if self.to_idx == moved {
                        removed
                    } else {
                        self.to_idx
                    },
                    to_port: self.to_port,
                },
            )
        }
    }

    /// Whether two connections are equal.
    pub fn same_as(&self, other: &Connection) -> (r: bool)
        ensures
            r == (*self == *other),
    {
        self.from_idx == other.from_idx && self.from_port == other.from_port && self.to_idx
            == other.to_idx && self.to_port == other.to_port
    }
}

/// Law: disconnecting a connection just made undoes the connecting, when the
/// input it feeds was free before.
pub proof fn lemma_disconnect_undoes_connect(conns: Seq<Connection>, c: Connection)
    requires
        !input_taken(conns, c.to_idx, c.to_port),
    ensures
        without(conns.push(c), c) == conns,
    decreases conns.len(),
{
    reveal(Seq::filter);
    assert(conns.push(c).drop_last() =~= conns);
    lemma_without_absent(conns, c);
}

/// Filtering out a connection that does not occur leaves the sequence as it
/// was.
pub proof fn lemma_without_absent(conns: Seq<Connection>, c: Connection)
    requires
        forall|i: int| 0 <= i < conns.len() ==> conns[i] != c,
    ensures
        without(conns, c) == conns,
    decreases conns.len(),
{
    reveal(Seq::filter);
    if conns.len() > 0 {
        lemma_without_absent(conns.drop_last(), c);
        assert(conns.drop_last().push(conns.last()) =~= conns);
    }
}

} // verus!
