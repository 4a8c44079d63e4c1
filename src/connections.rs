//! The table of open connections, keyed by the peer's address and port.
use vstd::prelude::*;

use std::collections::HashMap;

use crate::ip::Ip;
use crate::state::{initial_state, State, TcpState};
use crate::tcp::Tcp;
use crate::wire::{be16, be32};

verus! {

broadcast use vstd::std_specs::hash::group_hash_axioms;

/// A connection's key: the peer's address and port. The local port is the
/// one port the stack listens on.
#[derive(Debug, Hash, PartialEq, Eq, Clone, Copy, Structural)]
pub struct Quad(pub u32, pub u16);

/// The table key of a quad: address and port packed into one integer.
pub open spec fn quad_key(q: Quad) -> u64 {
    (q.0 as int * 0x1_0000 + q.1 as int) as u64
}

/// The quad of the peer that sent a segment.
pub open spec fn quad_of(ip: Seq<u8>, seg: Seq<u8>) -> Quad {
    Quad(be32(ip[12], ip[13], ip[14], ip[15]), be16(seg[0], seg[1]))
}

/// What a lookup of `q` finds: the stored state, or a new connection.
pub open spec fn lookup(t: Map<u64, TcpState>, q: Quad) -> TcpState {
    if t.contains_key(quad_key(q)) {
        t[quad_key(q)]
    } else {
        initial_state()
    }
}

impl<'a> Tcp<Ip<'a>> {
    /// The quad of the peer that sent this segment.
    pub fn quad(&self) -> (r: Quad)
        ensures
            r == quad_of(self.parent().bytes(), self.segment()),
    {
        Quad(self.inner().source(), self.source_port())
    }
}

/// The open connections.
pub struct TcpConnections {
    inner: HashMap<u64, TcpState>,
}

impl TcpConnections {
    pub closed spec fn table(&self) -> Map<u64, TcpState> {
        self.inner@
    }

    pub fn new() -> (r: TcpConnections)
        ensures
            r.table() == Map::<u64, TcpState>::empty(),
    {
        TcpConnections { inner: HashMap::new() }
    }

    fn key(quad: Quad) -> (r: u64)
        ensures
            r == quad_key(quad),
    {
        quad.0 as u64 * 0x1_0000 + quad.1 as u64
    }

    /// The state of the connection that `msg` belongs to, which is stored as
    /// a new connection where there was none.
    pub fn get(&mut self, msg: &Tcp<Ip<'_>>) -> (r: (TcpState, Quad))
        ensures
            r.1 == quad_of(msg.parent().bytes(), msg.segment()),
            r.0 == lookup(old(self).table(), r.1),
            final(self).table() == old(self).table().insert(quad_key(r.1), r.0),
    {
        let quad = msg.quad();
        let key: u64 = Self::key(quad);
        let state = match self.inner.get(&key) {
            Some(s) => *s,
            None => TcpState::new(),
        };
        self.inner.insert(key, state);
        proof {
            if old(self).table().contains_key(key) {
                assert(old(self).table().insert(key, state) =~= old(self).table());
            }
        }
        (state, quad)
    }

    /// Stores the state of a connection.
    pub fn update(&mut self, quad: Quad, state: TcpState)
        ensures
            final(self).table() == old(self).table().insert(quad_key(quad), state),
    {
        let key: u64 = Self::key(quad);
        self.inner.insert(key, state);
    }

    /// The stored state of a connection, if any.
    pub fn lookup(&self, quad: Quad) -> (r: Option<TcpState>)
        ensures
            r == (if self.table().contains_key(quad_key(quad)) {
                Some(self.table()[quad_key(quad)])
            } else {
                None
            }),
    {
        let key: u64 = Self::key(quad);
        match self.inner.get(&key) {
            Some(s) => Some(*s),
            None => None,
        }
    }

    /// The number of stored connections.
    pub fn len(&self) -> (r: usize)
        ensures
            r == self.table().len(),
    {
        self.inner.len()
    }

    /// Forgets a connection.
    pub fn remove(&mut self, quad: Quad)
        ensures
            final(self).table() == old(self).table().remove(quad_key(quad)),
    {
        let key: u64 = Self::key(quad);
        self.inner.remove(&key);
    }
}

/// After a connection is removed from the table, a lookup of its quad finds
/// a new connection, in Listen.
pub proof fn lemma_removed_connection_listens(t: Map<u64, TcpState>, q: Quad)
    ensures
        lookup(t.remove(quad_key(q)), q) == initial_state(),
        lookup(t.remove(quad_key(q)), q).state == State::Listen,
{
}

} // verus!
