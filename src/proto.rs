//! Shared building blocks of the protocol layer: the protocol number, the
//! owned packet buffer, the payload-view interface and the error kinds.
use vstd::prelude::*;

use crate::wire::{be16_bytes, be32_bytes};

verus! {

/// IP protocol number of a packet.
#[derive(Debug, Clone, Copy, PartialEq, Eq, Structural)]
pub enum Protocol {
    ICMP,
    GatewayToGateway,
    TCP,
    UDP,
    Unknown(u8),
}

/// The protocol that a wire byte names.
pub open spec fn protocol_of(value: u8) -> Protocol {
    if value == 1 {
        Protocol::ICMP
    } else if value == 3 {
        Protocol::GatewayToGateway
    } else if value == 6 {
        Protocol::TCP
    } else if value == 17 {
        Protocol::UDP
    } else {
        Protocol::Unknown(value)
    }
}

/// The wire byte of a protocol.
pub open spec fn byte_of(p: Protocol) -> u8 {
    match p {
        Protocol::ICMP => 1,
        Protocol::GatewayToGateway => 3,
        Protocol::TCP => 6,
        Protocol::UDP => 17,
        Protocol::Unknown(v) => v,
    }
}

impl Protocol {
    pub fn from_byte(value: u8) -> (r: Protocol)
        ensures
            r == protocol_of(value),
    {
        match value {
            1 => Protocol::ICMP,
            3 => Protocol::GatewayToGateway,
            6 => Protocol::TCP,
            17 => Protocol::UDP,
            other => Protocol::Unknown(other),
        }
    }

    pub fn to_byte(self) -> (r: u8)
        ensures
            r == byte_of(self),
    {
        match self {
            Protocol::ICMP => 1,
            Protocol::GatewayToGateway => 3,
            Protocol::TCP => 6,
            Protocol::UDP => 17,
            Protocol::Unknown(val) => val,
        }
    }
}

impl From<u8> for Protocol {
    fn from(value: u8) -> (r: Protocol) {
        Protocol::from_byte(value)
    }
}

impl vstd::std_specs::convert::FromSpecImpl<u8> for Protocol {
    open spec fn obeys_from_spec() -> bool {
        true
    }

    open spec fn from_spec(v: u8) -> Protocol {
        protocol_of(v)
    }
}

impl From<Protocol> for u8 {
    fn from(value: Protocol) -> (r: u8) {
        value.to_byte()
    }
}

impl vstd::std_specs::convert::FromSpecImpl<Protocol> for u8 {
    open spec fn obeys_from_spec() -> bool {
        true
    }

    open spec fn from_spec(v: Protocol) -> u8 {
        byte_of(v)
    }
}

/// Why an inbound packet was not accepted.
#[derive(Debug, Clone, Copy, PartialEq, Eq, Structural)]
pub enum StackError {
    /// Fewer bytes than the fixed part of the header.
    Truncated,
    /// The header length field points past the end of the bytes.
    HeaderLength,
    /// An HTTP request without a line end, or whose request line lacks fields.
    RequestLine,
    /// A TCP segment to a port that nothing listens on.
    WrongPort,
}

/// Anything that yields the payload that follows its own header.
pub trait ProtocolBuffer {
    spec fn payload(&self) -> Seq<u8>;

    fn buf(&self) -> (r: &[u8])
        ensures
            r@ == self.payload(),
    ;
}

/// An owned, growable byte buffer from which all outbound packets are built.
pub struct NetworkBuffer(Vec<u8>);

impl View for NetworkBuffer {
    type V = Seq<u8>;

    closed spec fn view(&self) -> Seq<u8> {
        self.0@
    }
}

impl NetworkBuffer {
    pub fn new(capacity: usize) -> (r: NetworkBuffer)
        ensures
            r@ == Seq::<u8>::empty(),
    {
        NetworkBuffer(Vec::with_capacity(capacity))
    }

    pub fn new_zeroed(capacity: usize) -> (r: NetworkBuffer)
        ensures
            r@ == Seq::new(capacity as nat, |i: int| 0u8),
    {
        let mut v: Vec<u8> = Vec::with_capacity(capacity);
        let mut i: usize = 0;
        while i < capacity
            invariant
                i <= capacity,
                v@ == Seq::new(i as nat, |j: int| 0u8),
            decreases capacity - i,
        {
            v.push(0);
            i = i + 1;
        }
        NetworkBuffer(v)
    }

    pub fn empty() -> (r: NetworkBuffer)
        ensures
            r@ == Seq::<u8>::empty(),
    {
        NetworkBuffer(Vec::new())
    }

    /// Copies the bytes of a slice into a new buffer.
    pub fn from_slice(data: &[u8]) -> (r: NetworkBuffer)
        ensures
            r@ == data@,
    {
        let mut v: Vec<u8> = Vec::with_capacity(data.len());
        v.extend_from_slice(data);
        NetworkBuffer(v)
    }

    /// Appends the bytes of another buffer.
    pub fn extend(&mut self, other: NetworkBuffer)
        ensures
            final(self)@ == old(self)@ + other@,
    {
        let mut o = other.0;
        self.0.append(&mut o);
    }

    /// Appends the bytes of a slice.
    pub fn extend_from_slice(&mut self, data: &[u8])
        ensures
            final(self)@ == old(self)@ + data@,
    {
        self.0.extend_from_slice(data);
    }

    /// Appends a `u16` in network order.
    pub fn push_u16(&mut self, value: u16)
        ensures
            final(self)@ == old(self)@ + be16_bytes(value),
    {
        self.0.push((value / 256) as u8);
        self.0.push((value % 256) as u8);
        proof {
            assert(self.0@ =~= old(self)@ + be16_bytes(value));
        }
    }

    /// Appends a `u32` in network order.
    pub fn push_u32(&mut self, value: u32)
        ensures
            final(self)@ == old(self)@ + be32_bytes(value),
    {
        self.0.push((value / 0x100_0000) as u8);
        self.0.push((value / 0x1_0000 % 256) as u8);
        self.0.push((value / 0x100 % 256) as u8);
        self.0.push((value % 256) as u8);
        proof {
            assert(self.0@ =~= old(self)@ + be32_bytes(value));
        }
    }

    pub fn push(&mut self, value: u8)
        ensures
            final(self)@ == old(self)@.push(value),
    {
        self.0.push(value);
    }

    /// Overwrites the byte at `index`.
    pub fn set(&mut self, index: usize, value: u8)
        requires
            index < old(self)@.len(),
        ensures
            final(self)@ == old(self)@.update(index as int, value),
    {
        self.0[index] = value;
    }

    pub fn get(&self, index: usize) -> (r: u8)
        requires
            index < self@.len(),
        ensures
            r == self@[index as int],
    {
        self.0[index]
    }

    pub fn len(&self) -> (r: usize)
        ensures
            r == self@.len(),
    {
        self.0.len()
    }

    pub fn is_empty(&self) -> (r: bool)
        ensures
            r == (self@.len() == 0),
    {
        self.0.len() == 0
    }

    pub fn as_slice(&self) -> (r: &[u8])
        ensures
            r@ == self@,
    {
        self.0.as_slice()
    }

    pub fn into_vec(self) -> (r: Vec<u8>)
        ensures
            r@ == self@,
    {
        self.0
    }
}

impl ProtocolBuffer for NetworkBuffer {
    open spec fn payload(&self) -> Seq<u8> {
        self@
    }

    fn buf(&self) -> (r: &[u8]) {
        self.0.as_slice()
    }
}

} // verus!
