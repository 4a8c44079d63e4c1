//! ICMP: a view that exposes the type and code of a message.
use vstd::prelude::*;

use crate::proto::{ProtocolBuffer, StackError};

verus! {

/// A view of an ICMP message: the payload of its parent.
pub struct Icmp<P: ProtocolBuffer> {
    inner: P,
}

impl<P: ProtocolBuffer> Icmp<P> {
    #[verifier::type_invariant]
    spec fn inv(&self) -> bool {
        self.inner.payload().len() >= 2
    }

    pub closed spec fn parent(&self) -> P {
        self.inner
    }

    pub fn parse(proto: P) -> (r: Result<Icmp<P>, StackError>)
        ensures
            match r {
                Ok(m) => proto.payload().len() >= 2 && m.parent() == proto,
                Err(e) => proto.payload().len() < 2 && e == StackError::Truncated,
            },
    {
        if proto.buf().len() < 2 {
            return Err(StackError::Truncated);
        }
        Ok(Icmp { inner: proto })
    }

    pub fn icmp_type(&self) -> (r: u8)
        ensures
            r == self.parent().payload()[0],
    {
        proof {
            use_type_invariant(self);
        }
        self.inner.buf()[0]
    }

    pub fn icmp_code(&self) -> (r: u8)
        ensures
            r == self.parent().payload()[1],
    {
        proof {
            use_type_invariant(self);
        }
        self.inner.buf()[1]
    }
}

impl<P: ProtocolBuffer> ProtocolBuffer for Icmp<P> {
    open spec fn payload(&self) -> Seq<u8> {
        self.parent().payload()
    }

    fn buf(&self) -> (r: &[u8]) {
        self.inner.buf()
    }
}

} // verus!
