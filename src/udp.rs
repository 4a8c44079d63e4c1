//! UDP: a view over a datagram and a writer for outbound ones.
use vstd::prelude::*;

use crate::checksum::{
    add_slice, lemma_complement_closes, lemma_represents_add, lemma_represents_fold,
    lemma_word_sum_set_word, lemma_word_sum_zero, ones_complement_no_zero_of, ones_complement_of,
    ones_complement_with_no_zero, word_sum,
};
use crate::ip::{with_checksum, Ip};
use crate::proto::{NetworkBuffer, ProtocolBuffer, StackError};
use crate::tcp::{add_pseudo_header, reply_pseudo_sum, zero_word};
use crate::wire::{be16, be16_bytes, read_u16};

verus! {

/// A view of a UDP datagram: the payload of its parent.
pub struct Udp<P: ProtocolBuffer> {
    inner: P,
}

impl<P: ProtocolBuffer> Udp<P> {
    #[verifier::type_invariant]
    spec fn inv(&self) -> bool {
        self.inner.payload().len() >= 8
    }

    pub closed spec fn parent(&self) -> P {
        self.inner
    }

    /// The bytes of the datagram, header first.
    pub open spec fn datagram(&self) -> Seq<u8> {
        self.parent().payload()
    }

    pub fn parse(proto: P) -> (r: Result<Udp<P>, StackError>)
        ensures
            match r {
                Ok(u) => proto.payload().len() >= 8 && u.parent() == proto,
                Err(e) => proto.payload().len() < 8 && e == StackError::Truncated,
            },
    {
        if proto.buf().len() < 8 {
            return Err(StackError::Truncated);
        }
        Ok(Udp { inner: proto })
    }

    pub fn inner(&self) -> (r: &P)
        ensures
            *r == self.parent(),
    {
        &self.inner
    }

    pub fn source_port(&self) -> (r: u16)
        ensures
            r == be16(self.datagram()[0], self.datagram()[1]),
    {
        proof {
            use_type_invariant(self);
        }
        read_u16(self.inner.buf())
    }

    pub fn destination_port(&self) -> (r: u16)
        ensures
            r == be16(self.datagram()[2], self.datagram()[3]),
    {
        proof {
            use_type_invariant(self);
        }
        read_u16(vstd::slice::slice_subrange(self.inner.buf(), 2, 4))
    }

    pub fn length(&self) -> (r: u16)
        ensures
            r == be16(self.datagram()[4], self.datagram()[5]),
    {
        proof {
            use_type_invariant(self);
        }
        read_u16(vstd::slice::slice_subrange(self.inner.buf(), 4, 6))
    }

    pub fn checksum(&self) -> (r: u16)
        ensures
            r == be16(self.datagram()[6], self.datagram()[7]),
    {
        proof {
            use_type_invariant(self);
        }
        read_u16(vstd::slice::slice_subrange(self.inner.buf(), 6, 8))
    }
}

impl<P: ProtocolBuffer> ProtocolBuffer for Udp<P> {
    open spec fn payload(&self) -> Seq<u8> {
        self.datagram().subrange(8, self.datagram().len() as int)
    }

    fn buf(&self) -> (r: &[u8]) {
        proof {
            use_type_invariant(self);
        }
        let b = self.inner.buf();
        vstd::slice::slice_subrange(b, 8, b.len())
    }
}

/// The 8-byte header that `UdpHeaderWriter::new` writes.
pub open spec fn udp_header_bytes(source_port: u16, destination_port: u16) -> Seq<u8> {
    be16_bytes(source_port) + be16_bytes(destination_port) + be16_bytes(8) + seq![0u8, 0u8]
}

/// A datagram with its checksum field filled in for the pseudo-header sum
/// `pseudo`; a zero checksum goes on the wire as 0xffff.
pub open spec fn udp_checksummed(d: Seq<u8>, pseudo: nat) -> Seq<u8> {
    let z = zero_word(d, 6);
    with_checksum(z, 6, ones_complement_no_zero_of((pseudo + word_sum(z)) as int))
}

/// Builds an outbound UDP datagram.
pub struct UdpHeaderWriter {
    buf: NetworkBuffer,
}

impl UdpHeaderWriter {
    #[verifier::type_invariant]
    spec fn inv(&self) -> bool {
        &&& 8 <= self.buf@.len() <= 0xffff
        &&& self.buf@.subrange(4, 6) == be16_bytes(self.buf@.len() as u16)
    }

    /// The bytes written so far.
    pub closed spec fn bytes(&self) -> Seq<u8> {
        self.buf@
    }

    /// An 8-byte header: the ports, length 8, checksum 0.
    pub fn new(source_port: u16, destination_port: u16) -> (r: UdpHeaderWriter)
        ensures
            r.bytes() == udp_header_bytes(source_port, destination_port),
    {
        let mut buf = NetworkBuffer::new(8);
        buf.push_u16(source_port);
        buf.push_u16(destination_port);
        buf.push_u16(8);
        buf.push_u16(0);
        proof {
            assert(buf@ =~= udp_header_bytes(source_port, destination_port));
            assert(buf@.subrange(4, 6) =~= be16_bytes(8));
        }
        UdpHeaderWriter { buf }
    }

    /// Appends the data; a non-empty payload also updates the length field.
    pub fn data(self, data: NetworkBuffer) -> (r: UdpHeaderWriter)
        requires
            self.bytes().len() + data@.len() <= 0xffff,
        ensures
            data@.len() == 0 ==> r.bytes() == self.bytes(),
            data@.len() > 0 ==> {
                let len = (self.bytes().len() + data@.len()) as u16;
                r.bytes() == (self.bytes() + data@).update(4, (len / 256) as u8).update(
                    5,
                    (len % 256) as u8,
                )
            },
    {
        proof {
            use_type_invariant(&self);
        }
        if !data.is_empty() {
            let mut buf = self.buf;
            buf.extend(data);
            let len: u16 = buf.len() as u16;
            buf.set(4, (len / 256) as u8);
            buf.set(5, (len % 256) as u8);
            proof {
                assert(buf@.subrange(4, 6) =~= be16_bytes(buf@.len() as u16));
            }
            UdpHeaderWriter { buf }
        } else {
            self
        }
    }

    /// Writes the checksum over the pseudo-header of a reply to `ip` and the
    /// whole datagram at bytes 6..8, zero sent as 0xffff. The result verifies:
    /// a receiver that sums the pseudo-header and the datagram gets a zero
    /// residual.
    pub fn calc_checksum(self, ip: &Ip) -> (r: UdpHeaderWriter)
        ensures
            r.bytes() == udp_checksummed(self.bytes(), reply_pseudo_sum(ip.bytes(), self.bytes().len() as u16)),
            r.bytes().len() == self.bytes().len(),
            ones_complement_of(
                (reply_pseudo_sum(ip.bytes(), r.bytes().len() as u16) + word_sum(r.bytes())) as int,
            ) == 0,
    {
        proof {
            use_type_invariant(&self);
        }
        let mut buf = self.buf;
        let length: u16 = buf.len() as u16;
        let pseudo: u64 = add_pseudo_header(ip, length);
        buf.set(6, 0);
        buf.set(7, 0);
        let ghost z = buf@;
        let ghost p = reply_pseudo_sum(ip.bytes(), length);
        let sum: u64 = add_slice(pseudo, buf.as_slice());
        proof {
            lemma_represents_add(pseudo, p as int, word_sum(z) as int, sum);
            lemma_represents_fold(sum, (p + word_sum(z)) as int);
        }
        let checksum: u16 = ones_complement_with_no_zero(sum);
        buf.set(6, (checksum % 256) as u8);
        buf.set(7, (checksum / 256) as u8);
        proof {
            assert(z.subrange(4, 6) == be16_bytes(z.len() as u16));
            assert(z[4] == z.subrange(4, 6)[0] && z[5] == z.subrange(4, 6)[1]);
            assert(z[4] != 0 || z[5] != 0);
            lemma_word_sum_zero(z);
            lemma_word_sum_set_word(z, 6, (checksum % 256) as u8, (checksum / 256) as u8);
            lemma_complement_closes((p + word_sum(z)) as int);
            assert(buf@.subrange(4, 6) =~= z.subrange(4, 6));
        }
        UdpHeaderWriter { buf }
    }

    pub fn to_buf(self) -> (r: NetworkBuffer)
        ensures
            r@ == self.bytes(),
    {
        self.buf
    }
}

} // verus!
