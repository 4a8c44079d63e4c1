//! TCP: a view over a segment inside a parent payload, the control flags and
//! a writer for outbound segments.
use vstd::prelude::*;

use crate::checksum::{
    add_2bytes, add_4bytes, add_slice, lemma_complement_closes, lemma_represents_add,
    lemma_represents_fold, lemma_word_sum_set_word, lemma_word_sum_zero, ones_complement,
    ones_complement_of, represents, word_sum,
};
use crate::ip::{with_checksum, Ip};
use crate::proto::{NetworkBuffer, ProtocolBuffer, StackError};
use crate::wire::{be16, be16_bytes, be32, be32_bytes, read_u16, read_u32};

verus! {

pub const FIN: u8 = 0x01;
pub const SYN: u8 = 0x02;
pub const RST: u8 = 0x04;
pub const PSH: u8 = 0x08;
pub const ACK: u8 = 0x10;
pub const URG: u8 = 0x20;
pub const ECE: u8 = 0x40;
pub const CWR: u8 = 0x80;

/// The window that every outbound segment advertises.
pub const WINDOW: u16 = 1024;

/// The control flags of a segment, one bit each.
#[derive(Debug, Clone, Copy, PartialEq, Eq, Structural)]
pub struct TcpControl {
    pub bits: u8,
}

/// Every flag of `mask` is set in `bits`.
pub open spec fn has_flags(bits: u8, mask: u8) -> bool {
    bits & mask == mask
}

impl TcpControl {
    pub fn from_bits_retain(bits: u8) -> (r: TcpControl)
        ensures
            r.bits == bits,
    {
        TcpControl { bits }
    }

    pub fn bits(&self) -> (r: u8)
        ensures
            r == self.bits,
    {
        self.bits
    }

    pub fn contains(&self, other: TcpControl) -> (r: bool)
        ensures
            r == has_flags(self.bits, other.bits),
    {
        self.bits & other.bits == other.bits
    }

    pub fn union(self, other: TcpControl) -> (r: TcpControl)
        ensures
            r.bits == self.bits | other.bits,
    {
        TcpControl { bits: self.bits | other.bits }
    }
}

/// Header length in bytes, from the data offset nibble.
pub open spec fn tcp_header_length(seg: Seq<u8>) -> int {
    (seg[12] / 16) as int * 4
}

/// What `Tcp::parse` accepts.
pub open spec fn tcp_valid(seg: Seq<u8>) -> bool {
    seg.len() >= 20 && tcp_header_length(seg) <= seg.len()
}

/// A view of a TCP segment: the payload of its parent.
pub struct Tcp<P: ProtocolBuffer> {
    inner: P,
}

impl<P: ProtocolBuffer> Tcp<P> {
    #[verifier::type_invariant]
    spec fn inv(&self) -> bool {
        tcp_valid(self.inner.payload())
    }

    pub closed spec fn parent(&self) -> P {
        self.inner
    }

    /// The bytes of the segment, header first.
    pub open spec fn segment(&self) -> Seq<u8> {
        self.parent().payload()
    }

    pub fn parse(proto: P) -> (r: Result<Tcp<P>, StackError>)
        ensures
            match r {
                Ok(t) => tcp_valid(proto.payload()) && t.parent() == proto,
                Err(e) => !tcp_valid(proto.payload()) && e == (if proto.payload().len() < 20 {
                    StackError::Truncated
                } else {
                    StackError::HeaderLength
                }),
            },
    {
        let b = proto.buf();
        if b.len() < 20 {
            return Err(StackError::Truncated);
        }
        let header_length: usize = (b[12] / 16) as usize * 4;
        if header_length > b.len() {
            return Err(StackError::HeaderLength);
        }
        Ok(Tcp { inner: proto })
    }

    pub fn inner(&self) -> (r: &P)
        ensures
            *r == self.parent(),
    {
        &self.inner
    }

    pub fn into_inner(self) -> (r: P)
        ensures
            r == self.parent(),
    {
        self.inner
    }

    pub fn source_port(&self) -> (r: u16)
        ensures
            r == be16(self.segment()[0], self.segment()[1]),
    {
        proof {
            use_type_invariant(self);
        }
        read_u16(self.inner.buf())
    }

    pub fn destination_port(&self) -> (r: u16)
        ensures
            r == be16(self.segment()[2], self.segment()[3]),
    {
        proof {
            use_type_invariant(self);
        }
        let b = self.inner.buf();
        read_u16(vstd::slice::slice_subrange(b, 2, 4))
    }

    pub fn sequence_number(&self) -> (r: u32)
        ensures
            r == be32(self.segment()[4], self.segment()[5], self.segment()[6], self.segment()[7]),
    {
        proof {
            use_type_invariant(self);
        }
        let b = self.inner.buf();
        read_u32(vstd::slice::slice_subrange(b, 4, 8))
    }

    pub fn ack_number(&self) -> (r: u32)
        ensures
            r == be32(self.segment()[8], self.segment()[9], self.segment()[10], self.segment()[11]),
    {
        proof {
            use_type_invariant(self);
        }
        let b = self.inner.buf();
        read_u32(vstd::slice::slice_subrange(b, 8, 12))
    }

    pub fn header_length(&self) -> (r: usize)
        ensures
            r == tcp_header_length(self.segment()),
    {
        proof {
            use_type_invariant(self);
        }
        // Length is represented as 32 bit words, so 4 bytes
        (self.inner.buf()[12] / 16) as usize * 4
    }

    pub fn control(&self) -> (r: TcpControl)
        ensures
            r.bits == self.segment()[13],
    {
        proof {
            use_type_invariant(self);
        }
        TcpControl::from_bits_retain(self.inner.buf()[13])
    }

    pub fn window(&self) -> (r: u16)
        ensures
            r == be16(self.segment()[14], self.segment()[15]),
    {
        proof {
            use_type_invariant(self);
        }
        let b = self.inner.buf();
        read_u16(vstd::slice::slice_subrange(b, 14, 16))
    }

    pub fn urgent_pointer(&self) -> (r: u16)
        ensures
            r == be16(self.segment()[18], self.segment()[19]),
    {
        proof {
            use_type_invariant(self);
        }
        let b = self.inner.buf();
        read_u16(vstd::slice::slice_subrange(b, 18, 20))
    }
}

impl<P: ProtocolBuffer> ProtocolBuffer for Tcp<P> {
    open spec fn payload(&self) -> Seq<u8> {
        self.segment().subrange(tcp_header_length(self.segment()), self.segment().len() as int)
    }

    fn buf(&self) -> (r: &[u8]) {
        proof {
            use_type_invariant(self);
        }
        let b = self.inner.buf();
        let start: usize = (b[12] / 16) as usize * 4;
        vstd::slice::slice_subrange(b, start, b.len())
    }
}

/// The word sum of the pseudo-header that TCP and UDP checksums cover:
/// both addresses, the protocol and the segment length.
pub open spec fn pseudo_header_sum(src: Seq<u8>, dst: Seq<u8>, proto: u8, len: u16) -> nat {
    word_sum(src) + word_sum(dst) + word_sum(seq![0u8, proto]) + word_sum(be16_bytes(len))
}

/// The pseudo-header sum of a reply to the packet `ip` carrying `len` bytes:
/// addresses swapped, which leaves the sum as it is.
pub open spec fn reply_pseudo_sum(ip: Seq<u8>, len: u16) -> nat {
    pseudo_header_sum(ip.subrange(16, 20), ip.subrange(12, 16), ip[9], len)
}

/// Adds the pseudo-header of a reply to `ip` for a segment of `len` bytes.
pub(crate) fn add_pseudo_header(ip: &Ip, len: u16) -> (r: u64)
    ensures
        ip.bytes().len() >= 20,
        represents(r, reply_pseudo_sum(ip.bytes(), len) as int),
{
    let dst = ip.destination2();
    let src = ip.source2();
    let proto: u8 = ip.protocol().to_byte();
    let ghost b = ip.bytes();
    proof {
        reveal(represents);
        assert(proto == b[9]);
    }
    let s0: u64 = add_4bytes(0, dst);
    let s1: u64 = add_4bytes(s0, src);
    let s2: u64 = add_2bytes(s1, [0, proto]);
    let len_bytes: [u8; 2] = [(len / 256) as u8, (len % 256) as u8];
    let s3: u64 = add_2bytes(s2, len_bytes);
    proof {
        assert(len_bytes@ =~= be16_bytes(len));
        assert(dst@ =~= b.subrange(16, 20));
        assert(src@ =~= b.subrange(12, 16));
        assert([0u8, proto]@ =~= seq![0u8, b[9]]);
        let t0 = word_sum(dst@) as int;
        let t1 = t0 + word_sum(src@);
        let t2 = t1 + word_sum([0u8, proto]@);
        lemma_represents_add(s0, t0, word_sum(src@) as int, s1);
        lemma_represents_add(s1, t1, word_sum([0u8, proto]@) as int, s2);
        lemma_represents_add(s2, t2, word_sum(len_bytes@) as int, s3);
    }
    s3
}

/// The fixed 20-byte header that `TcpHeaderWriter::new` writes.
pub open spec fn tcp_header_bytes(source_port: u16, destination_port: u16, seq: u32, ack: u32) -> Seq<u8> {
    be16_bytes(source_port) + be16_bytes(destination_port) + be32_bytes(seq) + be32_bytes(ack)
        + seq![0x50u8, 0u8] + be16_bytes(WINDOW) + seq![0u8, 0u8, 0u8, 0u8]
}

/// The checksum field zeroed.
pub open spec fn zero_word(seg: Seq<u8>, at: int) -> Seq<u8> {
    seg.update(at, 0).update(at + 1, 0)
}

/// A segment with its checksum field at `at` filled in for the pseudo-header sum `pseudo`.
pub open spec fn checksummed(seg: Seq<u8>, at: int, pseudo: nat) -> Seq<u8> {
    let z = zero_word(seg, at);
    with_checksum(z, at, ones_complement_of((pseudo + word_sum(z)) as int))
}

/// Builds an outbound TCP segment.
pub struct TcpHeaderWriter {
    buf: NetworkBuffer,
}

impl TcpHeaderWriter {
    #[verifier::type_invariant]
    spec fn inv(&self) -> bool {
        self.buf@.len() >= 20 && self.buf@[12] == 0x50
    }

    /// The bytes written so far.
    pub closed spec fn bytes(&self) -> Seq<u8> {
        self.buf@
    }

    /// A 20-byte header: data offset 5, window 1024, no flags, checksum 0.
    pub fn new(source_port: u16, destination_port: u16, sequence_number: u32, ack_number: u32) -> (r: TcpHeaderWriter)
        ensures
            r.bytes() == tcp_header_bytes(source_port, destination_port, sequence_number, ack_number),
    {
        let mut buf = NetworkBuffer::new(20);
        buf.push_u16(source_port);
        buf.push_u16(destination_port);
        buf.push_u32(sequence_number);
        buf.push_u32(ack_number);
        // 4bit total header len in 4 byte sizes, eg. 5 == 20 bytes
        buf.push(0x50);
        buf.push(0);
        buf.push_u16(WINDOW);
        buf.push_u16(0);
        buf.push_u16(0);
        proof {
            assert(buf@ =~= tcp_header_bytes(source_port, destination_port, sequence_number, ack_number));
        }
        TcpHeaderWriter { buf }
    }

    /// Appends the data; a non-empty payload also sets PSH.
    pub fn data(self, data: NetworkBuffer) -> (r: TcpHeaderWriter)
        ensures
            data@.len() == 0 ==> r.bytes() == self.bytes(),
            data@.len() > 0 ==> r.bytes() == (self.bytes() + data@).update(13, self.bytes()[13] | PSH),
    {
        proof {
            use_type_invariant(&self);
        }
        if !data.is_empty() {
            let mut buf = self.buf;
            buf.extend(data);
            TcpHeaderWriter { buf }.set(TcpControl::from_bits_retain(PSH))
        } else {
            self
        }
    }

    /// ORs the flags into the flags byte.
    pub fn set(self, control: TcpControl) -> (r: TcpHeaderWriter)
        ensures
            r.bytes() == self.bytes().update(13, self.bytes()[13] | control.bits),
    {
        proof {
            use_type_invariant(&self);
        }
        let mut buf = self.buf;
        let current: u8 = buf.get(13);
        buf.set(13, current | control.bits);
        TcpHeaderWriter { buf }
    }

    /// Writes the checksum over the pseudo-header of a reply to `ip` and the
    /// whole segment. The result verifies: a receiver that sums the
    /// pseudo-header and the segment gets a zero residual.
    pub fn calc_checksum(self, ip: &Ip) -> (r: TcpHeaderWriter)
        requires
            self.bytes().len() <= 0xffff,
        ensures
            r.bytes() == checksummed(self.bytes(), 16, reply_pseudo_sum(ip.bytes(), self.bytes().len() as u16)),
            ones_complement_of(
                (reply_pseudo_sum(ip.bytes(), r.bytes().len() as u16) + word_sum(r.bytes())) as int,
            ) == 0,
    {
        proof {
            use_type_invariant(&self);
        }
        let mut buf = self.buf;
        let length: u16 = buf.len() as u16;
        let pseudo: u64 = add_pseudo_header(ip, length);
        buf.set(16, 0);
        buf.set(17, 0);
        let ghost z = buf@;
        let ghost p = reply_pseudo_sum(ip.bytes(), length);
        let sum: u64 = add_slice(pseudo, buf.as_slice());
        proof {
            lemma_represents_add(pseudo, p as int, word_sum(z) as int, sum);
            lemma_represents_fold(sum, (p + word_sum(z)) as int);
        }
        let checksum: u16 = ones_complement(sum);
        buf.set(16, (checksum % 256) as u8);
        buf.set(17, (checksum / 256) as u8);
        proof {
            assert(z[12] == 0x50);
            lemma_word_sum_zero(z);
            lemma_word_sum_set_word(z, 16, (checksum % 256) as u8, (checksum / 256) as u8);
            lemma_complement_closes((p + word_sum(z)) as int);
        }
        TcpHeaderWriter { buf }
    }

    pub fn to_buf(self) -> (r: NetworkBuffer)
        ensures
            r@ == self.bytes(),
    {
        self.buf
    }
}

} // verus!
