//! IPv4: a borrowed view over an inbound packet and a writer for outbound ones.
use vstd::prelude::*;

use crate::checksum::{
    add_slice, lemma_complement_closes, lemma_represents_fold, lemma_word_sum_set_word,
    lemma_word_sum_zero, ones_complement, ones_complement_of, word_sum,
};
use crate::proto::{byte_of, protocol_of, NetworkBuffer, Protocol, ProtocolBuffer, StackError};
use crate::wire::{be16, be16_bytes, be32, be32_bytes, read_u16, read_u32};

verus! {

/// Header length in bytes, from the IHL nibble.
pub open spec fn ip_header_length(b: Seq<u8>) -> int {
    (b[0] % 16) as int * 4
}

/// What `Ip::parse` accepts.
pub open spec fn ip_valid(b: Seq<u8>) -> bool {
    b.len() >= 20 && ip_header_length(b) <= b.len()
}

/// Stores a 16-bit checksum word at `at`, low byte first (see the checksum module).
pub open spec fn with_checksum(h: Seq<u8>, at: int, c: u16) -> Seq<u8> {
    h.update(at, (c % 256) as u8).update(at + 1, (c / 256) as u8)
}

/// The 20-byte header with a zero checksum field.
pub open spec fn ip_header_unsummed(src: u32, dst: u32, proto: u8, ttl: u8, total: u16) -> Seq<u8> {
    seq![0x45u8, 0u8] + be16_bytes(total) + seq![0u8, 0u8, 0x40u8, 0u8, ttl, proto, 0u8, 0u8]
        + be32_bytes(src) + be32_bytes(dst)
}

/// The 20-byte header as written: the checksum field holds the one's
/// complement of the word sum of the header with that field zero.
pub open spec fn ip_header(src: u32, dst: u32, proto: u8, ttl: u8, total: u16) -> Seq<u8> {
    let h = ip_header_unsummed(src, dst, proto, ttl, total);
    with_checksum(h, 10, ones_complement_of(word_sum(h) as int))
}

/// A whole outbound packet: header, then the data.
pub open spec fn ip_packet(src: u32, dst: u32, proto: u8, ttl: u8, data: Seq<u8>) -> Seq<u8> {
    ip_header(src, dst, proto, ttl, (20 + data.len()) as u16) + data
}

/// A header written by `IpHeaderWriter` verifies: the one's complement of the
/// word sum of its 20 bytes, checksum field included, is zero.
pub proof fn lemma_ip_header_verifies(src: u32, dst: u32, proto: u8, ttl: u8, total: u16)
    ensures
        ones_complement_of(word_sum(ip_header(src, dst, proto, ttl, total)) as int) == 0,
{
    let h = ip_header_unsummed(src, dst, proto, ttl, total);
    let c = ones_complement_of(word_sum(h) as int);
    assert(h.len() == 20);
    assert(h[10] == 0 && h[11] == 0 && h[0] == 0x45);
    lemma_word_sum_set_word(h, 10, (c % 256) as u8, (c / 256) as u8);
    lemma_word_sum_zero(h);
    lemma_complement_closes(word_sum(h) as int);
}

/// A borrowed view of an inbound IPv4 packet.
#[derive(Clone, Copy)]
pub struct Ip<'a> {
    data: &'a [u8],
}

impl<'a> Ip<'a> {
    #[verifier::type_invariant]
    spec fn inv(&self) -> bool {
        ip_valid(self.data@)
    }

    /// The bytes of the whole packet.
    pub closed spec fn bytes(&self) -> Seq<u8> {
        self.data@
    }

    pub fn parse(bytes: &'a [u8]) -> (r: Result<Ip<'a>, StackError>)
        ensures
            match r {
                Ok(ip) => ip_valid(bytes@) && ip.bytes() == bytes@,
                Err(e) => !ip_valid(bytes@) && e == (if bytes@.len() < 20 {
                    StackError::Truncated
                } else {
                    StackError::HeaderLength
                }),
            },
    {
        if bytes.len() < 20 {
            return Err(StackError::Truncated);
        }
        let header_length: usize = (bytes[0] % 16) as usize * 4;
        if header_length > bytes.len() {
            return Err(StackError::HeaderLength);
        }
        Ok(Ip { data: bytes })
    }

    pub fn header_length(&self) -> (r: usize)
        ensures
            ip_valid(self.bytes()),
            r == ip_header_length(self.bytes()),
    {
        proof {
            use_type_invariant(self);
        }
        // Length is represented as 32 bit words, so 4 bytes
        (self.data[0] % 16) as usize * 4
    }

    /// Everything after the header.
    pub fn remainder(&self) -> (r: &'a [u8])
        ensures
            r@ == self.bytes().subrange(ip_header_length(self.bytes()), self.bytes().len() as int),
    {
        proof {
            use_type_invariant(self);
        }
        let start: usize = self.header_length();
        vstd::slice::slice_subrange(self.data, start, self.data.len())
    }

    pub fn total_length(&self) -> (r: u16)
        ensures
            r == be16(self.bytes()[2], self.bytes()[3]),
    {
        proof {
            use_type_invariant(self);
        }
        read_u16(vstd::slice::slice_subrange(self.data, 2, 4))
    }

    pub fn ttl(&self) -> (r: u8)
        ensures
            r == self.bytes()[8],
    {
        proof {
            use_type_invariant(self);
        }
        self.data[8]
    }

    pub fn protocol(&self) -> (r: Protocol)
        ensures
            ip_valid(self.bytes()),
            r == protocol_of(self.bytes()[9]),
    {
        proof {
            use_type_invariant(self);
        }
        Protocol::from_byte(self.data[9])
    }

    pub fn checksum(&self) -> (r: u16)
        ensures
            r == be16(self.bytes()[10], self.bytes()[11]),
    {
        proof {
            use_type_invariant(self);
        }
        read_u16(vstd::slice::slice_subrange(self.data, 10, 12))
    }

    pub fn source(&self) -> (r: u32)
        ensures
            ip_valid(self.bytes()),
            r == be32(self.bytes()[12], self.bytes()[13], self.bytes()[14], self.bytes()[15]),
    {
        proof {
            use_type_invariant(self);
        }
        read_u32(vstd::slice::slice_subrange(self.data, 12, 16))
    }

    pub fn source2(&self) -> (r: [u8; 4])
        ensures
            ip_valid(self.bytes()),
            r@ == self.bytes().subrange(12, 16),
    {
        proof {
            use_type_invariant(self);
        }
        let r: [u8; 4] = [self.data[12], self.data[13], self.data[14], self.data[15]];
        proof {
            assert(r@ =~= self.bytes().subrange(12, 16));
        }
        r
    }

    pub fn destination(&self) -> (r: u32)
        ensures
            ip_valid(self.bytes()),
            r == be32(self.bytes()[16], self.bytes()[17], self.bytes()[18], self.bytes()[19]),
    {
        proof {
            use_type_invariant(self);
        }
        read_u32(vstd::slice::slice_subrange(self.data, 16, 20))
    }

    pub fn destination2(&self) -> (r: [u8; 4])
        ensures
            ip_valid(self.bytes()),
            r@ == self.bytes().subrange(16, 20),
    {
        proof {
            use_type_invariant(self);
        }
        let r: [u8; 4] = [self.data[16], self.data[17], self.data[18], self.data[19]];
        proof {
            assert(r@ =~= self.bytes().subrange(16, 20));
        }
        r
    }
}

impl<'a> ProtocolBuffer for Ip<'a> {
    open spec fn payload(&self) -> Seq<u8> {
        self.bytes().subrange(ip_header_length(self.bytes()), self.bytes().len() as int)
    }

    fn buf(&self) -> (r: &[u8]) {
        self.remainder()
    }
}

/// Builds an outbound IPv4 packet around a payload.
pub struct IpHeaderWriter {
    buf: NetworkBuffer,
}

impl IpHeaderWriter {
    #[verifier::type_invariant]
    spec fn inv(&self) -> bool {
        self.buf@.len() >= 20
    }

    /// The bytes written so far.
    pub closed spec fn bytes(&self) -> Seq<u8> {
        self.buf@
    }

    /// Writes version 4, a 20-byte header, "don't fragment", the given TTL and
    /// protocol, `source` and `destination` as given, and the header checksum;
    /// then the data.
    pub fn new(
        source: u32,
        destination: u32,
        protocol: Protocol,
        time_to_live: u8,
        data: NetworkBuffer,
    ) -> (r: IpHeaderWriter)
        requires
            data@.len() + 20 <= 0xffff,
        ensures
            r.bytes() == ip_packet(source, destination, byte_of(protocol), time_to_live, data@),
            ones_complement_of(word_sum(r.bytes().subrange(0, 20)) as int) == 0,
    {
        let total: u16 = (20 + data.len()) as u16;
        let mut buf = NetworkBuffer::new(20 + data.len());
        buf.push(0x45);
        // type of service
        buf.push(0);
        buf.push_u16(total);
        // identification
        buf.push_u16(0);
        // flags: don't fragment; no fragment offset
        buf.push(0x40);
        buf.push(0);
        buf.push(time_to_live);
        buf.push(protocol.to_byte());
        // checksum, filled in below
        buf.push_u16(0);
        buf.push_u32(source);
        buf.push_u32(destination);
        let ghost h = ip_header_unsummed(source, destination, byte_of(protocol), time_to_live, total);
        proof {
            assert(buf@ =~= h);
        }
        let sum: u64 = add_slice(0, buf.as_slice());
        let checksum: u16 = ones_complement(sum);
        proof {
            lemma_represents_fold(sum, word_sum(h) as int);
        }
        buf.set(10, (checksum % 256) as u8);
        buf.set(11, (checksum / 256) as u8);
        proof {
            assert(buf@ =~= ip_header(source, destination, byte_of(protocol), time_to_live, total));
            lemma_ip_header_verifies(source, destination, byte_of(protocol), time_to_live, total);
        }
        buf.extend(data);
        proof {
            assert(buf@.subrange(0, 20) =~= ip_header(source, destination, byte_of(protocol), time_to_live, total));
        }
        IpHeaderWriter { buf }
    }

    pub fn to_buf(self) -> (r: NetworkBuffer)
        ensures
            r@ == self.bytes(),
    {
        self.buf
    }

    /// The one's complement of the word sum of the 20 header bytes: zero for
    /// a header whose checksum field is right.
    pub fn checksum(&self) -> (r: u16)
        ensures
            r == ones_complement_of(word_sum(self.bytes().subrange(0, 20)) as int),
    {
        proof {
            use_type_invariant(self);
        }
        let header = vstd::slice::slice_subrange(self.buf.as_slice(), 0, 20);
        let sum: u64 = add_slice(0, header);
        proof {
            lemma_represents_fold(sum, word_sum(self.bytes().subrange(0, 20)) as int);
        }
        ones_complement(sum)
    }
}

} // verus!
