//! The per-connection TCP state machine of a passive-open server: handshake,
//! data transfer and teardown, and the framer for outbound segments.
use vstd::prelude::*;

use crate::ip::{ip_packet, Ip, IpHeaderWriter};
use crate::proto::{byte_of, NetworkBuffer, Protocol, ProtocolBuffer};
use crate::tcp::{
    checksummed, has_flags, reply_pseudo_sum, tcp_header_bytes, Tcp, TcpControl, TcpHeaderWriter,
    ACK, FIN, PSH, SYN,
};
use crate::wire::{be16, be32};

verus! {

/// The TTL of the FIN that closes our side.
pub const FIN_TTL: u8 = 64;

/// Where a connection is in its lifecycle.
#[derive(Debug, Clone, Copy, PartialEq, Eq, Structural)]
pub enum State {
    Listen,
    SynRecv,
    Established,
    LastAck,
}

/// Sequence numbers of a connection.
#[derive(Debug, Clone, Copy, PartialEq, Eq, Structural)]
pub struct TcpSequences {
    /// The next sequence number we expect the peer to send.
    pub client_sequence: u32,
    /// The next sequence number we will send.
    pub server_sequence: u32,
}

/// The state of one connection.
#[derive(Debug, Clone, Copy, PartialEq, Eq, Structural)]
pub struct TcpState {
    pub state: State,
    pub sequence: TcpSequences,
    /// Peer data is waiting to be acknowledged.
    pub requires_ack: bool,
}

/// What the state machine does with a segment.
#[derive(Debug, Clone, Copy, PartialEq, Eq, Structural)]
pub enum Reaction {
    /// Answer a SYN with SYN+ACK.
    SynAck,
    /// Nothing to send.
    Nothing,
    /// Hand the segment's payload to the layer above.
    Deliver,
    /// Acknowledge the peer's FIN now and send our FIN a little later.
    FinAck,
    /// Forget the connection.
    Close,
}

/// What `TcpState::handle` hands back.
pub enum TcpControlMessage<'a> {
    /// The segment carries data for the layer above.
    Passthrough(Tcp<Ip<'a>>),
    /// The state machine answered itself: the segment to send (maybe empty).
    Intercepted(NetworkBuffer),
    /// The acknowledgement of the peer's FIN to send now, and the whole IP
    /// packet of our own FIN to send after a short delay.
    Closing(NetworkBuffer, NetworkBuffer),
    /// The connection is over and must be forgotten.
    Closed,
}

/// The sequence number of a segment.
pub open spec fn seg_seq(seg: Seq<u8>) -> u32 {
    be32(seg[4], seg[5], seg[6], seg[7])
}

/// The acknowledgement number of a segment.
pub open spec fn seg_ack(seg: Seq<u8>) -> u32 {
    be32(seg[8], seg[9], seg[10], seg[11])
}

/// The reaction to a segment with `flags` and `len` payload bytes in state `s`.
pub open spec fn reaction(s: State, flags: u8, len: nat) -> Reaction {
    match s {
        State::Listen => if has_flags(flags, SYN) {
            Reaction::SynAck
        } else {
            Reaction::Close
        },
        State::SynRecv => if has_flags(flags, ACK) {
            Reaction::Nothing
        } else {
            Reaction::Close
        },
        State::Established => if has_flags(flags, FIN) {
            Reaction::FinAck
        } else if len > 0 {
            Reaction::Deliver
        } else {
            Reaction::Nothing
        },
        State::LastAck => Reaction::Close,
    }
}

/// The state after a segment with `flags`, sequence number `seq` and `len`
/// payload bytes. Sequence numbers wrap modulo 2^32.
pub open spec fn next_state(st: TcpState, flags: u8, seq: u32, len: nat) -> TcpState {
    match st.state {
        State::Listen => if has_flags(flags, SYN) {
            TcpState {
                state: State::SynRecv,
                sequence: TcpSequences { client_sequence: seq.wrapping_add(1), server_sequence: 1 },
                ..st
            }
        } else {
            st
        },
        State::SynRecv => if has_flags(flags, ACK) {
            TcpState { state: State::Established, ..st }
        } else {
            st
        },
        State::Established => if has_flags(flags, FIN) {
            TcpState {
                state: State::LastAck,
                sequence: TcpSequences {
                    client_sequence: st.sequence.client_sequence.wrapping_add(1),
                    ..st.sequence
                },
                ..st
            }
        } else if len > 0 {
            TcpState {
                requires_ack: true,
                sequence: TcpSequences {
                    client_sequence: st.sequence.client_sequence.wrapping_add(len as u32),
                    ..st.sequence
                },
                ..st
            }
        } else {
            st
        },
        State::LastAck => st,
    }
}

/// The segment we send in reply to `seg` (which came inside the IP packet
/// `ip`): ports swapped, our sequence and acknowledgement numbers, the flags,
/// the data, and the checksum over the reply's pseudo-header.
pub open spec fn reply_bytes(ip: Seq<u8>, seg: Seq<u8>, seq: u32, ack: u32, flags: u8, data: Seq<u8>) -> Seq<u8> {
    let unsummed = (tcp_header_bytes(be16(seg[2], seg[3]), be16(seg[0], seg[1]), seq, ack) + data).update(
        13,
        flags,
    );
    checksummed(unsummed, 16, reply_pseudo_sum(ip, (20 + data.len()) as u16))
}

/// A reply is as long as its header and data.
pub broadcast proof fn lemma_reply_len(ip: Seq<u8>, seg: Seq<u8>, seq: u32, ack: u32, flags: u8, data: Seq<u8>)
    ensures
        (#[trigger] reply_bytes(ip, seg, seq, ack, flags, data)).len() == 20 + data.len(),
{
}

/// Our FIN, in a whole IP packet addressed back to the sender of `seg`.
pub open spec fn fin_packet_bytes(ip: Seq<u8>, seg: Seq<u8>, server: u32, client: u32) -> Seq<u8> {
    ip_packet(
        be32(ip[16], ip[17], ip[18], ip[19]),
        be32(ip[12], ip[13], ip[14], ip[15]),
        byte_of(Protocol::TCP),
        FIN_TTL,
        reply_bytes(ip, seg, server, client, FIN, Seq::empty()),
    )
}

/// The flags of an outbound data segment.
pub open spec fn send_flags(has_data: bool, ack: bool) -> u8 {
    if has_data && ack {
        0x18
    } else if has_data {
        PSH
    } else if ack {
        ACK
    } else {
        0
    }
}

/// A header-only reply to `msg` with the given flags.
fn reply(msg: &Tcp<Ip>, seq: u32, ack: u32, flags: u8) -> (r: NetworkBuffer)
    ensures
        r@ == reply_bytes(msg.parent().bytes(), msg.segment(), seq, ack, flags, Seq::empty()),
{
    let w = TcpHeaderWriter::new(msg.destination_port(), msg.source_port(), seq, ack);
    let ghost h = w.bytes();
    let w = w.set(TcpControl::from_bits_retain(flags));
    proof {
        assert(h[13] == 0);
        assert(0u8 | flags == flags) by (bit_vector);
        assert(h + Seq::<u8>::empty() =~= h);
    }
    w.calc_checksum(msg.inner()).to_buf()
}

impl TcpState {
    pub fn new() -> (r: TcpState)
        ensures
            r == initial_state(),
    {
        TcpState {
            state: State::Listen,
            sequence: TcpSequences { client_sequence: 0, server_sequence: 0 },
            requires_ack: false,
        }
    }

    /// Frames `data` for the peer of `msg`: our next sequence number, the
    /// peer's next one as acknowledgement, PSH where there is data, ACK
    /// where peer data awaits acknowledgement. Advances our sequence number
    /// by the data's length and clears the pending acknowledgement.
    pub fn send(&mut self, data: NetworkBuffer, msg: Tcp<Ip<'_>>) -> (r: NetworkBuffer)
        requires
            data@.len() + 40 <= 0xffff,
        ensures
            r@ == reply_bytes(
                msg.parent().bytes(),
                msg.segment(),
                old(self).sequence.server_sequence,
                old(self).sequence.client_sequence,
                send_flags(data@.len() > 0, old(self).requires_ack),
                data@,
            ),
            *final(self) == (TcpState {
                requires_ack: false,
                sequence: TcpSequences {
                    server_sequence: old(self).sequence.server_sequence.wrapping_add(
                        data@.len() as u32,
                    ),
                    ..old(self).sequence
                },
                ..*old(self)
            }),
    {
        let ghost d = data@;
        let buf = TcpHeaderWriter::new(
            msg.destination_port(),
            msg.source_port(),
            self.sequence.server_sequence,
            self.sequence.client_sequence,
        );
        let ghost h = buf.bytes();
        proof {
            assert(h[13] == 0);
        }
        let length: u32 = data.len() as u32;
        self.sequence.server_sequence = self.sequence.server_sequence.wrapping_add(length);
        let has_data: bool = !data.is_empty();
        let buf = if has_data {
            let b = buf.set(TcpControl::from_bits_retain(PSH)).data(data);
            proof {
                assert(0u8 | 8u8 == 8u8) by (bit_vector);
                assert(8u8 | 8u8 == 8u8) by (bit_vector);
                assert(b.bytes() =~= (h + d).update(13, PSH));
            }
            b
        } else {
            proof {
                assert(h =~= (h + d).update(13, 0));
            }
            buf
        };
        let buf = if self.requires_ack {
            self.requires_ack = false;
            let b = buf.set(TcpControl::from_bits_retain(ACK));
            proof {
                assert(8u8 | 16u8 == 0x18u8) by (bit_vector);
                assert(0u8 | 16u8 == 16u8) by (bit_vector);
                assert(b.bytes() =~= (h + d).update(13, send_flags(has_data, true)));
            }
            b
        } else {
            buf
        };
        buf.calc_checksum(msg.inner()).to_buf()
    }

    /// Handles one inbound segment: the reaction and the next state are
    /// those of `reaction` and `next_state`.
    pub fn handle<'a>(&mut self, msg: Tcp<Ip<'a>>) -> (r: TcpControlMessage<'a>)
        ensures
            *final(self) == next_state(*old(self), msg.segment()[13], seg_seq(msg.segment()), msg.payload().len()),
            match reaction(old(self).state, msg.segment()[13], msg.payload().len()) {
                Reaction::SynAck => r matches TcpControlMessage::Intercepted(b) && b@ == reply_bytes(
                    msg.parent().bytes(),
                    msg.segment(),
                    0,
                    final(self).sequence.client_sequence,
                    SYN | ACK,
                    Seq::empty(),
                ),
                Reaction::Nothing => r matches TcpControlMessage::Intercepted(b) && b@.len() == 0,
                Reaction::Deliver => r == TcpControlMessage::Passthrough(msg),
                Reaction::FinAck => r matches TcpControlMessage::Closing(ack, fin) && ack@ == reply_bytes(
                    msg.parent().bytes(),
                    msg.segment(),
                    old(self).sequence.server_sequence,
                    final(self).sequence.client_sequence,
                    ACK,
                    Seq::empty(),
                ) && fin@ == fin_packet_bytes(
                    msg.parent().bytes(),
                    msg.segment(),
                    old(self).sequence.server_sequence,
                    final(self).sequence.client_sequence,
                ),
                Reaction::Close => r matches TcpControlMessage::Closed,
            },
    {
        let control = msg.control();
        match self.state {
            State::Listen => {
                if control.contains(TcpControl::from_bits_retain(SYN)) {
                    self.state = State::SynRecv;
                    self.sequence.client_sequence = msg.sequence_number().wrapping_add(1);
                    self.sequence.server_sequence = 0;
                    let header = reply(
                        &msg,
                        self.sequence.server_sequence,
                        self.sequence.client_sequence,
                        SYN | ACK,
                    );
                    self.sequence.server_sequence = 1;
                    TcpControlMessage::Intercepted(header)
                } else {
                    TcpControlMessage::Closed
                }
            },
            State::SynRecv => {
                if control.contains(TcpControl::from_bits_retain(ACK)) {
                    // whether the ACK matches our SYN is not checked
                    self.state = State::Established;
                    TcpControlMessage::Intercepted(NetworkBuffer::empty())
                } else {
                    TcpControlMessage::Closed
                }
            },
            State::Established => {
                if control.contains(TcpControl::from_bits_retain(FIN)) {
                    self.sequence.client_sequence = self.sequence.client_sequence.wrapping_add(1);
                    let ack = reply(
                        &msg,
                        self.sequence.server_sequence,
                        self.sequence.client_sequence,
                        ACK,
                    );
                    self.state = State::LastAck;
                    let fin = self.fin_packet(&msg);
                    TcpControlMessage::Closing(ack, fin)
                } else {
                    let data_length: usize = msg.buf().len();
                    if data_length > 0 {
                        self.requires_ack = true;
                        self.sequence.client_sequence = self.sequence.client_sequence.wrapping_add(
                            data_length as u32,
                        );
                        TcpControlMessage::Passthrough(msg)
                    } else {
                        TcpControlMessage::Intercepted(NetworkBuffer::empty())
                    }
                }
            },
            State::LastAck => TcpControlMessage::Closed,
        }
    }

    /// Our FIN, in a whole IP packet addressed back to the peer of `msg`.
    fn fin_packet(&self, msg: &Tcp<Ip<'_>>) -> (r: NetworkBuffer)
        ensures
            r@ == fin_packet_bytes(
                msg.parent().bytes(),
                msg.segment(),
                self.sequence.server_sequence,
                self.sequence.client_sequence,
            ),
    {
        let tcp = reply(msg, self.sequence.server_sequence, self.sequence.client_sequence, FIN);
        IpHeaderWriter::new(msg.inner().destination(), msg.inner().source(), Protocol::TCP, FIN_TTL, tcp).to_buf()
    }
}

/// A new connection: listening, both sequence numbers zero.
pub open spec fn initial_state() -> TcpState {
    TcpState {
        state: State::Listen,
        sequence: TcpSequences { client_sequence: 0, server_sequence: 0 },
        requires_ack: false,
    }
}

/// The life of a connection: from a new connection, a SYN, the ACK of our
/// SYN, a PSH+ACK with a non-empty payload and a FIN+ACK take it through
/// Listen, SynRecv, Established, Established and LastAck, answering with
/// SYN+ACK, nothing, a hand-over of the data (whose reply will carry an ACK)
/// and the acknowledgement of the FIN, and the next segment closes it.
pub proof fn lemma_connection_lifecycle(seq1: u32, seq2: u32, seq3: u32, seq4: u32, len: nat)
    requires
        len > 0,
    ensures
        ({
            let s0 = initial_state();
            let s1 = next_state(s0, SYN, seq1, 0);
            let s2 = next_state(s1, ACK, seq2, 0);
            let s3 = next_state(s2, PSH | ACK, seq3, len);
            let s4 = next_state(s3, FIN | ACK, seq4, 0);
            &&& s0.state == State::Listen
            &&& reaction(s0.state, SYN, 0) == Reaction::SynAck
            &&& s1.state == State::SynRecv
            &&& s1.sequence.client_sequence == seq1.wrapping_add(1)
            &&& s1.sequence.server_sequence == 1
            &&& reaction(s1.state, ACK, 0) == Reaction::Nothing
            &&& s2.state == State::Established
            &&& reaction(s2.state, PSH | ACK, len) == Reaction::Deliver
            &&& s3.state == State::Established
            &&& s3.requires_ack
            &&& s3.sequence.client_sequence == s2.sequence.client_sequence.wrapping_add(len as u32)
            &&& reaction(s3.state, FIN | ACK, 0) == Reaction::FinAck
            &&& s4.state == State::LastAck
            &&& reaction(s4.state, 0, 0) == Reaction::Close
        }),
{
    assert(has_flags(2u8, 2u8)) by (bit_vector);
    assert(has_flags(16u8, 16u8)) by (bit_vector);
    assert((8u8 | 16u8) == 24u8) by (bit_vector);
    assert((1u8 | 16u8) == 17u8) by (bit_vector);
    assert(!has_flags(24u8, 1u8)) by (bit_vector);
    assert(has_flags(17u8, 1u8)) by (bit_vector);
}

} // verus!
