//! The inbound pipeline: the IP dispatcher and the ICMP, UDP, TCP and HTTP
//! handlers beneath it. Each takes a parsed view and returns the bytes to
//! send back, if any.
use vstd::prelude::*;

use crate::application::{Api, BodyDecoder};
use crate::connections::{lookup, quad_key, quad_of, TcpConnections};
use crate::application::{route_of, Route};
use crate::http::{bad_request_response, has_first_line, ok_response, parsed_second, HttpReq};
use crate::icmp::Icmp;
use crate::ip::{ip_packet, Ip, IpHeaderWriter};
use crate::proto::{byte_of, protocol_of, NetworkBuffer, Protocol, ProtocolBuffer, StackError};
use crate::state::{
    fin_packet_bytes, next_state, reaction, reply_bytes, send_flags, seg_seq, Reaction,
    TcpControlMessage, TcpSequences, TcpState,
};
use crate::tcp::{has_flags, tcp_header_length, tcp_valid, Tcp, TcpControl, ACK, PSH, SYN};
use crate::udp::{udp_header_bytes, Udp, UdpHeaderWriter};
use crate::wire::{be16, be32};

verus! {

broadcast use crate::state::lemma_reply_len;

/// The largest frame the stack takes in.
pub const MTU: usize = 1500;

/// "HTTP/1.1 404 OK", no headers, no body: the answer where no application
/// is attached.
pub open spec fn not_found_response() -> Seq<u8> {
    seq![72u8, 84, 84, 80, 47, 49, 46, 49, 32, 52, 48, 52, 32, 79, 75, 13, 10, 13, 10]
}

/// Drops ICMP messages after parsing them.
pub struct IcmpHandler;

impl IcmpHandler {
    pub fn handle<P: ProtocolBuffer>(&mut self, msg: P) -> (r: Result<NetworkBuffer, StackError>)
        ensures
            match r {
                Ok(b) => msg.payload().len() >= 2 && b@.len() == 0,
                Err(e) => msg.payload().len() < 2 && e == StackError::Truncated,
            },
    {
        match Icmp::parse(msg) {
            Ok(_icmp) => Ok(NetworkBuffer::empty()),
            Err(e) => Err(e),
        }
    }
}

/// The datagram that answers a UDP datagram: ports swapped, the same payload,
/// no checksum.
pub open spec fn udp_echo(d: Seq<u8>) -> Seq<u8> {
    let payload = d.subrange(8, d.len() as int);
    let h = udp_header_bytes(be16(d[2], d[3]), be16(d[0], d[1]));
    if payload.len() == 0 {
        h
    } else {
        (h + payload).update(4, ((8 + payload.len()) / 256) as u8).update(5, ((8 + payload.len()) % 256) as u8)
    }
}

/// Echoes UDP datagrams.
pub struct UdpHandler;

impl UdpHandler {
    pub fn handle<P: ProtocolBuffer>(&mut self, msg: P) -> (r: Result<NetworkBuffer, StackError>)
        requires
            msg.payload().len() <= MTU,
        ensures
            match r {
                Ok(b) => msg.payload().len() >= 8 && b@ == udp_echo(msg.payload()),
                Err(e) => msg.payload().len() < 8 && e == StackError::Truncated,
            },
    {
        let udp_msg = match Udp::parse(msg) {
            Ok(u) => u,
            Err(e) => {
                return Err(e);
            },
        };
        let writer = UdpHeaderWriter::new(udp_msg.destination_port(), udp_msg.source_port());
        let payload = NetworkBuffer::from_slice(udp_msg.buf());
        let buf = writer.data(payload).to_buf();
        Ok(buf)
    }
}

/// The 404 answer.
fn not_found() -> (r: NetworkBuffer)
    ensures
        r@ == not_found_response(),
{
    let response: [u8; 19] = [72u8, 84, 84, 80, 47, 49, 46, 49, 32, 52, 48, 52, 32, 79, 75, 13, 10, 13, 10];
    proof {
        assert(response@ =~= not_found_response());
    }
    NetworkBuffer::from_slice(response.as_slice())
}

/// Answers HTTP requests through the application, or with 404 where there
/// is none.
pub struct HttpHandler<D: BodyDecoder> {
    server: Option<Api<D>>,
}

/// The bytes that the HTTP handler may answer the request `text` with: 404
/// without an application; with one, 200, or 400 on the JSON route only.
pub open spec fn http_answer(b: Seq<u8>, has_server: bool, text: Seq<u8>) -> bool {
    if !has_server {
        b == not_found_response()
    } else if route_of(parsed_second(text)) == Route::Req {
        b == ok_response() || b == bad_request_response()
    } else {
        b == ok_response()
    }
}

impl<D: BodyDecoder> HttpHandler<D> {
    pub closed spec fn has_server(&self) -> bool {
        self.server is Some
    }

    pub fn new(h: Api<D>) -> (r: HttpHandler<D>)
        ensures
            r.has_server(),
    {
        HttpHandler { server: Some(h) }
    }

    pub fn none() -> (r: HttpHandler<D>)
        ensures
            !r.has_server(),
    {
        HttpHandler { server: None }
    }

    /// Parses the segment's payload as a request and answers it; hands the
    /// segment back.
    pub fn handle<P: ProtocolBuffer>(&mut self, msg: Tcp<P>) -> (r: Result<(NetworkBuffer, Tcp<P>), StackError>)
        ensures
            final(self).has_server() == old(self).has_server(),
            r is Ok <==> has_first_line(msg.payload()),
            match r {
                Ok((b, m)) => m == msg && http_answer(b@, old(self).has_server(), msg.payload()),
                Err(e) => e == StackError::RequestLine,
            },
    {
        let http = match HttpReq::parse(msg) {
            Ok(h) => h,
            Err(e) => {
                return Err(e);
            },
        };
        let buf = match &mut self.server {
            Some(server) => server.on_request(&http).to_buf(),
            None => not_found(),
        };
        Ok((buf, http.into_inner()))
    }
}

/// The reply to a segment that delivered data: it acknowledges the data and
/// carries `d`.
pub open spec fn data_reply(ip: Seq<u8>, seg: Seq<u8>, server: u32, client: u32, d: Seq<u8>) -> Seq<u8> {
    reply_bytes(ip, seg, server, client, send_flags(d.len() > 0, true), d)
}

/// The bytes of a TCP handler's result.
pub open spec fn output_view(r: Result<TcpOutput, StackError>) -> Result<(Seq<u8>, Option<Seq<u8>>), StackError> {
    match r {
        Ok((b, later)) => Ok(
            (
                b@,
                match later {
                    Some(l) => Some(l@),
                    None => None,
                },
            ),
        ),
        Err(e) => Err(e),
    }
}

/// What the TCP handler does with the segment `seg` inside the IP packet
/// `ip`, listening on `port`, with the connection table going from `before`
/// to `after` and the result `r`.
///
/// A segment that does not parse, or is for another port, changes nothing.
/// Otherwise the connection's state (a new one where there was none) takes
/// the segment: a connection that closes leaves the table, any other stays
/// with its next state. A segment that delivers data is answered with a
/// segment that acknowledges it and carries the HTTP answer where the segment
/// has PSH.
pub open spec fn tcp_handled(
    port: u16,
    has_server: bool,
    before: Map<u64, TcpState>,
    after: Map<u64, TcpState>,
    ip: Seq<u8>,
    seg: Seq<u8>,
    r: Result<(Seq<u8>, Option<Seq<u8>>), StackError>,
) -> bool {
    if !tcp_valid(seg) {
        &&& after == before
        &&& r == Err::<(Seq<u8>, Option<Seq<u8>>), StackError>(
            if seg.len() < 20 {
                StackError::Truncated
            } else {
                StackError::HeaderLength
            },
        )
    } else if be16(seg[2], seg[3]) != port {
        &&& after == before
        &&& r == Err::<(Seq<u8>, Option<Seq<u8>>), StackError>(StackError::WrongPort)
    } else {
        let q = quad_of(ip, seg);
        let st = lookup(before, q);
        let plen = (seg.len() - tcp_header_length(seg)) as nat;
        let next = next_state(st, seg[13], seg_seq(seg), plen);
        match reaction(st.state, seg[13], plen) {
            Reaction::Close => {
                &&& r matches Ok((b, later)) && b.len() == 0 && later is None
                &&& after == before.remove(quad_key(q))
            },
            Reaction::SynAck => {
                &&& r matches Ok((b, later)) && later is None && b == reply_bytes(
                    ip,
                    seg,
                    0,
                    next.sequence.client_sequence,
                    SYN | ACK,
                    Seq::empty(),
                )
                &&& after == before.insert(quad_key(q), next)
            },
            Reaction::Nothing => {
                &&& r matches Ok((b, later)) && b.len() == 0 && later is None
                &&& after == before.insert(quad_key(q), next)
            },
            Reaction::FinAck => {
                &&& r matches Ok((b, later)) && b == reply_bytes(
                    ip,
                    seg,
                    st.sequence.server_sequence,
                    next.sequence.client_sequence,
                    ACK,
                    Seq::empty(),
                ) && later == Some(
                    fin_packet_bytes(ip, seg, st.sequence.server_sequence, next.sequence.client_sequence),
                )
                &&& after == before.insert(quad_key(q), next)
            },
            Reaction::Deliver => match r {
                Ok((b, later)) => later is None && exists|d: Seq<u8>|
                    {
                        &&& (has_flags(seg[13], PSH) ==> http_answer(
                            d,
                            has_server,
                            seg.subrange(tcp_header_length(seg), seg.len() as int),
                        ))
                        &&& (!has_flags(seg[13], PSH) ==> d.len() == 0)
                        &&& b == #[trigger] data_reply(
                            ip,
                            seg,
                            next.sequence.server_sequence,
                            next.sequence.client_sequence,
                            d,
                        )
                        &&& after == before.insert(
                            quad_key(q),
                            TcpState {
                                requires_ack: false,
                                sequence: TcpSequences {
                                    server_sequence: next.sequence.server_sequence.wrapping_add(
                                        d.len() as u32,
                                    ),
                                    ..next.sequence
                                },
                                ..next
                            },
                        )
                    },
                Err(e) => e == StackError::RequestLine && has_flags(seg[13], PSH) && after
                    == before.insert(quad_key(q), next),
            },
        }
    }
}

/// What the TCP handler sends: a segment now (maybe empty), and maybe a whole
/// IP packet to send after a short delay.
pub type TcpOutput = (NetworkBuffer, Option<NetworkBuffer>);

/// Runs the TCP connections on the one port it listens on.
pub struct TcpHandler<D: BodyDecoder> {
    listen_port: u16,
    connections: TcpConnections,
    higher_level_handler: HttpHandler<D>,
}

impl<D: BodyDecoder> TcpHandler<D> {
    pub closed spec fn port(&self) -> u16 {
        self.listen_port
    }

    pub closed spec fn table(&self) -> Map<u64, TcpState> {
        self.connections.table()
    }

    pub closed spec fn has_server(&self) -> bool {
        self.higher_level_handler.has_server()
    }

    pub fn new(port: u16, handler: HttpHandler<D>) -> (r: TcpHandler<D>)
        ensures
            r.port() == port,
            r.table() == Map::<u64, crate::state::TcpState>::empty(),
            r.has_server() == handler.has_server(),
    {
        TcpHandler { listen_port: port, connections: TcpConnections::new(), higher_level_handler: handler }
    }

    /// The stored state of a connection, if any.
    pub fn connection(&self, quad: crate::connections::Quad) -> (r: Option<TcpState>)
        ensures
            r == (if self.table().contains_key(quad_key(quad)) {
                Some(self.table()[quad_key(quad)])
            } else {
                None
            }),
    {
        self.connections.lookup(quad)
    }

    /// The number of stored connections.
    pub fn connection_count(&self) -> (r: usize)
        ensures
            r == self.table().len(),
    {
        self.connections.len()
    }

    /// Handles one segment inside the IP packet `ip`, as `tcp_handled`
    /// describes.
    pub fn handle<'a>(&mut self, ip: Ip<'a>) -> (r: Result<TcpOutput, StackError>)
        ensures
            final(self).port() == old(self).port(),
            final(self).has_server() == old(self).has_server(),
            r matches Ok((b, _)) ==> b@.len() <= 20 + 47,
            tcp_handled(
                old(self).port(),
                old(self).has_server(),
                old(self).table(),
                final(self).table(),
                ip.bytes(),
                ip.payload(),
                output_view(r),
            ),
    {
        let tcp_header = match Tcp::parse(ip) {
            Ok(t) => t,
            Err(e) => {
                return Err(e);
            },
        };
        if tcp_header.destination_port() != self.listen_port {
            return Err(StackError::WrongPort);
        }
        let (mut connection, quad) = self.connections.get(&tcp_header);
        let msg = match connection.handle(tcp_header) {
            TcpControlMessage::Passthrough(tcp) => tcp,
            TcpControlMessage::Intercepted(buf) => {
                self.connections.update(quad, connection);
                proof {
                    assert(self.table() =~= old(self).table().insert(quad_key(quad), connection));
                }
                return Ok((buf, None));
            },
            TcpControlMessage::Closing(ack, fin) => {
                self.connections.update(quad, connection);
                proof {
                    assert(self.table() =~= old(self).table().insert(quad_key(quad), connection));
                }
                return Ok((ack, Some(fin)));
            },
            TcpControlMessage::Closed => {
                self.connections.remove(quad);
                proof {
                    assert(self.table() =~= old(self).table().remove(quad_key(quad)));
                }
                return Ok((NetworkBuffer::empty(), None));
            },
        };
        self.connections.update(quad, connection);
        proof {
            assert(self.table() =~= old(self).table().insert(quad_key(quad), connection));
        }
        let (buf, msg) = if msg.control().contains(TcpControl::from_bits_retain(PSH)) {
            match self.higher_level_handler.handle(msg) {
                Ok(answer) => answer,
                Err(e) => {
                    return Err(e);
                },
            }
        } else {
            (NetworkBuffer::empty(), msg)
        };
        let ghost d = buf@;
        let ghost next = connection;
        let out = connection.send(buf, msg);
        self.connections.update(quad, connection);
        proof {
            assert(self.table() =~= old(self).table().insert(quad_key(quad), connection));
            assert(out@ == data_reply(
                ip.bytes(),
                ip.payload(),
                next.sequence.server_sequence,
                next.sequence.client_sequence,
                d,
            ));
        }
        Ok((out, None))
    }
}

/// The reply to the IP packet `ip` around `inner`: addresses swapped, the
/// same protocol and TTL; nothing where `inner` is empty.
pub open spec fn wrapped_reply(ip: Seq<u8>, inner: Seq<u8>) -> Seq<u8> {
    if inner.len() == 0 {
        Seq::empty()
    } else {
        ip_packet(be32(ip[16], ip[17], ip[18], ip[19]), be32(ip[12], ip[13], ip[14], ip[15]), ip[9], ip[8], inner)
    }
}

/// A TCP handler's result with its answer wrapped for the IP packet `ip`.
pub open spec fn wrapped_output(
    ip: Seq<u8>,
    r: Result<(Seq<u8>, Option<Seq<u8>>), StackError>,
) -> Result<(Seq<u8>, Option<Seq<u8>>), StackError> {
    match r {
        Ok((b, later)) => Ok((wrapped_reply(ip, b), later)),
        Err(e) => Err(e),
    }
}

/// Wraps a sub-handler's answer in an IP header addressed back to the sender.
pub fn wrap_reply(ip: &Ip, inner: NetworkBuffer) -> (r: NetworkBuffer)
    requires
        inner@.len() + 20 <= 0xffff,
    ensures
        r@ == wrapped_reply(ip.bytes(), inner@),
{
    if inner.is_empty() {
        return NetworkBuffer::empty();
    }
    let ttl: u8 = ip.ttl();
    let src: u32 = ip.source();
    let dest: u32 = ip.destination();
    let protocol = ip.protocol();
    proof {
        assert(byte_of(protocol_of(ip.bytes()[9])) == ip.bytes()[9]);
    }
    IpHeaderWriter::new(dest, src, protocol, ttl, inner).to_buf()
}

/// Dispatches inbound IP packets to the ICMP, UDP and TCP handlers.
pub struct IpHandler<D: BodyDecoder> {
    pub icmp: IcmpHandler,
    pub udp: UdpHandler,
    pub tcp: TcpHandler<D>,
}

impl<D: BodyDecoder> IpHandler<D> {
    /// Handles one packet: the answer of the sub-handler for its protocol,
    /// wrapped in an IP header back to the sender, and anything the TCP
    /// handler wants sent later. UDP is echoed; ICMP and other protocols get
    /// no answer.
    pub fn handle(&mut self, ip_header: Ip) -> (r: Result<TcpOutput, StackError>)
        requires
            ip_header.bytes().len() <= MTU,
        ensures
            final(self).tcp.port() == old(self).tcp.port(),
            final(self).tcp.has_server() == old(self).tcp.has_server(),
            protocol_of(ip_header.bytes()[9]) != Protocol::TCP ==> final(self).tcp.table() == old(self).tcp.table(),
            protocol_of(ip_header.bytes()[9]) == Protocol::UDP ==> match r {
                Ok((b, later)) => ip_header.payload().len() >= 8 && later is None && b@ == wrapped_reply(
                    ip_header.bytes(),
                    udp_echo(ip_header.payload()),
                ),
                Err(e) => ip_header.payload().len() < 8 && e == StackError::Truncated,
            },
            protocol_of(ip_header.bytes()[9]) == Protocol::ICMP ==> match r {
                Ok((b, later)) => ip_header.payload().len() >= 2 && later is None && b@.len() == 0,
                Err(e) => ip_header.payload().len() < 2 && e == StackError::Truncated,
            },
            protocol_of(ip_header.bytes()[9]) != Protocol::TCP && protocol_of(ip_header.bytes()[9]) != Protocol::UDP
                && protocol_of(ip_header.bytes()[9]) != Protocol::ICMP ==> (r matches Ok((b, later)) && later is None
                && b@.len() == 0),
            protocol_of(ip_header.bytes()[9]) == Protocol::TCP ==> exists|t: Result<(Seq<u8>, Option<Seq<u8>>), StackError>|
                #[trigger] tcp_handled(
                    old(self).tcp.port(),
                    old(self).tcp.has_server(),
                    old(self).tcp.table(),
                    final(self).tcp.table(),
                    ip_header.bytes(),
                    ip_header.payload(),
                    t,
                ) && output_view(r) == wrapped_output(ip_header.bytes(), t),
    {
        let protocol = ip_header.protocol();
        if protocol == Protocol::TCP {
            match self.tcp.handle(ip_header) {
                Ok((inner, later)) => Ok((wrap_reply(&ip_header, inner), later)),
                Err(e) => Err(e),
            }
        } else if protocol == Protocol::UDP {
            let inner = self.udp.handle(ip_header)?;
            Ok((wrap_reply(&ip_header, inner), None))
        } else if protocol == Protocol::ICMP {
            let _inner = self.icmp.handle(ip_header)?;
            Ok((NetworkBuffer::empty(), None))
        } else {
            Ok((NetworkBuffer::empty(), None))
        }
    }
}

} // verus!
