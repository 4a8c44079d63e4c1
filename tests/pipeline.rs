use netstack::application::{Api, BodyDecoder};
use netstack::connections::Quad;
use netstack::ip::Ip;
use netstack::network::{HttpHandler, IcmpHandler, IpHandler, TcpHandler, UdpHandler};
use netstack::proto::StackError;
use netstack::state::{State, TcpState};
use netstack::tcp::{ACK, FIN, PSH, SYN};

struct JsonPair;

impl BodyDecoder for JsonPair {
    fn decode(&mut self, body: &[u8]) -> bool {
        match serde_json::from_slice::<serde_json::Value>(body) {
            Ok(v) => v.get("key1").map_or(false, |k| k.is_string()) && v.get("key2").map_or(false, |k| k.is_string()),
            Err(_) => false,
        }
    }
}

const CLIENT: [u8; 4] = [10, 0, 0, 2];
const SERVER: [u8; 4] = [10, 0, 0, 1];
const CLIENT_PORT: u16 = 40000;

fn stack() -> IpHandler<JsonPair> {
    IpHandler {
        icmp: IcmpHandler,
        udp: UdpHandler,
        tcp: TcpHandler::new(3000, HttpHandler::new(Api::new(JsonPair))),
    }
}

fn ip_frame(proto: u8, payload: &[u8]) -> Vec<u8> {
    let mut f = vec![0x45, 0];
    f.extend_from_slice(&((20 + payload.len()) as u16).to_be_bytes());
    f.extend_from_slice(&[0, 0, 0x40, 0, 64, proto, 0, 0]);
    f.extend_from_slice(&CLIENT);
    f.extend_from_slice(&SERVER);
    f.extend_from_slice(payload);
    f
}

fn tcp_frame(dport: u16, flags: u8, seq: u32, ack: u32, payload: &[u8]) -> Vec<u8> {
    let mut s = Vec::new();
    s.extend_from_slice(&CLIENT_PORT.to_be_bytes());
    s.extend_from_slice(&dport.to_be_bytes());
    s.extend_from_slice(&seq.to_be_bytes());
    s.extend_from_slice(&ack.to_be_bytes());
    s.extend_from_slice(&[0x50, flags, 0xff, 0xff, 0, 0, 0, 0]);
    s.extend_from_slice(payload);
    ip_frame(6, &s)
}

fn independent_sum(parts: &[&[u8]]) -> u16 {
    let mut sum: u32 = 0;
    for bytes in parts {
        for chunk in bytes.chunks(2) {
            let word = if chunk.len() == 2 { u16::from_be_bytes([chunk[0], chunk[1]]) } else { u16::from_be_bytes([chunk[0], 0]) };
            sum += word as u32;
            sum = (sum & 0xffff) + (sum >> 16);
        }
    }
    sum as u16
}

struct Seg {
    sport: u16,
    dport: u16,
    seq: u32,
    ack: u32,
    flags: u8,
    window: u16,
    payload: Vec<u8>,
}

/// Decodes an outbound frame and checks both checksums.
fn decode(frame: &[u8]) -> Seg {
    assert_eq!(frame[0], 0x45);
    assert_eq!(&frame[12..16], &SERVER);
    assert_eq!(&frame[16..20], &CLIENT);
    assert_eq!(frame[9], 6);
    assert_eq!(u16::from_be_bytes([frame[2], frame[3]]) as usize, frame.len());
    assert_eq!(independent_sum(&[&frame[..20]]), 0xffff);
    let seg = &frame[20..];
    let len = (seg.len() as u16).to_be_bytes();
    assert_eq!(independent_sum(&[&SERVER, &CLIENT, &[0, 6], &len, seg]), 0xffff);
    Seg {
        sport: u16::from_be_bytes([seg[0], seg[1]]),
        dport: u16::from_be_bytes([seg[2], seg[3]]),
        seq: u32::from_be_bytes([seg[4], seg[5], seg[6], seg[7]]),
        ack: u32::from_be_bytes([seg[8], seg[9], seg[10], seg[11]]),
        flags: seg[13],
        window: u16::from_be_bytes([seg[14], seg[15]]),
        payload: seg[20..].to_vec(),
    }
}

fn send(stack: &mut IpHandler<JsonPair>, frame: &[u8]) -> Result<(Vec<u8>, Option<Vec<u8>>), StackError> {
    let ip = Ip::parse(frame).unwrap();
    stack.handle(ip).map(|(now, later)| (now.into_vec(), later.map(|l| l.into_vec())))
}

fn quad() -> Quad {
    Quad(u32::from_be_bytes(CLIENT), CLIENT_PORT)
}

fn handshake(stack: &mut IpHandler<JsonPair>) {
    let (out, _) = send(stack, &tcp_frame(3000, SYN, 1000, 0, b"")).unwrap();
    assert!(!out.is_empty());
    let (out, _) = send(stack, &tcp_frame(3000, ACK, 1001, 1, b"")).unwrap();
    assert!(out.is_empty());
}

#[test]
fn syn_is_answered_with_syn_ack() {
    let mut s = stack();
    let (out, later) = send(&mut s, &tcp_frame(3000, SYN, 1000, 0, b"")).unwrap();
    assert!(later.is_none());
    let seg = decode(&out);
    assert_eq!(seg.sport, 3000);
    assert_eq!(seg.dport, 40000);
    assert_eq!(seg.flags, SYN | ACK);
    assert_eq!(seg.seq, 0);
    assert_eq!(seg.ack, 1001);
    assert_eq!(seg.window, 1024);
    assert!(seg.payload.is_empty());
    assert_eq!(s.tcp.connection(quad()).unwrap().state, State::SynRecv);
}

#[test]
fn ack_of_syn_establishes_silently() {
    let mut s = stack();
    handshake(&mut s);
    let st = s.tcp.connection(quad()).unwrap();
    assert_eq!(st.state, State::Established);
    assert_eq!(st.sequence.client_sequence, 1001);
    assert_eq!(st.sequence.server_sequence, 1);
}

#[test]
fn request_is_answered_with_response() {
    let mut s = stack();
    handshake(&mut s);
    let request = b"GET /data HTTP/1.1\r\n\r\n";
    let (out, later) = send(&mut s, &tcp_frame(3000, PSH | ACK, 1001, 1, request)).unwrap();
    assert!(later.is_none());
    let seg = decode(&out);
    assert_eq!(seg.flags, PSH | ACK);
    assert!(seg.payload.starts_with(b"HTTP/1.1 200 OK\r\n"));
    assert_eq!(seg.seq, 1);
    assert_eq!(seg.ack, 1001 + 22);
    let st = s.tcp.connection(quad()).unwrap();
    assert_eq!(st.sequence.server_sequence, 1 + seg.payload.len() as u32);
    assert!(!st.requires_ack);
}

#[test]
fn json_route_good_and_malformed() {
    let mut s = stack();
    handshake(&mut s);
    let good = b"POST /req HTTP/1.1\r\nContent-Length: 30\r\n\r\n{\"key1\":\"a\",\"key2\":\"b\"}";
    let (out, _) = send(&mut s, &tcp_frame(3000, PSH | ACK, 1001, 1, good)).unwrap();
    let seg = decode(&out);
    assert!(seg.payload.starts_with(b"HTTP/1.1 200 OK\r\n"));
    let next_seq = 1001 + good.len() as u32;
    let bad = b"POST /req HTTP/1.1\r\nContent-Length: 30\r\n\r\n{\"key1\":";
    let (out, _) = send(&mut s, &tcp_frame(3000, PSH | ACK, next_seq, seg.seq + seg.payload.len() as u32, bad)).unwrap();
    let seg = decode(&out);
    assert!(seg.payload.starts_with(b"HTTP/1.1 400 "));
}

#[test]
fn teardown_acks_then_fins_then_closes() {
    let mut s = stack();
    handshake(&mut s);
    let (out, _) = send(&mut s, &tcp_frame(3000, PSH | ACK, 1001, 1, b"GET /data HTTP/1.1\r\n\r\n")).unwrap();
    let server_seq = decode(&out).seq + 38;
    let (ack, fin) = send(&mut s, &tcp_frame(3000, FIN | ACK, 1023, server_seq, b"")).unwrap();
    let ack = decode(&ack);
    assert_eq!(ack.flags, ACK);
    assert_eq!(ack.ack, 1024);
    assert_eq!(ack.seq, server_seq);
    let fin = decode(&fin.expect("a FIN to send later"));
    assert_eq!(fin.flags, FIN);
    assert_eq!(fin.seq, server_seq);
    assert_eq!(fin.ack, 1024);
    assert_eq!(s.tcp.connection(quad()).unwrap().state, State::LastAck);
    let (out, later) = send(&mut s, &tcp_frame(3000, ACK, 1024, server_seq + 1, b"")).unwrap();
    assert!(out.is_empty());
    assert!(later.is_none());
    assert!(s.tcp.connection(quad()).is_none());
    assert_eq!(s.tcp.connection_count(), 0);
}

#[test]
fn closed_connection_starts_over_in_listen() {
    let mut s = stack();
    let (out, _) = send(&mut s, &tcp_frame(3000, ACK, 5, 0, b"")).unwrap();
    assert!(out.is_empty());
    assert!(s.tcp.connection(quad()).is_none());
    let (out, _) = send(&mut s, &tcp_frame(3000, SYN, 77, 0, b"")).unwrap();
    assert_eq!(decode(&out).ack, 78);
}

#[test]
fn wrong_port_is_dropped_without_state() {
    let mut s = stack();
    let r = send(&mut s, &tcp_frame(3001, SYN, 1000, 0, b""));
    assert_eq!(r.err(), Some(StackError::WrongPort));
    assert_eq!(s.tcp.connection_count(), 0);
}

#[test]
fn lifecycle_visits_each_state() {
    let mut s = stack();
    assert!(s.tcp.connection(quad()).is_none());
    send(&mut s, &tcp_frame(3000, SYN, 9, 0, b"")).unwrap();
    assert_eq!(s.tcp.connection(quad()).unwrap().state, State::SynRecv);
    send(&mut s, &tcp_frame(3000, ACK, 10, 1, b"")).unwrap();
    assert_eq!(s.tcp.connection(quad()).unwrap().state, State::Established);
    send(&mut s, &tcp_frame(3000, PSH | ACK, 10, 1, b"GET / HTTP/1.1\r\n\r\n")).unwrap();
    assert_eq!(s.tcp.connection(quad()).unwrap().state, State::Established);
    let (_, later) = send(&mut s, &tcp_frame(3000, FIN | ACK, 28, 39, b"")).unwrap();
    assert!(later.is_some());
    assert_eq!(s.tcp.connection(quad()).unwrap().state, State::LastAck);
}

#[test]
fn sequence_numbers_wrap() {
    let mut s = stack();
    let (out, _) = send(&mut s, &tcp_frame(3000, SYN, u32::MAX, 0, b"")).unwrap();
    assert_eq!(decode(&out).ack, 0);
}

#[test]
fn data_without_psh_is_acknowledged_empty() {
    let mut s = stack();
    handshake(&mut s);
    let (out, _) = send(&mut s, &tcp_frame(3000, ACK, 1001, 1, b"abc")).unwrap();
    let seg = decode(&out);
    assert_eq!(seg.flags, ACK);
    assert!(seg.payload.is_empty());
    assert_eq!(seg.ack, 1004);
}

#[test]
fn no_application_answers_404() {
    let mut s: IpHandler<JsonPair> = IpHandler {
        icmp: IcmpHandler,
        udp: UdpHandler,
        tcp: TcpHandler::new(3000, HttpHandler::none()),
    };
    handshake(&mut s);
    let (out, _) = send(&mut s, &tcp_frame(3000, PSH | ACK, 1001, 1, b"GET /data HTTP/1.1\r\n\r\n")).unwrap();
    assert_eq!(decode(&out).payload, b"HTTP/1.1 404 OK\r\n\r\n".to_vec());
}

#[test]
fn malformed_request_is_an_error() {
    let mut s = stack();
    handshake(&mut s);
    let r = send(&mut s, &tcp_frame(3000, PSH | ACK, 1001, 1, b"garbage"));
    assert_eq!(r.err(), Some(StackError::RequestLine));
}

#[test]
fn udp_is_echoed_and_icmp_dropped() {
    let mut s = stack();
    let mut d = Vec::new();
    d.extend_from_slice(&5353u16.to_be_bytes());
    d.extend_from_slice(&53u16.to_be_bytes());
    d.extend_from_slice(&[0, 12, 0, 0]);
    d.extend_from_slice(b"ping");
    let (out, later) = send(&mut s, &ip_frame(17, &d)).unwrap();
    assert!(later.is_none());
    assert_eq!(&out[12..16], &SERVER);
    assert_eq!(&out[16..20], &CLIENT);
    assert_eq!(out[9], 17);
    assert_eq!(independent_sum(&[&out[..20]]), 0xffff);
    assert_eq!(&out[20..], &[0, 53, 0x14, 0xe9, 0, 12, 0, 0, b'p', b'i', b'n', b'g']);
    let (out, _) = send(&mut s, &ip_frame(1, &[8, 0, 0, 0])).unwrap();
    assert!(out.is_empty());
    let (out, _) = send(&mut s, &ip_frame(47, &[1, 2, 3])).unwrap();
    assert!(out.is_empty());
    assert_eq!(send(&mut s, &ip_frame(17, &[1, 2])).err(), Some(StackError::Truncated));
}

#[test]
fn state_machine_direct() {
    let st = TcpState::new();
    assert_eq!(st.state, State::Listen);
    assert_eq!(st.sequence.client_sequence, 0);
    assert!(!st.requires_ack);
}
