use netstack::checksum::{add_slice, ones_complement};
use netstack::icmp::Icmp;
use netstack::ip::{Ip, IpHeaderWriter};
use netstack::proto::{NetworkBuffer, Protocol, ProtocolBuffer, StackError};
use netstack::tcp::{Tcp, TcpControl, TcpHeaderWriter, ACK, FIN, PSH, SYN};
use netstack::udp::{Udp, UdpHeaderWriter};

/// One's-complement sum of big-endian words, folded, not complemented.
fn independent_sum(parts: &[&[u8]]) -> u16 {
    let mut sum: u32 = 0;
    for bytes in parts {
        for chunk in bytes.chunks(2) {
            let word = if chunk.len() == 2 {
                u16::from_be_bytes([chunk[0], chunk[1]])
            } else {
                u16::from_be_bytes([chunk[0], 0])
            };
            sum += word as u32;
            sum = (sum & 0xffff) + (sum >> 16);
        }
    }
    sum as u16
}

/// The residual a receiver computes over a TCP or UDP segment sent from
/// `src` to `dst`: zero (0xffff before complement) when the checksum is right.
fn residual(src: [u8; 4], dst: [u8; 4], proto: u8, segment: &[u8]) -> u16 {
    let len = (segment.len() as u16).to_be_bytes();
    !independent_sum(&[&src, &dst, &[0, proto], &len, segment])
}

fn ip_buf(src: [u8; 4], dst: [u8; 4], proto: Protocol, data: NetworkBuffer) -> NetworkBuffer {
    IpHeaderWriter::new(u32::from_be_bytes(src), u32::from_be_bytes(dst), proto, 64, data).to_buf()
}

#[test]
fn can_serialize_tcp_header() {
    const S_ADDR: [u8; 4] = [10, 100, 0, 5];
    const D_ADDR: [u8; 4] = [10, 100, 0, 10];
    const SP: u16 = 3000;
    const DP: u16 = 3001;
    const SN: u32 = 5;
    const AN: u32 = 10;

    let ip_buf = IpHeaderWriter::new(
        u32::from_be_bytes(S_ADDR),
        u32::from_be_bytes(D_ADDR),
        Protocol::TCP,
        64,
        NetworkBuffer::empty(),
    )
    .to_buf();
    let ip = Ip::parse(ip_buf.as_slice()).unwrap();

    let tcp = TcpHeaderWriter::new(SP, DP, SN, AN)
        .set(TcpControl::from_bits_retain(ACK))
        .calc_checksum(&ip)
        .to_buf();

    let mut tcp2 = etherparse::TcpHeader::new(SP, DP, SN, 1024);
    tcp2.acknowledgment_number = AN;
    tcp2.ack = true;
    tcp2.checksum = tcp2
        .calc_checksum_ipv4(
            &etherparse::Ipv4Header::new(0, 64, etherparse::IpNumber::TCP, S_ADDR, D_ADDR).unwrap(),
            &[],
        )
        .unwrap();

    let mut buf = Vec::new();
    tcp2.write(&mut buf).unwrap();

    assert_eq!(tcp.as_slice(), buf.as_slice())
}

#[test]
fn ip_header_matches_independent_encoder() {
    let src = [10u8, 100, 0, 5];
    let dst = [10u8, 100, 0, 10];
    let data = NetworkBuffer::from_slice(&[0u8; 20]);
    let out = ip_buf(src, dst, Protocol::TCP, data);
    let mut expected_header = etherparse::Ipv4Header::new(20, 64, etherparse::IpNumber::TCP, src, dst).unwrap();
    expected_header.header_checksum = expected_header.calc_header_checksum();
    let mut expected = Vec::new();
    expected_header.write(&mut expected).unwrap();
    assert_eq!(&out.as_slice()[..20], expected.as_slice());
    assert_eq!(out.len(), 40);
    assert_eq!(&out.as_slice()[2..4], &[0, 40]);
}

#[test]
fn ip_header_checksum_verifies() {
    for (i, ttl) in [1u8, 64, 255].iter().enumerate() {
        let data = NetworkBuffer::from_slice(&vec![7u8; i * 13]);
        let w = IpHeaderWriter::new(0x0a00_0001, 0xc0a8_0102 + i as u32, Protocol::UDP, *ttl, data);
        assert_eq!(w.checksum(), 0);
        let out = w.to_buf();
        assert_eq!(independent_sum(&[&out.as_slice()[..20]]), 0xffff);
        assert_eq!(ones_complement(add_slice(0, &out.as_slice()[..20])), 0);
    }
}

#[test]
fn ip_parse_reads_fields() {
    let out = ip_buf([10, 0, 0, 2], [10, 0, 0, 1], Protocol::ICMP, NetworkBuffer::from_slice(&[8, 0, 1, 2]));
    let ip = Ip::parse(out.as_slice()).unwrap();
    assert_eq!(ip.header_length(), 20);
    assert_eq!(ip.total_length(), 24);
    assert_eq!(ip.ttl(), 64);
    assert_eq!(ip.protocol(), Protocol::ICMP);
    assert_eq!(ip.source(), 0x0a00_0002);
    assert_eq!(ip.source2(), [10, 0, 0, 2]);
    assert_eq!(ip.destination(), 0x0a00_0001);
    assert_eq!(ip.destination2(), [10, 0, 0, 1]);
    assert_eq!(ip.checksum(), u16::from_be_bytes([out.as_slice()[10], out.as_slice()[11]]));
    assert_eq!(ip.remainder(), &[8, 0, 1, 2]);
    assert_eq!(ip.buf(), &[8, 0, 1, 2]);
}

#[test]
fn ip_parse_rejects_short_and_overlong_headers() {
    assert_eq!(Ip::parse(&[0x45u8; 19]).err(), Some(StackError::Truncated));
    let mut bytes = [0u8; 20];
    bytes[0] = 0x4f;
    assert_eq!(Ip::parse(&bytes).err(), Some(StackError::HeaderLength));
    bytes[0] = 0x45;
    assert!(Ip::parse(&bytes).is_ok());
}

#[test]
fn protocol_numbers_round_trip() {
    for b in 0..=255u8 {
        let p = Protocol::from(b);
        assert_eq!(u8::from(p), b);
    }
    assert_eq!(Protocol::from(1), Protocol::ICMP);
    assert_eq!(Protocol::from(3), Protocol::GatewayToGateway);
    assert_eq!(Protocol::from(6), Protocol::TCP);
    assert_eq!(Protocol::from(17), Protocol::UDP);
    assert_eq!(Protocol::from(99), Protocol::Unknown(99));
}

#[test]
fn tcp_writer_fields_and_flags() {
    let w = TcpHeaderWriter::new(3000, 40000, 7, 1001)
        .set(TcpControl::from_bits_retain(SYN))
        .set(TcpControl::from_bits_retain(ACK));
    let b = w.to_buf();
    let bytes = b.as_slice();
    assert_eq!(bytes.len(), 20);
    assert_eq!(&bytes[0..4], &[0x0b, 0xb8, 0x9c, 0x40]);
    assert_eq!(&bytes[4..8], &7u32.to_be_bytes());
    assert_eq!(&bytes[8..12], &1001u32.to_be_bytes());
    assert_eq!(bytes[12], 0x50);
    assert_eq!(bytes[13], SYN | ACK);
    assert_eq!(&bytes[14..16], &1024u16.to_be_bytes());
    assert_eq!(&bytes[16..20], &[0, 0, 0, 0]);
}

#[test]
fn tcp_data_sets_psh_only_when_non_empty() {
    let empty = TcpHeaderWriter::new(1, 2, 3, 4).data(NetworkBuffer::empty()).to_buf();
    assert_eq!(empty.as_slice()[13], 0);
    assert_eq!(empty.len(), 20);
    let full = TcpHeaderWriter::new(1, 2, 3, 4).data(NetworkBuffer::from_slice(b"abc")).to_buf();
    assert_eq!(full.as_slice()[13], PSH);
    assert_eq!(&full.as_slice()[20..], b"abc");
}

#[test]
fn tcp_checksum_residual_is_zero() {
    let src = [10u8, 0, 0, 2];
    let dst = [10u8, 0, 0, 1];
    let inbound = ip_buf(src, dst, Protocol::TCP, NetworkBuffer::empty());
    let ip = Ip::parse(inbound.as_slice()).unwrap();
    for payload in [&b""[..], b"x", b"hello world", b"HTTP/1.1 200 OK\r\n\r\n"] {
        let seg = TcpHeaderWriter::new(3000, 40000, 1, 1023)
            .set(TcpControl::from_bits_retain(ACK))
            .data(NetworkBuffer::from_slice(payload))
            .calc_checksum(&ip)
            .to_buf();
        // the reply goes from dst back to src
        assert_eq!(residual(dst, src, 6, seg.as_slice()), 0);
        assert_ne!(&seg.as_slice()[16..18], &[0, 0]);
    }
}

#[test]
fn tcp_checksum_ignores_a_stale_checksum() {
    let inbound = ip_buf([1, 2, 3, 4], [5, 6, 7, 8], Protocol::TCP, NetworkBuffer::empty());
    let ip = Ip::parse(inbound.as_slice()).unwrap();
    let once = TcpHeaderWriter::new(9, 10, 11, 12).calc_checksum(&ip);
    let once_bytes = TcpHeaderWriter::new(9, 10, 11, 12).calc_checksum(&ip).to_buf();
    let twice = once.calc_checksum(&ip).to_buf();
    assert_eq!(once_bytes.as_slice(), twice.as_slice());
}

#[test]
fn tcp_view_reads_fields() {
    let seg = TcpHeaderWriter::new(40000, 3000, 1000, 5)
        .set(TcpControl::from_bits_retain(FIN | ACK))
        .data(NetworkBuffer::from_slice(b"payload"))
        .to_buf();
    let packet = ip_buf([10, 0, 0, 2], [10, 0, 0, 1], Protocol::TCP, seg);
    let ip = Ip::parse(packet.as_slice()).unwrap();
    let tcp = Tcp::parse(ip).ok().unwrap();
    assert_eq!(tcp.source_port(), 40000);
    assert_eq!(tcp.destination_port(), 3000);
    assert_eq!(tcp.sequence_number(), 1000);
    assert_eq!(tcp.ack_number(), 5);
    assert_eq!(tcp.header_length(), 20);
    assert_eq!(tcp.control().bits(), FIN | ACK | PSH);
    assert!(tcp.control().contains(TcpControl::from_bits_retain(FIN)));
    assert!(!tcp.control().contains(TcpControl::from_bits_retain(SYN)));
    assert_eq!(tcp.window(), 1024);
    assert_eq!(tcp.urgent_pointer(), 0);
    assert_eq!(tcp.buf(), b"payload");
    assert_eq!(tcp.inner().source(), 0x0a00_0002);
}

#[test]
fn tcp_parse_rejects_bad_offsets() {
    let short = ip_buf([1, 1, 1, 1], [2, 2, 2, 2], Protocol::TCP, NetworkBuffer::from_slice(&[0u8; 19]));
    let ip = Ip::parse(short.as_slice()).unwrap();
    assert_eq!(Tcp::parse(ip).err(), Some(StackError::Truncated));
    let mut seg = [0u8; 20];
    seg[12] = 0x60;
    let long = ip_buf([1, 1, 1, 1], [2, 2, 2, 2], Protocol::TCP, NetworkBuffer::from_slice(&seg));
    let ip = Ip::parse(long.as_slice()).unwrap();
    assert_eq!(Tcp::parse(ip).err(), Some(StackError::HeaderLength));
}

#[test]
fn tcp_control_union() {
    let c = TcpControl::from_bits_retain(SYN).union(TcpControl::from_bits_retain(ACK));
    assert_eq!(c.bits(), 0x12);
}

#[test]
fn udp_writer_sets_length_and_checksum_at_six() {
    let inbound = ip_buf([10, 0, 0, 2], [10, 0, 0, 1], Protocol::UDP, NetworkBuffer::empty());
    let ip = Ip::parse(inbound.as_slice()).unwrap();
    let out = UdpHeaderWriter::new(53, 5353)
        .data(NetworkBuffer::from_slice(b"ping"))
        .calc_checksum(&ip)
        .to_buf();
    let b = out.as_slice();
    assert_eq!(&b[0..6], &[0, 53, 0x14, 0xe9, 0, 12]);
    assert_eq!(&b[8..], b"ping");
    assert_eq!(residual([10, 0, 0, 1], [10, 0, 0, 2], 17, b), 0);
    assert_ne!(&b[6..8], &[0, 0]);
}

#[test]
fn udp_zero_checksum_is_sent_as_all_ones() {
    let inbound = ip_buf([10, 0, 0, 2], [10, 0, 0, 1], Protocol::UDP, NetworkBuffer::empty());
    let ip = Ip::parse(inbound.as_slice()).unwrap();
    let mut found = false;
    for port in 0..=u16::MAX {
        let out = UdpHeaderWriter::new(port, 7).calc_checksum(&ip).to_buf();
        let b = out.as_slice();
        assert_eq!(residual([10, 0, 0, 1], [10, 0, 0, 2], 17, b), 0);
        assert_ne!(&b[6..8], &[0, 0]);
        if b[6..8] == [0xff, 0xff] {
            found = true;
        }
    }
    assert!(found);
}

#[test]
fn udp_view_reads_fields() {
    let d = UdpHeaderWriter::new(1234, 53).data(NetworkBuffer::from_slice(b"q")).to_buf();
    let packet = ip_buf([10, 0, 0, 2], [10, 0, 0, 1], Protocol::UDP, d);
    let ip = Ip::parse(packet.as_slice()).unwrap();
    let udp = Udp::parse(ip).ok().unwrap();
    assert_eq!(udp.source_port(), 1234);
    assert_eq!(udp.destination_port(), 53);
    assert_eq!(udp.length(), 9);
    assert_eq!(udp.checksum(), 0);
    assert_eq!(udp.buf(), b"q");
    assert_eq!(udp.inner().ttl(), 64);
    let short = ip_buf([10, 0, 0, 2], [10, 0, 0, 1], Protocol::UDP, NetworkBuffer::from_slice(&[1, 2, 3]));
    assert_eq!(Udp::parse(Ip::parse(short.as_slice()).unwrap()).err(), Some(StackError::Truncated));
}

#[test]
fn icmp_view_reads_type_and_code() {
    let packet = ip_buf([10, 0, 0, 2], [10, 0, 0, 1], Protocol::ICMP, NetworkBuffer::from_slice(&[8, 3, 0, 0]));
    let icmp = Icmp::parse(Ip::parse(packet.as_slice()).unwrap()).ok().unwrap();
    assert_eq!(icmp.icmp_type(), 8);
    assert_eq!(icmp.icmp_code(), 3);
    assert_eq!(icmp.buf(), &[8, 3, 0, 0]);
    let short = ip_buf([10, 0, 0, 2], [10, 0, 0, 1], Protocol::ICMP, NetworkBuffer::from_slice(&[8]));
    assert_eq!(Icmp::parse(Ip::parse(short.as_slice()).unwrap()).err(), Some(StackError::Truncated));
}

#[test]
fn network_buffer_operations() {
    let mut b = NetworkBuffer::new(4);
    assert!(b.is_empty());
    b.push(1);
    b.push_u16(0x0203);
    b.push_u32(0x0405_0607);
    b.extend(NetworkBuffer::from_slice(&[8, 9]));
    b.extend_from_slice(&[10]);
    b.set(0, 0);
    assert_eq!(b.as_slice(), &[0, 2, 3, 4, 5, 6, 7, 8, 9, 10]);
    assert_eq!(b.get(9), 10);
    assert_eq!(b.len(), 10);
    assert_eq!(NetworkBuffer::new_zeroed(3).as_slice(), &[0, 0, 0]);
    assert!(NetworkBuffer::empty().is_empty());
    assert_eq!(NetworkBuffer::from_slice(&[5]).into_vec(), vec![5]);
}
