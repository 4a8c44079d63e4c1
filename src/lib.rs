//! A small userspace network stack: IPv4 / TCP / UDP / ICMP framing with
//! internet checksums, a passive-open TCP state machine and a minimal
//! HTTP/1.1 request parser, all with verified contracts.

pub mod checksum;
pub mod wire;
pub mod proto;
pub mod ip;
pub mod tcp;
pub mod udp;
pub mod icmp;
pub mod http;
pub mod state;
pub mod connections;
pub mod application;
pub mod network;
pub mod oob_buffer;
