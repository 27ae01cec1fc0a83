//! Network stack: RFC 1071 checksums, IPv4 framing, UDP, TCP and sockets.

pub mod checksum;
pub mod ip;
pub mod udp;
pub mod tcp;
pub mod socket;
pub mod ethernet;
