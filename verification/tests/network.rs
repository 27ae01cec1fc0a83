use mykernel::net::checksum::internet_checksum;
use mykernel::net::ip::{build_ipv4, PROTO_TCP, PROTO_UDP};
use mykernel::net::socket::{
    deliver_tcp, deliver_udp, is_socket_fd, sys_accept, sys_bind, sys_close_socket, sys_connect,
    sys_getpeername, sys_getsockname, sys_listen, sys_recv, sys_recvfrom, sys_send, sys_sendto,
    sys_setsockopt, sys_shutdown, sys_socket, PortRegistry, SockaddrIn, Socket, SocketState,
    SocketTable, AF_INET, AF_INET6, EADDRINUSE, EAGAIN, EBADF, EINVAL, EMFILE, ENOTCONN, ENOTSUP,
    SOCK_DGRAM, SOCK_RAW, SOCK_STREAM, SOL_SOCKET, SO_REUSEADDR,
};
use mykernel::net::tcp::{
    alloc_ephemeral_port, build_tcp, ephemeral_port_from, parse_tcp, TcpConn, TcpHdr, TcpState,
    TCP_ACK, TCP_FIN, TCP_PSH, TCP_RST, TCP_SYN,
};
use mykernel::net::udp::{build_udp, parse_udp, UdpHdr};
use std::sync::atomic::{AtomicU32, Ordering};

const OUR_IP: [u8; 4] = [10, 0, 2, 15];
const PEER_IP: [u8; 4] = [10, 0, 2, 2];

fn addr(ip: [u8; 4], port: u16) -> SockaddrIn {
    SockaddrIn { sin_family: AF_INET as u16, sin_port: port.to_be_bytes(), sin_addr: ip, _pad: [0; 8] }
}

fn hdr(src_port: u16, dst_port: u16, seq: u32, ack: u32, flags: u8) -> TcpHdr {
    TcpHdr {
        src_port: src_port.to_be_bytes(),
        dst_port: dst_port.to_be_bytes(),
        seq_num: seq.to_be_bytes(),
        ack_num: ack.to_be_bytes(),
        data_off: 0x50,
        flags,
        window: 4096u16.to_be_bytes(),
        checksum: [0, 0],
        urgent: [0, 0],
    }
}

fn reference_checksum(data: &[u8]) -> u16 {
    let mut sum: u32 = 0;
    let mut i = 0;
    while i + 1 < data.len() {
        sum += ((data[i] as u32) << 8) | (data[i + 1] as u32);
        i += 2;
    }
    if i < data.len() {
        sum += (data[i] as u32) << 8;
    }
    while sum >> 16 != 0 {
        sum = (sum & 0xFFFF) + (sum >> 16);
    }
    !(sum as u16)
}

#[test]
fn checksum_rfc1071_example() {
    // RFC 1071, section 3: words 0001 f203 f4f5 f6f7 sum to ddf2 after the carry.
    let data = [0x00u8, 0x01, 0xf2, 0x03, 0xf4, 0xf5, 0xf6, 0xf7];
    assert_eq!(internet_checksum(&data), 0x220d);
}

#[test]
fn checksum_odd_length_and_empty() {
    assert_eq!(internet_checksum(&[]), 0xFFFF);
    assert_eq!(internet_checksum(&[0x12]), !0x1200u16);
    let data = [0x45u8, 0x00, 0x00, 0x1c, 0xab];
    assert_eq!(internet_checksum(&data), reference_checksum(&data));
}

#[test]
fn checksum_verifies_to_zero() {
    let mut data = vec![0x45u8, 0x00, 0x00, 0x54, 0x00, 0x00, 0x40, 0x00, 0x40, 0x01, 0, 0, 10, 0, 2, 15, 10, 0, 2, 2];
    let c = internet_checksum(&data);
    data[10] = (c >> 8) as u8;
    data[11] = c as u8;
    assert_eq!(internet_checksum(&data), 0);
}

#[test]
fn ipv4_header_layout() {
    let pkt = build_ipv4(OUR_IP, PEER_IP, PROTO_UDP, &[1, 2, 3, 4, 5], 7);
    assert_eq!(pkt.len(), 25);
    assert_eq!(pkt[0], 0x45);
    assert_eq!(u16::from_be_bytes([pkt[2], pkt[3]]), 25);
    assert_eq!(u16::from_be_bytes([pkt[4], pkt[5]]), 7);
    assert_eq!(pkt[8], 64);
    assert_eq!(pkt[9], PROTO_UDP);
    assert_eq!(&pkt[12..16], &OUR_IP);
    assert_eq!(&pkt[16..20], &PEER_IP);
    assert_eq!(&pkt[20..], &[1, 2, 3, 4, 5]);
    assert_eq!(internet_checksum(&pkt[..20]), 0);
}

fn pseudo(src: [u8; 4], dst: [u8; 4], proto: u8, seg: &[u8]) -> Vec<u8> {
    let mut v = Vec::new();
    v.extend_from_slice(&src);
    v.extend_from_slice(&dst);
    v.push(0);
    v.push(proto);
    v.extend_from_slice(&(seg.len() as u16).to_be_bytes());
    v.extend_from_slice(seg);
    v
}

#[test]
fn udp_build_parse() {
    let pkt = build_udp(OUR_IP, PEER_IP, 12345, 7, b"hello", 1);
    assert_eq!(pkt.len(), 20 + 8 + 5);
    let seg = &pkt[20..];
    let (h, payload) = parse_udp(seg).unwrap();
    assert_eq!(h.src_port(), 12345);
    assert_eq!(h.dst_port(), 7);
    assert_eq!(h.length(), 13);
    assert_eq!(payload, b"hello");
    assert_eq!(internet_checksum(&pseudo(OUR_IP, PEER_IP, PROTO_UDP, seg)), 0);
}

#[test]
fn udp_parse_short_and_truncated() {
    assert!(parse_udp(&[0, 1, 0, 2, 0]).is_none());
    // announced length longer than what is present: payload is what is present
    let data = [0u8, 1, 0, 2, 0, 20, 0, 0, 9, 9];
    let (h, payload) = parse_udp(&data).unwrap();
    assert_eq!(h.length(), 20);
    assert_eq!(payload, &[9, 9]);
    let _: UdpHdr = h;
}

#[test]
fn tcp_build_parse() {
    let pkt = build_tcp(OUR_IP, PEER_IP, 49152, 80, 1000, 2000, 65535, TCP_SYN, &[], 3);
    assert_eq!(pkt.len(), 40);
    assert_eq!(pkt[9], PROTO_TCP);
    let seg = &pkt[20..];
    let (h, payload) = parse_tcp(seg).unwrap();
    assert_eq!(h.src_port(), 49152);
    assert_eq!(h.dst_port(), 80);
    assert_eq!(h.seq_num(), 1000);
    assert_eq!(h.ack_num(), 2000);
    assert_eq!(h.window(), 65535);
    assert_eq!(h.hdr_len(), 20);
    assert!(h.has_syn() && !h.has_ack() && !h.has_fin() && !h.has_rst() && !h.has_psh());
    assert!(payload.is_empty());
    assert_eq!(internet_checksum(&pseudo(OUR_IP, PEER_IP, PROTO_TCP, seg)), 0);
}

#[test]
fn tcp_parse_rejects_bad_offsets() {
    assert!(parse_tcp(&[0u8; 19]).is_none());
    let mut seg = vec![0u8; 24];
    seg[12] = 0x40; // 16-byte header: too small
    assert!(parse_tcp(&seg).is_none());
    seg[12] = 0x70; // 28-byte header: longer than the segment
    assert!(parse_tcp(&seg).is_none());
    seg[12] = 0x60; // 24-byte header
    let (_, payload) = parse_tcp(&seg).unwrap();
    assert!(payload.is_empty());
}

#[test]
fn ephemeral_ports() {
    assert_eq!(ephemeral_port_from(0), 49152);
    assert_eq!(ephemeral_port_from(49153), 49153);
    assert_eq!(ephemeral_port_from(65536 + 60000), 60000);
    let counter = AtomicU32::new(49152);
    assert_eq!(alloc_ephemeral_port(&counter), 49152);
    assert_eq!(alloc_ephemeral_port(&counter), 49153);
    assert_eq!(counter.load(Ordering::Relaxed), 49154);
}

#[test]
fn tcp_state_machine_handshake_data_close() {
    let isn = AtomicU32::new(0x1234_5678);
    let mut c = TcpConn::new(OUR_IP, 8080, &isn);
    assert_eq!(c.state, TcpState::Closed);
    assert_eq!(c.snd_nxt, 0x1234_5678);
    assert_eq!(isn.load(Ordering::Relaxed), 0x1234_5678 + 64513);
    c.state = TcpState::Listen;
    // an ACK-only segment is ignored in LISTEN
    assert!(c.process(PEER_IP, &hdr(5000, 8080, 1, 0, TCP_ACK), &[], 0).is_none());
    assert_eq!(c.state, TcpState::Listen);
    // SYN
    let synack = c.process(PEER_IP, &hdr(5000, 8080, 100, 0, TCP_SYN), &[], 1).unwrap();
    assert_eq!(c.state, TcpState::SynReceived);
    assert_eq!(c.rcv_nxt, 101);
    assert_eq!(c.snd_nxt, 0x1234_5679);
    let (h, _) = parse_tcp(&synack[20..]).unwrap();
    assert!(h.has_syn() && h.has_ack());
    assert_eq!(h.seq_num(), 0x1234_5678);
    assert_eq!(h.ack_num(), 101);
    // wrong ACK keeps SYN_RECEIVED
    assert!(c.process(PEER_IP, &hdr(5000, 8080, 101, 7, TCP_ACK), &[], 2).is_none());
    assert_eq!(c.state, TcpState::SynReceived);
    assert!(c.process(PEER_IP, &hdr(5000, 8080, 101, 0x1234_5679, TCP_ACK), &[], 2).is_none());
    assert!(c.is_established());
    assert_eq!(c.snd_una, 0x1234_5679);
    // in-order data is buffered and ACKed
    let ack = c.process(PEER_IP, &hdr(5000, 8080, 101, 0x1234_5679, TCP_ACK | TCP_PSH), b"abc", 3).unwrap();
    assert_eq!(c.rcv_nxt, 104);
    let (h, _) = parse_tcp(&ack[20..]).unwrap();
    assert_eq!(h.ack_num(), 104);
    // out-of-order data is dropped
    assert!(c.process(PEER_IP, &hdr(5000, 8080, 200, 0x1234_5679, TCP_ACK), b"zz", 4).is_none());
    let mut buf = [0u8; 2];
    assert_eq!(c.read(&mut buf), 2);
    assert_eq!(&buf, b"ab");
    let mut buf = [0u8; 8];
    assert_eq!(c.read(&mut buf), 1);
    assert_eq!(buf[0], b'c');
    // send
    let pkt = c.send(b"hi", 5).unwrap();
    let (h, payload) = parse_tcp(&pkt[20..]).unwrap();
    assert!(h.has_psh() && h.has_ack());
    assert_eq!(payload, b"hi");
    assert_eq!(c.snd_nxt, 0x1234_5679 + 2);
    // FIN
    let ack = c.process(PEER_IP, &hdr(5000, 8080, 104, 0x1234_567b, TCP_FIN | TCP_ACK), &[], 6).unwrap();
    assert_eq!(c.state, TcpState::CloseWait);
    assert_eq!(c.rcv_nxt, 105);
    let (h, _) = parse_tcp(&ack[20..]).unwrap();
    assert_eq!(h.ack_num(), 105);
    assert!(c.send(b"x", 7).is_none());
    let fin = c.process(PEER_IP, &hdr(5000, 8080, 105, 0x1234_567b, TCP_ACK), &[], 8).unwrap();
    assert_eq!(c.state, TcpState::LastAck);
    let (h, _) = parse_tcp(&fin[20..]).unwrap();
    assert!(h.has_fin() && h.has_ack());
    assert!(c.process(PEER_IP, &hdr(5000, 8080, 105, 0x1234_567c, TCP_ACK), &[], 9).is_none());
    assert_eq!(c.state, TcpState::Closed);
}

#[test]
fn tcp_sequence_wraps() {
    let mut c = TcpConn::with_isn(OUR_IP, 80, u32::MAX);
    c.state = TcpState::Listen;
    c.process(PEER_IP, &hdr(1, 80, u32::MAX, 0, TCP_SYN), &[], 0).unwrap();
    assert_eq!(c.rcv_nxt, 0);
    assert_eq!(c.snd_nxt, 0);
}

#[test]
fn socket_errors_and_table_full() {
    let mut t = SocketTable::new();
    assert_eq!(sys_socket(&mut t, AF_INET6, SOCK_STREAM, 0), EINVAL);
    assert_eq!(sys_socket(&mut t, AF_INET, SOCK_RAW, 0), ENOTSUP);
    for i in 0..64 {
        assert_eq!(sys_socket(&mut t, AF_INET, SOCK_DGRAM, 0), 100 + i);
    }
    assert_eq!(sys_socket(&mut t, AF_INET, SOCK_DGRAM, 0), EMFILE);
    let mut p = PortRegistry::new();
    assert_eq!(sys_close_socket(&mut t, &mut p, 130), 0);
    assert_eq!(sys_close_socket(&mut t, &mut p, 130), EBADF);
    assert_eq!(sys_close_socket(&mut t, &mut p, 99), EBADF);
    assert_eq!(sys_close_socket(&mut t, &mut p, 164), EBADF);
    assert_eq!(sys_socket(&mut t, AF_INET, SOCK_STREAM, 0), 130);
    assert!(is_socket_fd(&t, 130));
    assert!(!is_socket_fd(&t, 164));
    assert!(t.get(130).map(|s: &Socket| s.sock_type) == Some(SOCK_STREAM));
}

#[test]
fn socket_bind_listen_accept() {
    let mut t = SocketTable::new();
    let mut p = PortRegistry::new();
    let isn = AtomicU32::new(1000);
    let srv = sys_socket(&mut t, AF_INET, SOCK_STREAM, 0) as usize;
    assert_eq!(srv, 100);
    assert_eq!(sys_listen(&mut t, srv, 5, &isn), EINVAL); // not bound yet
    assert_eq!(sys_bind(&mut t, &mut p, srv, &addr([0, 0, 0, 0], 0), OUR_IP), EINVAL);
    assert_eq!(sys_bind(&mut t, &mut p, 150, &addr([0, 0, 0, 0], 8080), OUR_IP), EBADF);
    assert_eq!(sys_bind(&mut t, &mut p, srv, &addr([0, 0, 0, 0], 8080), OUR_IP), 0);
    assert!(p.port_in_use(8080));
    assert_eq!(sys_bind(&mut t, &mut p, srv, &addr([0, 0, 0, 0], 8081), OUR_IP), EINVAL);
    let (r, name) = sys_getsockname(&t, srv);
    assert_eq!(r, 0);
    let name = name.unwrap();
    assert_eq!(name.port(), 8080);
    assert_eq!(name.ip(), OUR_IP);
    // a second socket on the same port
    let other = sys_socket(&mut t, AF_INET, SOCK_STREAM, 0) as usize;
    assert_eq!(sys_bind(&mut t, &mut p, other, &addr([0, 0, 0, 0], 8080), OUR_IP), EADDRINUSE);
    assert_eq!(sys_setsockopt(&mut t, other, SOL_SOCKET, SO_REUSEADDR, 1), 0);
    assert_eq!(sys_bind(&mut t, &mut p, other, &addr([127, 0, 0, 1], 8080), OUR_IP), 0);
    assert_eq!(sys_getsockname(&t, other).1.unwrap().ip(), [127, 0, 0, 1]);
    assert_eq!(sys_listen(&mut t, srv, 5, &isn), 0);
    assert_eq!(t.get(srv).unwrap().state, SocketState::Listening);
    assert_eq!(sys_accept(&mut t, srv).0, EAGAIN);
    // SYN from the peer: a pending connection in SYN_RECEIVED, answered SYN-ACK
    let reply = deliver_tcp(&mut t, PEER_IP, 40000, 8080, &hdr(40000, 8080, 500, 0, TCP_SYN), &[], OUR_IP, &isn, 11).unwrap();
    let (h, _) = parse_tcp(&reply[20..]).unwrap();
    assert!(h.has_syn() && h.has_ack());
    assert_eq!(h.ack_num(), 501);
    let our_isn = h.seq_num();
    {
        let l = t.get(srv).unwrap();
        assert_eq!(l.backlog.len(), 1);
        assert_eq!(l.backlog[0].state, SocketState::Connected);
        let c = l.backlog[0].tcp_conn.as_ref().unwrap();
        assert_eq!(c.state, TcpState::SynReceived);
        assert_eq!(c.snd_nxt, our_isn.wrapping_add(1));
        assert_eq!(c.rcv_nxt, 501);
    }
    // an ACK of something else leaves it pending
    assert!(deliver_tcp(&mut t, PEER_IP, 40000, 8080, &hdr(40000, 8080, 501, our_isn, TCP_ACK), &[], OUR_IP, &isn, 12).is_none());
    assert_eq!(t.get(srv).unwrap().backlog[0].tcp_conn.as_ref().unwrap().state, TcpState::SynReceived);
    // the peer's ACK of the SYN-ACK completes the handshake
    assert!(deliver_tcp(&mut t, PEER_IP, 40000, 8080, &hdr(40000, 8080, 501, our_isn.wrapping_add(1), TCP_ACK), &[], OUR_IP, &isn, 12).is_none());
    {
        let l = t.get(srv).unwrap();
        assert_eq!(l.backlog.len(), 1);
        assert_eq!(l.backlog[0].tcp_conn.as_ref().unwrap().state, TcpState::Established);
    }
    let (fd, peer) = sys_accept(&mut t, srv);
    assert_eq!(fd, 102);
    let peer = peer.unwrap();
    assert_eq!(peer.ip(), PEER_IP);
    assert_eq!(peer.port(), 40000);
    let fd = fd as usize;
    assert_eq!(sys_getpeername(&t, fd).1.unwrap().port(), 40000);
    assert_eq!(sys_getpeername(&t, srv).0, ENOTCONN);
    // data on the accepted connection
    let seq0 = t.get(fd).unwrap().tcp_conn.as_ref().unwrap().snd_nxt;
    let ack = deliver_tcp(&mut t, PEER_IP, 40000, 8080, &hdr(40000, 8080, 501, seq0, TCP_ACK | TCP_PSH), b"ping", OUR_IP, &isn, 12);
    assert!(ack.is_some());
    let mut buf = [0u8; 16];
    assert_eq!(sys_recv(&mut t, fd, &mut buf, 0), 4);
    assert_eq!(&buf[..4], b"ping");
    assert_eq!(sys_recv(&mut t, fd, &mut buf, 0), 0);
    let (n, pkt) = sys_send(&mut t, fd, b"pong", 0, 13);
    assert_eq!(n, 4);
    let pkt = pkt.unwrap();
    let (_, payload) = parse_tcp(&pkt[20..]).unwrap();
    assert_eq!(payload, b"pong");
    assert_eq!(sys_shutdown(&mut t, fd, 2), 0);
    assert_eq!(sys_send(&mut t, fd, b"x", 0, 14).0, ENOTCONN);
    // the port stays reserved while the accepted socket and `other` still have it
    assert_eq!(sys_close_socket(&mut t, &mut p, srv), 0);
    assert!(p.port_in_use(8080));
    let fresh = sys_socket(&mut t, AF_INET, SOCK_STREAM, 0) as usize;
    assert_eq!(sys_bind(&mut t, &mut p, fresh, &addr([0, 0, 0, 0], 8080), OUR_IP), EADDRINUSE);
    assert_eq!(sys_close_socket(&mut t, &mut p, fd), 0);
    assert!(p.port_in_use(8080));
    assert_eq!(sys_close_socket(&mut t, &mut p, other), 0);
    assert!(!p.port_in_use(8080));
    assert_eq!(sys_bind(&mut t, &mut p, fresh, &addr([0, 0, 0, 0], 8080), OUR_IP), 0);
}

#[test]
fn pending_connection_accepted_before_ack_connects_later() {
    let mut t = SocketTable::new();
    let mut p = PortRegistry::new();
    let isn = AtomicU32::new(5);
    let srv = sys_socket(&mut t, AF_INET, SOCK_STREAM, 0) as usize;
    assert_eq!(sys_bind(&mut t, &mut p, srv, &addr([0, 0, 0, 0], 7000), OUR_IP), 0);
    assert_eq!(sys_listen(&mut t, srv, 1, &isn), 0);
    let reply = deliver_tcp(&mut t, PEER_IP, 41000, 7000, &hdr(41000, 7000, 9, 0, TCP_SYN), &[], OUR_IP, &isn, 1).unwrap();
    let (h, _) = parse_tcp(&reply[20..]).unwrap();
    let (fd, _) = sys_accept(&mut t, srv);
    let fd = fd as usize;
    assert_eq!(t.get(fd).unwrap().state, SocketState::Connected);
    assert_eq!(t.get(fd).unwrap().tcp_conn.as_ref().unwrap().state, TcpState::SynReceived);
    assert_eq!(sys_getpeername(&t, fd).1.unwrap().port(), 41000);
    let mut buf = [0u8; 4];
    assert_eq!(sys_recv(&mut t, fd, &mut buf, 0), 0);
    // the peer's ACK reaches the accepted socket
    assert!(deliver_tcp(&mut t, PEER_IP, 41000, 7000, &hdr(41000, 7000, 10, h.seq_num().wrapping_add(1), TCP_ACK), &[], OUR_IP, &isn, 2).is_none());
    assert_eq!(t.get(fd).unwrap().state, SocketState::Connected);
    assert_eq!(t.get(fd).unwrap().tcp_conn.as_ref().unwrap().state, TcpState::Established);
    // a repeated SYN is answered with a fresh SYN-ACK by the listener
    assert!(deliver_tcp(&mut t, PEER_IP, 41000, 7000, &hdr(41000, 7000, 9, 0, TCP_SYN), &[], OUR_IP, &isn, 3).is_some());
    assert_eq!(t.get(srv).unwrap().backlog.len(), 1);
}

#[test]
fn datagram_send_allows_the_full_udp_size() {
    let mut t = SocketTable::new();
    let mut p = PortRegistry::new();
    let u = sys_socket(&mut t, AF_INET, SOCK_DGRAM, 0) as usize;
    assert_eq!(sys_bind(&mut t, &mut p, u, &addr([0, 0, 0, 0], 9191), OUR_IP), 0);
    let data = vec![0x5au8; 65535 - 28];
    let dst = addr(PEER_IP, 9);
    let (n, pkt) = sys_sendto(&mut t, u, &data, 0, Some(&dst), 1);
    assert_eq!(n, (65535 - 28) as i64);
    assert_eq!(pkt.unwrap().len(), 65535);
}

#[test]
fn socket_connect_and_udp() {
    let mut t = SocketTable::new();
    let mut p = PortRegistry::new();
    let isn = AtomicU32::new(7);
    let ports = AtomicU32::new(0);
    let c = sys_socket(&mut t, AF_INET, SOCK_STREAM, 0) as usize;
    let (r, syn) = sys_connect(&mut t, &mut p, c, &addr(PEER_IP, 80), OUR_IP, &ports, &isn, 1);
    assert_eq!(r, 0);
    let syn = syn.unwrap();
    assert_eq!(syn.len(), 40);
    let (h, _) = parse_tcp(&syn[20..]).unwrap();
    assert!(h.has_syn() && !h.has_ack());
    assert_eq!(h.seq_num(), 7);
    assert_eq!(h.dst_port(), 80);
    assert_eq!(h.src_port(), 49152);
    assert!(p.port_in_use(49152));
    let s = t.get(c).unwrap();
    assert_eq!(s.state, SocketState::Connected);
    assert_eq!(s.tcp_conn.as_ref().unwrap().snd_nxt, 8);

    let u = sys_socket(&mut t, AF_INET, SOCK_DGRAM, 0) as usize;
    assert_eq!(sys_connect(&mut t, &mut p, u, &addr(PEER_IP, 80), OUR_IP, &ports, &isn, 1).0, EINVAL);
    assert_eq!(sys_bind(&mut t, &mut p, u, &addr([0, 0, 0, 0], 9090), OUR_IP), 0);
    assert_eq!(sys_send(&mut t, u, b"x", 0, 2).0, ENOTCONN);
    let dst = addr(PEER_IP, 7);
    let (n, pkt) = sys_sendto(&mut t, u, b"echo", 0, Some(&dst), 3);
    assert_eq!(n, 4);
    let pkt = pkt.unwrap();
    let (h, payload) = parse_udp(&pkt[20..]).unwrap();
    assert_eq!(h.src_port(), 9090);
    assert_eq!(h.dst_port(), 7);
    assert_eq!(payload, b"echo");
    deliver_udp(&mut t, [10, 0, 2, 3], 5353, 9090, b"reply");
    let mut buf = [0u8; 3];
    let (n, from) = sys_recvfrom(&mut t, u, &mut buf, 0);
    assert_eq!(n, 3);
    assert_eq!(&buf, b"rep");
    let from = from.unwrap();
    assert_eq!(from.ip(), [10, 0, 2, 3]);
    assert_eq!(from.port(), 5353);
    let (n, _) = sys_recvfrom(&mut t, u, &mut buf, 0);
    assert_eq!(n, 2);
    assert_eq!(&buf[..2], b"ly");
    let (n, from) = sys_recvfrom(&mut t, u, &mut buf, 0);
    assert_eq!(n, 0);
    assert!(from.is_none());
    assert_eq!(sys_recv(&mut t, 163, &mut buf, 0), EBADF);
    // a segment for no socket is dropped
    assert!(deliver_tcp(&mut t, PEER_IP, 1, 9999, &hdr(1, 9999, 0, 0, TCP_SYN), &[], OUR_IP, &isn, 4).is_none());
}

#[test]
fn checksum_of_a_long_block() {
    let data = vec![0xffu8; 200_001];
    let mut sum: u64 = 0;
    for pair in data.chunks(2) {
        let hi = pair[0] as u64;
        let lo = if pair.len() > 1 { pair[1] as u64 } else { 0 };
        sum += hi * 256 + lo;
    }
    while sum > 0xffff {
        sum = (sum & 0xffff) + (sum >> 16);
    }
    assert_eq!(internet_checksum(&data), 0xffff - sum as u16);
    assert_eq!(internet_checksum(&data), 0xff);
}
