use vstd::prelude::*;
use std::collections::VecDeque;
use std::sync::atomic::AtomicU32;
use crate::net::checksum::{internet_checksum, internet_checksum_spec, lemma_checksum_verifies};
use crate::net::ip::{
    be16_bytes,
    be16_value,
    be32_bytes,
    be32_value,
    build_ipv4,
    ipv4_packet,
    lemma_be32_roundtrip,
    push_be16,
    push_be32,
    pseudo_header,
    IPV4_HDR_LEN,
    PROTO_TCP,
};

verus! {

/// FIN flag: the sender has finished sending.
pub const TCP_FIN: u8 = 0x01;
/// SYN flag: synchronise sequence numbers.
pub const TCP_SYN: u8 = 0x02;
/// RST flag: reset the connection.
pub const TCP_RST: u8 = 0x04;
/// PSH flag: push buffered data to the application.
pub const TCP_PSH: u8 = 0x08;
/// ACK flag: the acknowledgment number is significant.
pub const TCP_ACK: u8 = 0x10;
/// URG flag: the urgent pointer is significant.
pub const TCP_URG: u8 = 0x20;
/// Length of a TCP header without options.
pub const TCP_HDR_LEN: usize = 20;
/// First port of the ephemeral range.
pub const EPHEMERAL_PORT_BASE: u16 = 49152;
/// Amount by which the initial-sequence-number counter advances per connection.
pub const ISN_STEP: u32 = 64513;

/// `a + b` modulo 2^32: sequence-number arithmetic.
pub open spec fn seq_add(a: u32, b: u32) -> u32 {
    if a + b > u32::MAX {
        (a + b - 0x1_0000_0000) as u32
    } else {
        (a + b) as u32
    }
}

/// TCP header as it stands on the wire (20 bytes, no options).
#[derive(Debug, Clone, Copy)]
pub struct TcpHdr {
    pub src_port: [u8; 2],
    pub dst_port: [u8; 2],
    pub seq_num: [u8; 4],
    pub ack_num: [u8; 4],
    /// Upper four bits: header length in 32-bit words.
    pub data_off: u8,
    pub flags: u8,
    pub window: [u8; 2],
    pub checksum: [u8; 2],
    pub urgent: [u8; 2],
}

impl TcpHdr {
    pub open spec fn src_port_spec(&self) -> u16 {
        be16_value(self.src_port)
    }

    pub open spec fn dst_port_spec(&self) -> u16 {
        be16_value(self.dst_port)
    }

    pub open spec fn seq_num_spec(&self) -> u32 {
        be32_value(self.seq_num)
    }

    pub open spec fn ack_num_spec(&self) -> u32 {
        be32_value(self.ack_num)
    }

    pub open spec fn hdr_len_spec(&self) -> usize {
        ((self.data_off / 16) * 4) as usize
    }

    pub open spec fn has_syn_spec(&self) -> bool {
        self.flags & TCP_SYN != 0
    }

    pub open spec fn has_ack_spec(&self) -> bool {
        self.flags & TCP_ACK != 0
    }

    pub open spec fn has_fin_spec(&self) -> bool {
        self.flags & TCP_FIN != 0
    }

    pub open spec fn has_rst_spec(&self) -> bool {
        self.flags & TCP_RST != 0
    }

    pub open spec fn has_psh_spec(&self) -> bool {
        self.flags & TCP_PSH != 0
    }

    pub open spec fn window_spec(&self) -> u16 {
        be16_value(self.window)
    }

    /// Source port.
    #[verifier::when_used_as_spec(src_port_spec)]
    pub fn src_port(&self) -> (r: u16)
        ensures
            r == self.src_port_spec(),
    {
        (self.src_port[0] as u16) * 256 + (self.src_port[1] as u16)
    }

    /// Destination port.
    #[verifier::when_used_as_spec(dst_port_spec)]
    pub fn dst_port(&self) -> (r: u16)
        ensures
            r == self.dst_port_spec(),
    {
        (self.dst_port[0] as u16) * 256 + (self.dst_port[1] as u16)
    }

    /// Sequence number of the first payload byte.
    #[verifier::when_used_as_spec(seq_num_spec)]
    pub fn seq_num(&self) -> (r: u32)
        ensures
            r == self.seq_num_spec(),
    {
        (self.seq_num[0] as u32) * 16777216 + (self.seq_num[1] as u32) * 65536 + (
        self.seq_num[2] as u32) * 256 + (self.seq_num[3] as u32)
    }

    /// Acknowledgment number: the next sequence number the sender expects.
    #[verifier::when_used_as_spec(ack_num_spec)]
    pub fn ack_num(&self) -> (r: u32)
        ensures
            r == self.ack_num_spec(),
    {
        (self.ack_num[0] as u32) * 16777216 + (self.ack_num[1] as u32) * 65536 + (
        self.ack_num[2] as u32) * 256 + (self.ack_num[3] as u32)
    }

    /// Header length in bytes, from the data-offset field.
    #[verifier::when_used_as_spec(hdr_len_spec)]
    pub fn hdr_len(&self) -> (r: usize)
        ensures
            r == self.hdr_len_spec(),
    {
        ((self.data_off / 16) as usize) * 4
    }

    /// Whether SYN is set.
    #[verifier::when_used_as_spec(has_syn_spec)]
    pub fn has_syn(&self) -> (r: bool)
        ensures
            r == self.has_syn_spec(),
    {
        self.flags & TCP_SYN != 0
    }

    /// Whether ACK is set.
    #[verifier::when_used_as_spec(has_ack_spec)]
    pub fn has_ack(&self) -> (r: bool)
        ensures
            r == self.has_ack_spec(),
    {
        self.flags & TCP_ACK != 0
    }

    /// Whether FIN is set.
    #[verifier::when_used_as_spec(has_fin_spec)]
    pub fn has_fin(&self) -> (r: bool)
        ensures
            r == self.has_fin_spec(),
    {
        self.flags & TCP_FIN != 0
    }

    /// Whether RST is set.
    #[verifier::when_used_as_spec(has_rst_spec)]
    pub fn has_rst(&self) -> (r: bool)
        ensures
            r == self.has_rst_spec(),
    {
        self.flags & TCP_RST != 0
    }

    /// Whether PSH is set.
    #[verifier::when_used_as_spec(has_psh_spec)]
    pub fn has_psh(&self) -> (r: bool)
        ensures
            r == self.has_psh_spec(),
    {
        self.flags & TCP_PSH != 0
    }

    /// Advertised receive window.
    #[verifier::when_used_as_spec(window_spec)]
    pub fn window(&self) -> (r: u16)
        ensures
            r == self.window_spec(),
    {
        (self.window[0] as u16) * 256 + (self.window[1] as u16)
    }
}

/// The header held in the first twenty bytes of `data`.
pub open spec fn tcp_hdr_of(data: Seq<u8>) -> TcpHdr {
    TcpHdr {
        src_port: [data[0], data[1]],
        dst_port: [data[2], data[3]],
        seq_num: [data[4], data[5], data[6], data[7]],
        ack_num: [data[8], data[9], data[10], data[11]],
        data_off: data[12],
        flags: data[13],
        window: [data[14], data[15]],
        checksum: [data[16], data[17]],
        urgent: [data[18], data[19]],
    }
}

/// Whether `data` holds a TCP segment whose header length is sound.
pub open spec fn tcp_parses(data: Seq<u8>) -> bool {
    &&& data.len() >= TCP_HDR_LEN
    &&& TCP_HDR_LEN <= tcp_hdr_of(data).hdr_len_spec() <= data.len()
}

/// Split a TCP segment into its header and payload; `None` when it is shorter
/// than a header or its data offset is too small or runs past its end.
pub fn parse_tcp(data: &[u8]) -> (r: Option<(TcpHdr, &[u8])>)
    ensures
        tcp_parses(data@) <==> r is Some,
        r matches Some((hdr, payload)) ==> hdr == tcp_hdr_of(data@) && payload@ == data@.subrange(
            hdr.hdr_len_spec() as int,
            data@.len() as int,
        ),
{
    if data.len() < TCP_HDR_LEN {
        return None;
    }
    let hdr = TcpHdr {
        src_port: [data[0], data[1]],
        dst_port: [data[2], data[3]],
        seq_num: [data[4], data[5], data[6], data[7]],
        ack_num: [data[8], data[9], data[10], data[11]],
        data_off: data[12],
        flags: data[13],
        window: [data[14], data[15]],
        checksum: [data[16], data[17]],
        urgent: [data[18], data[19]],
    };
    let hdr_len = hdr.hdr_len();
    if hdr_len < TCP_HDR_LEN || hdr_len > data.len() {
        return None;
    }
    Some((hdr, &data[hdr_len..data.len()]))
}


/// TCP header bytes with `cksum` in the checksum field.
pub open spec fn tcp_header(
    src_port: u16,
    dst_port: u16,
    seq: u32,
    ack: u32,
    window: u16,
    flags: u8,
    cksum: u16,
) -> Seq<u8> {
    be16_bytes(src_port) + be16_bytes(dst_port) + be32_bytes(seq) + be32_bytes(ack) + seq![
        0x50u8,
        flags,
    ] + be16_bytes(window) + be16_bytes(cksum) + seq![0u8, 0u8]
}

/// The checksum of a TCP segment sent from `src_ip` to `dst_ip`: computed over
/// the pseudo-header and the segment with a zero checksum field.
pub open spec fn tcp_checksum_spec(
    src_ip: Seq<u8>,
    dst_ip: Seq<u8>,
    src_port: u16,
    dst_port: u16,
    seq: u32,
    ack: u32,
    window: u16,
    flags: u8,
    payload: Seq<u8>,
) -> u16 {
    internet_checksum_spec(
        pseudo_header(src_ip, dst_ip, PROTO_TCP, (20 + payload.len()) as u16) + (tcp_header(
            src_port,
            dst_port,
            seq,
            ack,
            window,
            flags,
            0,
        ) + payload),
    )
}

/// The TCP segment (header with checksum, then payload) that `build_tcp`
/// places inside the IPv4 packet.
pub open spec fn tcp_segment(
    src_ip: Seq<u8>,
    dst_ip: Seq<u8>,
    src_port: u16,
    dst_port: u16,
    seq: u32,
    ack: u32,
    window: u16,
    flags: u8,
    payload: Seq<u8>,
) -> Seq<u8> {
    tcp_header(
        src_port,
        dst_port,
        seq,
        ack,
        window,
        flags,
        tcp_checksum_spec(src_ip, dst_ip, src_port, dst_port, seq, ack, window, flags, payload),
    ) + payload
}

/// The IPv4 packet that `build_tcp` returns.
#[verifier::opaque]
pub open spec fn tcp_packet(
    src_ip: Seq<u8>,
    dst_ip: Seq<u8>,
    src_port: u16,
    dst_port: u16,
    seq: u32,
    ack: u32,
    window: u16,
    flags: u8,
    payload: Seq<u8>,
    ident: u16,
) -> Seq<u8> {
    ipv4_packet(
        src_ip,
        dst_ip,
        PROTO_TCP,
        ident,
        tcp_segment(src_ip, dst_ip, src_port, dst_port, seq, ack, window, flags, payload),
    )
}

/// Build an IPv4 packet carrying a TCP segment with a pseudo-header checksum.
pub fn build_tcp(
    src_ip: [u8; 4],
    dst_ip: [u8; 4],
    src_port: u16,
    dst_port: u16,
    seq: u32,
    ack: u32,
    window: u16,
    flags: u8,
    payload: &[u8],
    ident: u16,
) -> (r: Vec<u8>)
    requires
        payload.len() + TCP_HDR_LEN + IPV4_HDR_LEN <= 65535,
    ensures
        r@ == tcp_packet(
            src_ip@,
            dst_ip@,
            src_port,
            dst_port,
            seq,
            ack,
            window,
            flags,
            payload@,
            ident,
        ),
{
    let mut tcp: Vec<u8> = Vec::with_capacity(TCP_HDR_LEN + payload.len());
    push_be16(&mut tcp, src_port);
    push_be16(&mut tcp, dst_port);
    push_be32(&mut tcp, seq);
    push_be32(&mut tcp, ack);
    tcp.push(0x50u8);
    tcp.push(flags);
    push_be16(&mut tcp, window);
    push_be16(&mut tcp, 0);
    tcp.push(0u8);
    tcp.push(0u8);
    tcp.extend_from_slice(payload);
    assert(tcp@ =~= tcp_header(src_port, dst_port, seq, ack, window, flags, 0) + payload@);
    let cksum = tcp_checksum(&src_ip, &dst_ip, tcp.as_slice());
    assert(cksum == tcp_checksum_spec(
        src_ip@,
        dst_ip@,
        src_port,
        dst_port,
        seq,
        ack,
        window,
        flags,
        payload@,
    ));
    tcp.set(16, (cksum / 256) as u8);
    tcp.set(17, (cksum % 256) as u8);
    assert(tcp@ =~= tcp_header(src_port, dst_port, seq, ack, window, flags, cksum) + payload@);
    assert(tcp@ =~= tcp_segment(
        src_ip@,
        dst_ip@,
        src_port,
        dst_port,
        seq,
        ack,
        window,
        flags,
        payload@,
    ));
    proof {
        reveal(tcp_packet);
    }
    build_ipv4(src_ip, dst_ip, PROTO_TCP, tcp.as_slice(), ident)
}

fn tcp_checksum(src_ip: &[u8; 4], dst_ip: &[u8; 4], tcp: &[u8]) -> (r: u16)
    requires
        tcp.len() + IPV4_HDR_LEN <= 65535,
    ensures
        r == internet_checksum_spec(
            pseudo_header(src_ip@, dst_ip@, PROTO_TCP, tcp.len() as u16) + tcp@,
        ),
{
    let mut pseudo: Vec<u8> = Vec::new();
    pseudo.push(src_ip[0]);
    pseudo.push(src_ip[1]);
    pseudo.push(src_ip[2]);
    pseudo.push(src_ip[3]);
    pseudo.push(dst_ip[0]);
    pseudo.push(dst_ip[1]);
    pseudo.push(dst_ip[2]);
    pseudo.push(dst_ip[3]);
    pseudo.push(0u8);
    pseudo.push(PROTO_TCP);
    let len = tcp.len() as u16;
    pseudo.push((len / 256) as u8);
    pseudo.push((len % 256) as u8);
    pseudo.extend_from_slice(tcp);
    assert(pseudo@ =~= pseudo_header(src_ip@, dst_ip@, PROTO_TCP, len) + tcp@);
    internet_checksum(pseudo.as_slice())
}

/// A segment built by `build_tcp` passes the receiver's checksum test: the
/// checksum over the pseudo-header and the segment as sent is zero.
pub proof fn lemma_tcp_checksum_verifies(
    src_ip: [u8; 4],
    dst_ip: [u8; 4],
    src_port: u16,
    dst_port: u16,
    seq: u32,
    ack: u32,
    window: u16,
    flags: u8,
    payload: Seq<u8>,
)
    ensures
        internet_checksum_spec(
            pseudo_header(src_ip@, dst_ip@, PROTO_TCP, (20 + payload.len()) as u16) + tcp_segment(
                src_ip@,
                dst_ip@,
                src_port,
                dst_port,
                seq,
                ack,
                window,
                flags,
                payload,
            ),
        ) == 0,
{
    let ph = pseudo_header(src_ip@, dst_ip@, PROTO_TCP, (20 + payload.len()) as u16);
    let s = ph + (tcp_header(src_port, dst_port, seq, ack, window, flags, 0) + payload);
    let c = internet_checksum_spec(s);
    lemma_checksum_verifies(s, 28);
    assert(s.update(28, (c / 256) as u8).update(29, (c % 256) as u8) =~= ph + tcp_segment(
        src_ip@,
        dst_ip@,
        src_port,
        dst_port,
        seq,
        ack,
        window,
        flags,
        payload,
    ));
}

/// What a receiver parses out of a segment built by `build_tcp` is what was
/// sent: ports, sequence and acknowledgment numbers, flags, window, a
/// 20-byte header and the payload.
pub proof fn lemma_tcp_parse_build(
    src_ip: [u8; 4],
    dst_ip: [u8; 4],
    src_port: u16,
    dst_port: u16,
    seq: u32,
    ack: u32,
    window: u16,
    flags: u8,
    payload: Seq<u8>,
)
    ensures
        ({
            let d = tcp_segment(
                src_ip@,
                dst_ip@,
                src_port,
                dst_port,
                seq,
                ack,
                window,
                flags,
                payload,
            );
            let h = tcp_hdr_of(d);
            &&& tcp_parses(d)
            &&& h.src_port_spec() == src_port
            &&& h.dst_port_spec() == dst_port
            &&& h.seq_num_spec() == seq
            &&& h.ack_num_spec() == ack
            &&& h.flags == flags
            &&& h.window_spec() == window
            &&& h.hdr_len_spec() == TCP_HDR_LEN
            &&& d.subrange(TCP_HDR_LEN as int, d.len() as int) == payload
        }),
{
    let d = tcp_segment(src_ip@, dst_ip@, src_port, dst_port, seq, ack, window, flags, payload);
    let h = tcp_hdr_of(d);
    assert(h.src_port@ =~= seq![d[0], d[1]]);
    assert(h.dst_port@ =~= seq![d[2], d[3]]);
    assert(h.seq_num@ =~= seq![d[4], d[5], d[6], d[7]]);
    assert(h.ack_num@ =~= seq![d[8], d[9], d[10], d[11]]);
    assert(d.subrange(4, 8) =~= be32_bytes(seq));
    assert(d.subrange(8, 12) =~= be32_bytes(ack));
    lemma_be32_roundtrip(seq);
    lemma_be32_roundtrip(ack);
    assert(h.window@ =~= seq![d[14], d[15]]);
    assert(d.subrange(TCP_HDR_LEN as int, d.len() as int) =~= payload);
}


/// Connection states of RFC 793.
#[derive(Debug, Clone, Copy, PartialEq, Eq, Structural)]
pub enum TcpState {
    Closed,
    Listen,
    SynReceived,
    SynSent,
    Established,
    FinWait1,
    FinWait2,
    CloseWait,
    LastAck,
    TimeWait,
}

/// A TCP connection: addresses, sequence-space variables and byte buffers.
#[derive(Debug, Clone)]
pub struct TcpConn {
    pub state: TcpState,
    pub local_ip: [u8; 4],
    pub remote_ip: [u8; 4],
    pub local_port: u16,
    pub remote_port: u16,
    /// Oldest unacknowledged sequence number.
    pub snd_una: u32,
    /// Next sequence number to send.
    pub snd_nxt: u32,
    /// Next sequence number expected from the peer.
    pub rcv_nxt: u32,
    pub snd_wnd: u16,
    pub rcv_wnd: u16,
    pub rx_buf: VecDeque<u8>,
    pub tx_buf: VecDeque<u8>,
}

/// Mathematical view of a connection: its fields, with the buffers as
/// sequences.
pub ghost struct TcpModel {
    pub state: TcpState,
    pub local_ip: [u8; 4],
    pub remote_ip: [u8; 4],
    pub local_port: u16,
    pub remote_port: u16,
    pub snd_una: u32,
    pub snd_nxt: u32,
    pub rcv_nxt: u32,
    pub snd_wnd: u16,
    pub rcv_wnd: u16,
    pub rx: Seq<u8>,
    pub tx: Seq<u8>,
}

impl View for TcpConn {
    type V = TcpModel;

    open spec fn view(&self) -> TcpModel {
        TcpModel {
            state: self.state,
            local_ip: self.local_ip,
            remote_ip: self.remote_ip,
            local_port: self.local_port,
            remote_port: self.remote_port,
            snd_una: self.snd_una,
            snd_nxt: self.snd_nxt,
            rcv_nxt: self.rcv_nxt,
            snd_wnd: self.snd_wnd,
            rcv_wnd: self.rcv_wnd,
            rx: self.rx_buf@,
            tx: self.tx_buf@,
        }
    }
}

/// A fresh closed connection whose send sequence starts at `isn`.
pub open spec fn fresh_conn(local_ip: [u8; 4], local_port: u16, isn: u32) -> TcpModel {
    TcpModel {
        state: TcpState::Closed,
        local_ip,
        remote_ip: [0u8, 0u8, 0u8, 0u8],
        local_port,
        remote_port: 0,
        snd_una: isn,
        snd_nxt: isn,
        rcv_nxt: 0,
        snd_wnd: 65535,
        rcv_wnd: 65535,
        rx: Seq::empty(),
        tx: Seq::empty(),
    }
}

/// The packet that connection `c` sends with `flags` and `payload`: from its
/// local to its remote end, sequence `snd_nxt`, acknowledging `rcv_nxt`,
/// advertising `rcv_wnd`.
pub open spec fn conn_packet(c: TcpModel, flags: u8, payload: Seq<u8>, ident: u16) -> Seq<u8> {
    tcp_packet(
        c.local_ip@,
        c.remote_ip@,
        c.local_port,
        c.remote_port,
        c.snd_nxt,
        c.rcv_nxt,
        c.rcv_wnd,
        flags,
        payload,
        ident,
    )
}

/// One step of the connection state machine: the connection after segment
/// (`hdr`, `payload`) from `src_ip` arrives, and the reply it sends, if any.
///
/// LISTEN takes a SYN without ACK to SYN_RECEIVED and answers SYN-ACK;
/// SYN_RECEIVED takes the ACK of its SYN to ESTABLISHED; ESTABLISHED records
/// acknowledgments, accepts in-order data (answering ACK) or a FIN (to
/// CLOSE_WAIT, answering ACK); CLOSE_WAIT sends its FIN and moves to LAST_ACK;
/// LAST_ACK closes on an ACK. Every other state ignores the segment.
pub open spec fn tcp_step(
    c: TcpModel,
    src_ip: [u8; 4],
    hdr: TcpHdr,
    payload: Seq<u8>,
    ident: u16,
) -> (TcpModel, Option<Seq<u8>>) {
    match c.state {
        TcpState::Listen => {
            if hdr.has_syn() && !hdr.has_ack() {
                let c1 = TcpModel {
                    remote_ip: src_ip,
                    remote_port: hdr.src_port(),
                    rcv_nxt: seq_add(hdr.seq_num(), 1),
                    state: TcpState::SynReceived,
                    ..c
                };
                (
                    TcpModel { snd_nxt: seq_add(c1.snd_nxt, 1), ..c1 },
                    Some(conn_packet(c1, TCP_SYN | TCP_ACK, Seq::empty(), ident)),
                )
            } else {
                (c, None)
            }
        },
        TcpState::SynReceived => {
            if hdr.has_ack() && hdr.ack_num() == c.snd_nxt {
                (TcpModel { snd_una: hdr.ack_num(), state: TcpState::Established, ..c }, None)
            } else {
                (c, None)
            }
        },
        TcpState::Established => {
            let c1 = if hdr.has_ack() {
                TcpModel { snd_una: hdr.ack_num(), ..c }
            } else {
                c
            };
            if payload.len() > 0 && hdr.seq_num() == c1.rcv_nxt {
                let c2 = TcpModel {
                    rx: c1.rx + payload,
                    rcv_nxt: seq_add(c1.rcv_nxt, payload.len() as u32),
                    ..c1
                };
                (c2, Some(conn_packet(c2, TCP_ACK, Seq::empty(), ident)))
            } else if hdr.has_fin() {
                let c2 = TcpModel {
                    rcv_nxt: seq_add(c1.rcv_nxt, 1),
                    state: TcpState::CloseWait,
                    ..c1
                };
                (c2, Some(conn_packet(c2, TCP_ACK, Seq::empty(), ident)))
            } else {
                (c1, None)
            }
        },
        TcpState::CloseWait => {
            let c1 = TcpModel { state: TcpState::LastAck, ..c };
            (
                TcpModel { snd_nxt: seq_add(c.snd_nxt, 1), ..c1 },
                Some(conn_packet(c1, TCP_FIN | TCP_ACK, Seq::empty(), ident)),
            )
        },
        TcpState::LastAck => {
            if hdr.has_ack() {
                (TcpModel { state: TcpState::Closed, ..c }, None)
            } else {
                (c, None)
            }
        },
        _ => (c, None),
    }
}

/// An empty payload.
pub(crate) fn no_data() -> (r: &'static [u8])
    ensures
        r@ == Seq::<u8>::empty(),
{
    let r: &[u8] = &[];
    assert(r@ =~= Seq::<u8>::empty());
    r
}

/// Append `data` to the back of `buf`.
pub(crate) fn append_bytes(buf: &mut VecDeque<u8>, data: &[u8])
    ensures
        final(buf)@ == old(buf)@ + data@,
{
    let mut i: usize = 0;
    while i < data.len()
        invariant
            i <= data.len(),
            buf@ == old(buf)@ + data@.take(i as int),
        decreases data.len() - i,
    {
        buf.push_back(data[i]);
        i = i + 1;
        assert(old(buf)@ + data@.take(i as int) =~= (old(buf)@ + data@.take(i - 1)).push(
            data@[i - 1],
        ));
    }
    assert(data@.take(data.len() as int) =~= data@);
}

/// The view of an optional packet.
pub open spec fn opt_bytes(p: Option<Vec<u8>>) -> Option<Seq<u8>> {
    match p {
        Some(v) => Some(v@),
        None => None,
    }
}

/// The ephemeral port that a counter reading of `c` yields: its low 16 bits,
/// raised to the start of the ephemeral range when below it.
pub open spec fn ephemeral_port_spec(c: u32) -> u16 {
    if (c as u16) < EPHEMERAL_PORT_BASE {
        EPHEMERAL_PORT_BASE
    } else {
        c as u16
    }
}

/// The ephemeral port for counter reading `c`.
pub fn ephemeral_port_from(c: u32) -> (r: u16)
    ensures
        r == ephemeral_port_spec(c),
        r >= EPHEMERAL_PORT_BASE,
{
    let p = c as u16;
    if p < EPHEMERAL_PORT_BASE {
        EPHEMERAL_PORT_BASE
    } else {
        p
    }
}

/// Take the next ephemeral port from the shared counter `next_port`, which
/// advances by one.
pub fn alloc_ephemeral_port(next_port: &AtomicU32) -> (r: u16)
    ensures
        r >= EPHEMERAL_PORT_BASE,
{
    let c = next_port.fetch_add(1, std::sync::atomic::Ordering::Relaxed);
    ephemeral_port_from(c)
}

impl TcpConn {
    /// A closed connection on `local_ip:local_port` whose send sequence starts
    /// at `isn`.
    pub fn with_isn(local_ip: [u8; 4], local_port: u16, isn: u32) -> (r: Self)
        ensures
            r@ == fresh_conn(local_ip, local_port, isn),
    {
        TcpConn {
            state: TcpState::Closed,
            local_ip,
            remote_ip: [0u8, 0u8, 0u8, 0u8],
            local_port,
            remote_port: 0,
            snd_una: isn,
            snd_nxt: isn,
            rcv_nxt: 0,
            snd_wnd: 65535,
            rcv_wnd: 65535,
            rx_buf: VecDeque::new(),
            tx_buf: VecDeque::new(),
        }
    }

    /// A closed connection on `local_ip:local_port`; its initial sequence
    /// number is drawn from the shared counter `isn_counter`, which advances
    /// by `ISN_STEP`.
    pub fn new(local_ip: [u8; 4], local_port: u16, isn_counter: &AtomicU32) -> (r: Self)
        ensures
            exists|isn: u32| r@ == fresh_conn(local_ip, local_port, isn),
    {
        let isn = isn_counter.fetch_add(ISN_STEP, std::sync::atomic::Ordering::Relaxed);
        TcpConn::with_isn(local_ip, local_port, isn)
    }

    /// Process an incoming segment; returns the reply packet to send, if any.
    /// `ident` is the IPv4 identification a reply carries.
    pub fn process(&mut self, src_ip: [u8; 4], hdr: &TcpHdr, payload: &[u8], ident: u16) -> (r:
        Option<Vec<u8>>)
        ensures
            final(self)@ == tcp_step(old(self)@, src_ip, *hdr, payload@, ident).0,
            opt_bytes(r) == tcp_step(old(self)@, src_ip, *hdr, payload@, ident).1,
            old(self).state == TcpState::Established && !hdr.has_fin() ==> final(self).state
                == TcpState::Established,
            old(self).state == TcpState::Established && !hdr.has_fin() && payload.len() == 0 ==> {
                &&& r is None
                &&& final(self).rcv_nxt == old(self).rcv_nxt
                &&& final(self).rx_buf@ == old(self).rx_buf@
            },
    {
        proof {
            if old(self).state == TcpState::Established {
                lemma_tcp_established_closes_only_on_fin(old(self)@, src_ip, *hdr, payload@, ident);
            }
        }
        match self.state {
            TcpState::Listen => self.process_listen(src_ip, hdr, payload, ident),
            TcpState::SynReceived => self.process_syn_rcvd(hdr, payload),
            TcpState::Established => self.process_established(hdr, payload, ident),
            TcpState::CloseWait => self.process_close_wait(hdr, ident),
            TcpState::LastAck => self.process_last_ack(hdr),
            _ => None,
        }
    }

    fn process_listen(&mut self, src_ip: [u8; 4], hdr: &TcpHdr, _payload: &[u8], ident: u16) -> (r:
        Option<Vec<u8>>)
        requires
            old(self).state == TcpState::Listen,
        ensures
            final(self)@ == tcp_step(old(self)@, src_ip, *hdr, _payload@, ident).0,
            opt_bytes(r) == tcp_step(old(self)@, src_ip, *hdr, _payload@, ident).1,
    {
        if !hdr.has_syn() || hdr.has_ack() {
            return None;
        }
        self.remote_ip = src_ip;
        self.remote_port = hdr.src_port();
        self.rcv_nxt = hdr.seq_num().wrapping_add(1);
        self.state = TcpState::SynReceived;
        let pkt = self.build_tcp_pkt(TCP_SYN | TCP_ACK, no_data(), ident);
        self.snd_nxt = self.snd_nxt.wrapping_add(1);
        Some(pkt)
    }

    fn process_syn_rcvd(&mut self, hdr: &TcpHdr, _payload: &[u8]) -> (r: Option<Vec<u8>>)
        requires
            old(self).state == TcpState::SynReceived,
        ensures
            forall|src_ip: [u8; 4], ident: u16|
                final(self)@ == tcp_step(old(self)@, src_ip, *hdr, _payload@, ident).0
                    && opt_bytes(r) == tcp_step(old(self)@, src_ip, *hdr, _payload@, ident).1,
    {
        if hdr.has_ack() && hdr.ack_num() == self.snd_nxt {
            self.snd_una = hdr.ack_num();
            self.state = TcpState::Established;
        }
        None
    }

    fn process_established(&mut self, hdr: &TcpHdr, payload: &[u8], ident: u16) -> (r: Option<
        Vec<u8>,
    >)
        requires
            old(self).state == TcpState::Established,
        ensures
            forall|src_ip: [u8; 4]|
                final(self)@ == tcp_step(old(self)@, src_ip, *hdr, payload@, ident).0
                    && opt_bytes(r) == tcp_step(old(self)@, src_ip, *hdr, payload@, ident).1,
    {
        if hdr.has_ack() {
            self.snd_una = hdr.ack_num();
        }
        if payload.len() > 0 && hdr.seq_num() == self.rcv_nxt {
            append_bytes(&mut self.rx_buf, payload);
            self.rcv_nxt = self.rcv_nxt.wrapping_add(payload.len() as u32);
            return Some(self.build_tcp_pkt(TCP_ACK, no_data(), ident));
        }
        if hdr.has_fin() {
            self.rcv_nxt = self.rcv_nxt.wrapping_add(1);
            self.state = TcpState::CloseWait;
            return Some(self.build_tcp_pkt(TCP_ACK, no_data(), ident));
        }
        None
    }

    fn process_close_wait(&mut self, _hdr: &TcpHdr, ident: u16) -> (r: Option<Vec<u8>>)
        requires
            old(self).state == TcpState::CloseWait,
        ensures
            forall|src_ip: [u8; 4], payload: Seq<u8>|
                final(self)@ == tcp_step(old(self)@, src_ip, *_hdr, payload, ident).0
                    && opt_bytes(r) == tcp_step(old(self)@, src_ip, *_hdr, payload, ident).1,
    {
        self.state = TcpState::LastAck;
        let pkt = self.build_tcp_pkt(TCP_FIN | TCP_ACK, no_data(), ident);
        self.snd_nxt = self.snd_nxt.wrapping_add(1);
        Some(pkt)
    }

    fn process_last_ack(&mut self, hdr: &TcpHdr) -> (r: Option<Vec<u8>>)
        requires
            old(self).state == TcpState::LastAck,
        ensures
            forall|src_ip: [u8; 4], payload: Seq<u8>, ident: u16|
                final(self)@ == tcp_step(old(self)@, src_ip, *hdr, payload, ident).0
                    && opt_bytes(r) == tcp_step(old(self)@, src_ip, *hdr, payload, ident).1,
    {
        if hdr.has_ack() {
            self.state = TcpState::Closed;
        }
        None
    }

    /// Build a segment of this connection with `flags` and `payload`.
    pub fn build_tcp_pkt(&self, flags: u8, payload: &[u8], ident: u16) -> (r: Vec<u8>)
        requires
            payload.len() + TCP_HDR_LEN + IPV4_HDR_LEN <= 65535,
        ensures
            r@ == conn_packet(self@, flags, payload@, ident),
    {
        build_tcp(
            self.local_ip,
            self.remote_ip,
            self.local_port,
            self.remote_port,
            self.snd_nxt,
            self.rcv_nxt,
            self.rcv_wnd,
            flags,
            payload,
            ident,
        )
    }

    /// Send `data` on an established connection: returns the PSH-ACK segment
    /// and advances `snd_nxt` past the data; `None` in any other state.
    pub fn send(&mut self, data: &[u8], ident: u16) -> (r: Option<Vec<u8>>)
        requires
            data.len() + TCP_HDR_LEN + IPV4_HDR_LEN <= 65535,
        ensures
            old(self).state != TcpState::Established ==> r is None && *final(self) == *old(self),
            old(self).state == TcpState::Established ==> opt_bytes(r) == Some(
                conn_packet(old(self)@, TCP_PSH | TCP_ACK, data@, ident),
            ) && final(self)@ == (TcpModel {
                snd_nxt: seq_add(old(self).snd_nxt, data.len() as u32),
                ..old(self)@
            }),
    {
        if self.state != TcpState::Established {
            return None;
        }
        let pkt = self.build_tcp_pkt(TCP_PSH | TCP_ACK, data, ident);
        self.snd_nxt = self.snd_nxt.wrapping_add(data.len() as u32);
        Some(pkt)
    }

    /// Move received bytes into `buf`, oldest first; returns how many.
    pub fn read(&mut self, buf: &mut [u8]) -> (n: usize)
        ensures
            n == if old(buf)@.len() < old(self).rx_buf@.len() {
                old(buf)@.len()
            } else {
                old(self).rx_buf@.len()
            },
            final(buf)@ == old(self).rx_buf@.take(n as int) + old(buf)@.skip(n as int),
            final(self)@ == (TcpModel { rx: old(self).rx_buf@.skip(n as int), ..old(self)@ }),
    {
        let n = if buf.len() < self.rx_buf.len() {
            buf.len()
        } else {
            self.rx_buf.len()
        };
        let ghost before = self@;
        let ghost buf0 = buf@;
        let mut i: usize = 0;
        assert(before.rx.skip(0) =~= before.rx);
        assert(before.rx.take(0) + buf0.skip(0) =~= buf0);
        while i < n
            invariant
                n <= buf.len(),
                n <= before.rx.len(),
                i <= n,
                buf@.len() == buf0.len(),
                buf@ == before.rx.take(i as int) + buf0.skip(i as int),
                self@ == (TcpModel { rx: before.rx.skip(i as int), ..before }),
            decreases n - i,
        {
            let b = self.rx_buf.pop_front().unwrap();
            buf[i] = b;
            i = i + 1;
            assert(buf@ =~= before.rx.take(i as int) + buf0.skip(i as int));
            assert(self.rx_buf@ =~= before.rx.skip(i as int));
        }
        n
    }

    /// Whether the connection is established.
    pub fn is_established(&self) -> (r: bool)
        ensures
            r == (self.state == TcpState::Established),
    {
        self.state == TcpState::Established
    }
}

/// The edges of the connection state diagram that segment processing
/// follows: LISTEN → SYN_RECEIVED → ESTABLISHED → CLOSE_WAIT → LAST_ACK →
/// CLOSED.
pub open spec fn tcp_edge(from: TcpState, to: TcpState) -> bool {
    ||| from == TcpState::Listen && to == TcpState::SynReceived
    ||| from == TcpState::SynReceived && to == TcpState::Established
    ||| from == TcpState::Established && to == TcpState::CloseWait
    ||| from == TcpState::CloseWait && to == TcpState::LastAck
    ||| from == TcpState::LastAck && to == TcpState::Closed
}

/// Processing a segment either keeps the connection's state or moves it
/// along one edge of the state diagram, and never touches its local
/// endpoint, its windows or its transmit buffer.
pub proof fn lemma_tcp_step_follows_diagram(
    c: TcpModel,
    src_ip: [u8; 4],
    hdr: TcpHdr,
    payload: Seq<u8>,
    ident: u16,
)
    ensures
        ({
            let d = tcp_step(c, src_ip, hdr, payload, ident).0;
            &&& d.state == c.state || tcp_edge(c.state, d.state)
            &&& d.local_ip == c.local_ip
            &&& d.local_port == c.local_port
            &&& d.snd_wnd == c.snd_wnd
            &&& d.rcv_wnd == c.rcv_wnd
            &&& d.tx == c.tx
        }),
{
}

/// Received bytes are only ever appended: after any segment the receive
/// buffer still begins with everything it held before.
pub proof fn lemma_tcp_step_rx_grows(
    c: TcpModel,
    src_ip: [u8; 4],
    hdr: TcpHdr,
    payload: Seq<u8>,
    ident: u16,
)
    ensures
        ({
            let d = tcp_step(c, src_ip, hdr, payload, ident).0;
            d.rx == c.rx || d.rx == c.rx + payload
        }),
{
}

/// Passive open: a listening connection that receives a SYN with sequence
/// number `x` answers with a SYN-ACK that carries its initial sequence number
/// and acknowledges `x + 1`; once the peer acknowledges that SYN-ACK the
/// connection is established, expecting `x + 1` and with nothing left
/// unacknowledged.
pub proof fn lemma_tcp_passive_open(
    c: TcpModel,
    src_ip: [u8; 4],
    syn: TcpHdr,
    ack: TcpHdr,
    payload1: Seq<u8>,
    payload2: Seq<u8>,
    ident1: u16,
    ident2: u16,
)
    requires
        c.state == TcpState::Listen,
        syn.has_syn(),
        !syn.has_ack(),
        ack.has_ack(),
        ack.ack_num() == seq_add(c.snd_nxt, 1),
    ensures
        ({
            let (c1, reply) = tcp_step(c, src_ip, syn, payload1, ident1);
            let (c2, none) = tcp_step(c1, src_ip, ack, payload2, ident2);
            let answered = TcpModel {
                remote_ip: src_ip,
                remote_port: syn.src_port(),
                rcv_nxt: seq_add(syn.seq_num(), 1),
                state: TcpState::SynReceived,
                ..c
            };
            &&& c1.state == TcpState::SynReceived
            &&& reply == Some(conn_packet(answered, TCP_SYN | TCP_ACK, Seq::empty(), ident1))
            &&& answered.snd_nxt == c.snd_nxt
            &&& answered.rcv_nxt == seq_add(syn.seq_num(), 1)
            &&& c2.state == TcpState::Established
            &&& none is None
            &&& c2.remote_ip == src_ip
            &&& c2.remote_port == syn.src_port()
            &&& c2.rcv_nxt == seq_add(syn.seq_num(), 1)
            &&& c2.snd_nxt == seq_add(c.snd_nxt, 1)
            &&& c2.snd_una == c2.snd_nxt
        }),
{
}

/// In-order delivery: on an established connection a non-empty segment whose
/// sequence number is the one expected is appended to the receive buffer,
/// advances `rcv_nxt` by its length and is acknowledged; a segment with any
/// other sequence number delivers nothing.
pub proof fn lemma_tcp_in_order_delivery(
    c: TcpModel,
    src_ip: [u8; 4],
    hdr: TcpHdr,
    payload: Seq<u8>,
    ident: u16,
)
    requires
        c.state == TcpState::Established,
        payload.len() > 0,
    ensures
        ({
            let (d, reply) = tcp_step(c, src_ip, hdr, payload, ident);
            &&& hdr.seq_num() == c.rcv_nxt ==> {
                &&& d.rx == c.rx + payload
                &&& d.rcv_nxt == seq_add(c.rcv_nxt, payload.len() as u32)
                &&& d.state == TcpState::Established
                &&& reply == Some(conn_packet(d, TCP_ACK, Seq::empty(), ident))
            }
            &&& hdr.seq_num() != c.rcv_nxt ==> d.rx == c.rx
        }),
{
}

/// Only a FIN closes the receiving side: on an established connection a
/// segment leads to CLOSE_WAIT only when it carries FIN, and a segment
/// without FIN and without payload (a pure acknowledgment) produces no reply
/// and changes nothing but `snd_una`, which takes its acknowledgment number
/// when it carries ACK.
pub proof fn lemma_tcp_established_closes_only_on_fin(
    c: TcpModel,
    src_ip: [u8; 4],
    hdr: TcpHdr,
    payload: Seq<u8>,
    ident: u16,
)
    requires
        c.state == TcpState::Established,
    ensures
        ({
            let (d, reply) = tcp_step(c, src_ip, hdr, payload, ident);
            &&& d.state == TcpState::Established || d.state == TcpState::CloseWait
            &&& d.state == TcpState::CloseWait ==> hdr.has_fin()
            &&& !hdr.has_fin() ==> d.state == TcpState::Established
            &&& !hdr.has_fin() && payload.len() == 0 ==> {
                &&& reply is None
                &&& d.rcv_nxt == c.rcv_nxt
                &&& d.rx == c.rx
                &&& d == (TcpModel {
                    snd_una: if hdr.has_ack() {
                        hdr.ack_num()
                    } else {
                        c.snd_una
                    },
                    ..c
                })
            }
        }),
{
}

/// Passive close: a FIN on an established connection (with no in-order data)
/// is acknowledged and leads to CLOSE_WAIT; the next segment makes the
/// connection send its own FIN from LAST_ACK, and the peer's ACK of it closes
/// the connection.
pub proof fn lemma_tcp_passive_close(
    c: TcpModel,
    src_ip: [u8; 4],
    fin: TcpHdr,
    any: TcpHdr,
    last: TcpHdr,
    p2: Seq<u8>,
    p3: Seq<u8>,
    ident1: u16,
    ident2: u16,
    ident3: u16,
)
    requires
        c.state == TcpState::Established,
        fin.has_fin(),
        last.has_ack(),
    ensures
        ({
            let (c1, r1) = tcp_step(c, src_ip, fin, Seq::empty(), ident1);
            let (c2, r2) = tcp_step(c1, src_ip, any, p2, ident2);
            let (c3, r3) = tcp_step(c2, src_ip, last, p3, ident3);
            &&& c1.state == TcpState::CloseWait
            &&& c1.rcv_nxt == seq_add(c.rcv_nxt, 1)
            &&& r1 == Some(conn_packet(c1, TCP_ACK, Seq::empty(), ident1))
            &&& c2.state == TcpState::LastAck
            &&& r2 == Some(
                conn_packet(TcpModel { state: TcpState::LastAck, ..c1 }, TCP_FIN | TCP_ACK, Seq::empty(), ident2),
            )
            &&& c2.snd_nxt == seq_add(c1.snd_nxt, 1)
            &&& c3.state == TcpState::Closed
            &&& r3 is None
        }),
{
}

/// The byte stream is delivered in order: two in-order segments on an
/// established connection leave the receive buffer holding what it held, then
/// the first payload, then the second.
pub proof fn lemma_tcp_stream_order(
    c: TcpModel,
    src_ip: [u8; 4],
    h1: TcpHdr,
    h2: TcpHdr,
    p1: Seq<u8>,
    p2: Seq<u8>,
    ident1: u16,
    ident2: u16,
)
    requires
        c.state == TcpState::Established,
        p1.len() > 0,
        p2.len() > 0,
        h1.seq_num() == c.rcv_nxt,
        h2.seq_num() == seq_add(c.rcv_nxt, p1.len() as u32),
    ensures
        ({
            let c1 = tcp_step(c, src_ip, h1, p1, ident1).0;
            let c2 = tcp_step(c1, src_ip, h2, p2, ident2).0;
            &&& c2.state == TcpState::Established
            &&& c2.rx == c.rx + p1 + p2
        }),
{
}

} // verus!
