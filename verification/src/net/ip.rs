use vstd::prelude::*;
use crate::net::checksum::{internet_checksum, internet_checksum_spec, lemma_checksum_verifies};

verus! {

/// IP protocol number of ICMP.
pub const PROTO_ICMP: u8 = 1;
/// IP protocol number of TCP.
pub const PROTO_TCP: u8 = 6;
/// IP protocol number of UDP.
pub const PROTO_UDP: u8 = 17;
/// Length of an IPv4 header without options.
pub const IPV4_HDR_LEN: usize = 20;
/// Time-to-live stamped on every outgoing packet.
pub const DEFAULT_TTL: u8 = 64;

/// The 16-bit value stored big-endian in two bytes.
pub open spec fn be16_value(b: [u8; 2]) -> u16 {
    (b@[0] as int * 256 + b@[1] as int) as u16
}

/// The 32-bit value stored big-endian in four bytes.
pub open spec fn be32_value(b: [u8; 4]) -> u32 {
    (b@[0] as int * 16777216 + b@[1] as int * 65536 + b@[2] as int * 256 + b@[3] as int) as u32
}

/// Pseudo-header that TCP and UDP checksums cover: source and destination
/// addresses, a zero byte, the protocol and the transport length.
pub open spec fn pseudo_header(src: Seq<u8>, dst: Seq<u8>, proto: u8, len: u16) -> Seq<u8> {
    src + dst + seq![0u8, proto] + be16_bytes(len)
}

/// Big-endian bytes of a 16-bit value.
pub open spec fn be16_bytes(v: u16) -> Seq<u8> {
    seq![(v / 256) as u8, (v % 256) as u8]
}

/// Big-endian bytes of a 32-bit value.
pub open spec fn be32_bytes(v: u32) -> Seq<u8> {
    seq![
        (v / 16777216) as u8,
        ((v / 65536) % 256) as u8,
        ((v / 256) % 256) as u8,
        (v % 256) as u8,
    ]
}

/// Reading back the big-endian bytes of a 32-bit value gives the value.
pub proof fn lemma_be32_roundtrip(v: u32)
    ensures
        be32_value([be32_bytes(v)[0], be32_bytes(v)[1], be32_bytes(v)[2], be32_bytes(v)[3]]) == v,
{
    let x = v as int;
    let a = x / 16777216;
    let r1 = x % 16777216;
    let b = r1 / 65536;
    let r2 = r1 % 65536;
    let c = r2 / 256;
    let d = r2 % 256;
    assert(x == 16777216 * a + r1);
    assert(r1 == 65536 * b + r2);
    assert(r2 == 256 * c + d);
    vstd::arithmetic::div_mod::lemma_fundamental_div_mod_converse(x, 65536, 256 * a + b, r2);
    vstd::arithmetic::div_mod::lemma_fundamental_div_mod_converse(
        256 * a + b,
        256,
        a,
        b,
    );
    vstd::arithmetic::div_mod::lemma_fundamental_div_mod_converse(x, 256, 65536 * a + 256 * b + c, d);
    vstd::arithmetic::div_mod::lemma_fundamental_div_mod_converse(
        65536 * a + 256 * b + c,
        256,
        256 * a + b,
        c,
    );
}

/// Append the big-endian bytes of `x`.
pub fn push_be16(v: &mut Vec<u8>, x: u16)
    ensures
        final(v)@ == old(v)@ + be16_bytes(x),
{
    v.push((x / 256) as u8);
    v.push((x % 256) as u8);
    assert(final(v)@ =~= old(v)@ + be16_bytes(x));
}

/// Append the big-endian bytes of `x`.
pub fn push_be32(v: &mut Vec<u8>, x: u32)
    ensures
        final(v)@ == old(v)@ + be32_bytes(x),
{
    v.push((x / 16777216) as u8);
    v.push(((x / 65536) % 256) as u8);
    v.push(((x / 256) % 256) as u8);
    v.push((x % 256) as u8);
    assert(final(v)@ =~= old(v)@ + be32_bytes(x));
}

/// The 20-byte IPv4 header for a payload of `len` bytes, with `cksum` in its
/// checksum field: version 4, IHL 5, no DSCP, no fragmentation, TTL 64.
pub open spec fn ipv4_header(
    src: Seq<u8>,
    dst: Seq<u8>,
    proto: u8,
    ident: u16,
    len: nat,
    cksum: u16,
) -> Seq<u8> {
    seq![0x45u8, 0u8] + be16_bytes((20 + len) as u16) + be16_bytes(ident) + seq![
        0u8,
        0u8,
        DEFAULT_TTL,
        proto,
    ] + be16_bytes(cksum) + src + dst
}

/// The IPv4 packet carrying `payload`: header with its checksum filled in,
/// followed by the payload.
pub open spec fn ipv4_packet(
    src: Seq<u8>,
    dst: Seq<u8>,
    proto: u8,
    ident: u16,
    payload: Seq<u8>,
) -> Seq<u8> {
    let cksum = internet_checksum_spec(ipv4_header(src, dst, proto, ident, payload.len(), 0));
    ipv4_header(src, dst, proto, ident, payload.len(), cksum) + payload
}

/// Wrap `payload` in an IPv4 header from `src_ip` to `dst_ip` with protocol
/// `proto` and identification `ident`.
pub fn build_ipv4(src_ip: [u8; 4], dst_ip: [u8; 4], proto: u8, payload: &[u8], ident: u16) -> (r:
    Vec<u8>)
    requires
        payload.len() + IPV4_HDR_LEN <= 65535,
    ensures
        r@ == ipv4_packet(src_ip@, dst_ip@, proto, ident, payload@),
{
    let total: u16 = (IPV4_HDR_LEN + payload.len()) as u16;
    let mut pkt: Vec<u8> = Vec::with_capacity(IPV4_HDR_LEN + payload.len());
    pkt.push(0x45u8);
    pkt.push(0u8);
    pkt.push((total / 256) as u8);
    pkt.push((total % 256) as u8);
    pkt.push((ident / 256) as u8);
    pkt.push((ident % 256) as u8);
    pkt.push(0u8);
    pkt.push(0u8);
    pkt.push(DEFAULT_TTL);
    pkt.push(proto);
    pkt.push(0u8);
    pkt.push(0u8);
    pkt.push(src_ip[0]);
    pkt.push(src_ip[1]);
    pkt.push(src_ip[2]);
    pkt.push(src_ip[3]);
    pkt.push(dst_ip[0]);
    pkt.push(dst_ip[1]);
    pkt.push(dst_ip[2]);
    pkt.push(dst_ip[3]);
    let ghost hdr0 = ipv4_header(src_ip@, dst_ip@, proto, ident, payload@.len(), 0);
    assert(pkt@ =~= hdr0);
    let cksum = internet_checksum(pkt.as_slice());
    pkt.set(10, (cksum / 256) as u8);
    pkt.set(11, (cksum % 256) as u8);
    assert(pkt@ =~= ipv4_header(src_ip@, dst_ip@, proto, ident, payload@.len(), cksum));
    pkt.extend_from_slice(payload);
    assert(pkt@ =~= ipv4_packet(src_ip@, dst_ip@, proto, ident, payload@));
    pkt
}

/// The header of a packet built by `build_ipv4` passes the receiver's
/// header-checksum test: the checksum over its 20 bytes is zero.
pub proof fn lemma_ipv4_header_verifies(
    src_ip: [u8; 4],
    dst_ip: [u8; 4],
    proto: u8,
    ident: u16,
    payload: Seq<u8>,
)
    ensures
        internet_checksum_spec(ipv4_packet(src_ip@, dst_ip@, proto, ident, payload).take(20)) == 0,
{
    let h0 = ipv4_header(src_ip@, dst_ip@, proto, ident, payload.len(), 0);
    let c = internet_checksum_spec(h0);
    lemma_checksum_verifies(h0, 10);
    assert(h0.update(10, (c / 256) as u8).update(11, (c % 256) as u8) =~= ipv4_packet(
        src_ip@,
        dst_ip@,
        proto,
        ident,
        payload,
    ).take(20));
}

} // verus!
