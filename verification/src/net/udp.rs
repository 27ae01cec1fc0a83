use vstd::prelude::*;
use crate::net::checksum::{internet_checksum, internet_checksum_spec, lemma_checksum_verifies};
use crate::net::ip::{
    be16_bytes,
    be16_value,
    build_ipv4,
    ipv4_packet,
    pseudo_header,
    IPV4_HDR_LEN,
    PROTO_UDP,
};

verus! {

/// Length of a UDP header.
pub const UDP_HDR_LEN: usize = 8;

/// UDP header as it stands on the wire (8 bytes, big-endian fields).
#[derive(Debug, Clone, Copy)]
pub struct UdpHdr {
    pub src_port: [u8; 2],
    pub dst_port: [u8; 2],
    pub length: [u8; 2],
    pub checksum: [u8; 2],
}

impl UdpHdr {
    pub open spec fn src_port_spec(&self) -> u16 {
        be16_value(self.src_port)
    }

    pub open spec fn dst_port_spec(&self) -> u16 {
        be16_value(self.dst_port)
    }

    pub open spec fn length_spec(&self) -> u16 {
        be16_value(self.length)
    }

    /// Source port.
    #[verifier::when_used_as_spec(src_port_spec)]
    pub fn src_port(&self) -> (r: u16)
        ensures
            r == self.src_port_spec(),
    {
        (self.src_port[0] as u16) * 256 + (self.src_port[1] as u16)
    }

    /// Destination port.
    #[verifier::when_used_as_spec(dst_port_spec)]
    pub fn dst_port(&self) -> (r: u16)
        ensures
            r == self.dst_port_spec(),
    {
        (self.dst_port[0] as u16) * 256 + (self.dst_port[1] as u16)
    }

    /// Length of header plus payload, as the header states it.
    #[verifier::when_used_as_spec(length_spec)]
    pub fn length(&self) -> (r: u16)
        ensures
            r == self.length_spec(),
    {
        (self.length[0] as u16) * 256 + (self.length[1] as u16)
    }
}

/// The header held in the first eight bytes of `data`.
pub open spec fn udp_hdr_of(data: Seq<u8>) -> UdpHdr {
    UdpHdr {
        src_port: [data[0], data[1]],
        dst_port: [data[2], data[3]],
        length: [data[4], data[5]],
        checksum: [data[6], data[7]],
    }
}

/// The payload that a UDP datagram `data` carries: the bytes after the header,
/// as many as the length field announces but no more than there are.
pub open spec fn udp_payload_of(data: Seq<u8>) -> Seq<u8> {
    let announced = udp_hdr_of(data).length_spec() - 8;
    let present = data.len() - 8;
    data.subrange(8, 8 + if announced < present { announced } else { present })
}

/// The payload of a datagram is bounded by its length field: it is the bytes
/// from offset 8 on, never reaching past the announced length (bytes after
/// it, such as link-layer padding, are not payload), all of the announced
/// payload when the data holds it, and everything present otherwise.
pub proof fn lemma_udp_payload_bounded(data: Seq<u8>)
    requires
        data.len() >= UDP_HDR_LEN,
        udp_hdr_of(data).length_spec() >= UDP_HDR_LEN,
    ensures
        ({
            let p = udp_payload_of(data);
            let len = udp_hdr_of(data).length_spec();
            &&& p == data.subrange(8, 8 + p.len() as int)
            &&& p.len() + 8 <= len
            &&& data.len() >= len ==> p.len() + 8 == len
            &&& data.len() < len ==> p.len() == data.len() - 8
        }),
{
}

/// Split a UDP datagram into its header and payload; `None` when it is
/// shorter than a header.
pub fn parse_udp(data: &[u8]) -> (r: Option<(UdpHdr, &[u8])>)
    requires
        data.len() >= UDP_HDR_LEN ==> udp_hdr_of(data@).length_spec() >= UDP_HDR_LEN,
    ensures
        data.len() < UDP_HDR_LEN <==> r is None,
        r matches Some((hdr, payload)) ==> hdr == udp_hdr_of(data@) && payload@ == udp_payload_of(
            data@,
        ),
        r matches Some((hdr, payload)) ==> {
            &&& payload@ == data@.subrange(8, 8 + payload@.len() as int)
            &&& payload@.len() + 8 <= hdr.length_spec()
            &&& data@.len() >= hdr.length_spec() ==> payload@.len() + 8 == hdr.length_spec()
            &&& data@.len() < hdr.length_spec() ==> payload@.len() == data@.len() - 8
        },
{
    if data.len() < UDP_HDR_LEN {
        return None;
    }
    let hdr = UdpHdr {
        src_port: [data[0], data[1]],
        dst_port: [data[2], data[3]],
        length: [data[4], data[5]],
        checksum: [data[6], data[7]],
    };
    assert(hdr.src_port@ =~= seq![data@[0], data@[1]]);
    let payload_len = hdr.length() as usize - UDP_HDR_LEN;
    let present = data.len() - UDP_HDR_LEN;
    let take = if payload_len < present { payload_len } else { present };
    let payload = &data[UDP_HDR_LEN..UDP_HDR_LEN + take];
    Some((hdr, payload))
}

/// The UDP datagram (header and payload) with `cksum` in its checksum field.
pub open spec fn udp_datagram(src_port: u16, dst_port: u16, payload: Seq<u8>, cksum: u16) -> Seq<
    u8,
> {
    be16_bytes(src_port) + be16_bytes(dst_port) + be16_bytes((8 + payload.len()) as u16)
        + be16_bytes(cksum) + payload
}

/// The checksum of a UDP datagram sent from `src_ip` to `dst_ip`: computed
/// over the pseudo-header and the datagram with a zero checksum field.
pub open spec fn udp_checksum_spec(
    src_ip: Seq<u8>,
    dst_ip: Seq<u8>,
    src_port: u16,
    dst_port: u16,
    payload: Seq<u8>,
) -> u16 {
    internet_checksum_spec(
        pseudo_header(src_ip, dst_ip, PROTO_UDP, (8 + payload.len()) as u16) + udp_datagram(
            src_port,
            dst_port,
            payload,
            0,
        ),
    )
}

/// The UDP datagram that `build_udp` places inside the IPv4 packet.
pub open spec fn udp_segment(
    src_ip: Seq<u8>,
    dst_ip: Seq<u8>,
    src_port: u16,
    dst_port: u16,
    payload: Seq<u8>,
) -> Seq<u8> {
    udp_datagram(
        src_port,
        dst_port,
        payload,
        udp_checksum_spec(src_ip, dst_ip, src_port, dst_port, payload),
    )
}

/// Build an IPv4 packet carrying a UDP datagram with a pseudo-header checksum.
pub fn build_udp(
    src_ip: [u8; 4],
    dst_ip: [u8; 4],
    src_port: u16,
    dst_port: u16,
    payload: &[u8],
    ident: u16,
) -> (r: Vec<u8>)
    requires
        payload.len() + UDP_HDR_LEN + IPV4_HDR_LEN <= 65535,
    ensures
        r@ == ipv4_packet(
            src_ip@,
            dst_ip@,
            PROTO_UDP,
            ident,
            udp_segment(src_ip@, dst_ip@, src_port, dst_port, payload@),
        ),
{
    let length: u16 = (UDP_HDR_LEN + payload.len()) as u16;
    let mut udp: Vec<u8> = Vec::with_capacity(UDP_HDR_LEN + payload.len());
    udp.push((src_port / 256) as u8);
    udp.push((src_port % 256) as u8);
    udp.push((dst_port / 256) as u8);
    udp.push((dst_port % 256) as u8);
    udp.push((length / 256) as u8);
    udp.push((length % 256) as u8);
    udp.push(0u8);
    udp.push(0u8);
    udp.extend_from_slice(payload);
    assert(udp@ =~= udp_datagram(src_port, dst_port, payload@, 0));
    let cksum = udp_checksum(&src_ip, &dst_ip, udp.as_slice());
    udp.set(6, (cksum / 256) as u8);
    udp.set(7, (cksum % 256) as u8);
    assert(udp@ =~= udp_segment(src_ip@, dst_ip@, src_port, dst_port, payload@));
    build_ipv4(src_ip, dst_ip, PROTO_UDP, udp.as_slice(), ident)
}

fn udp_checksum(src_ip: &[u8; 4], dst_ip: &[u8; 4], udp: &[u8]) -> (r: u16)
    requires
        udp.len() + IPV4_HDR_LEN <= 65535,
    ensures
        r == internet_checksum_spec(
            pseudo_header(src_ip@, dst_ip@, PROTO_UDP, udp.len() as u16) + udp@,
        ),
{
    let mut pseudo: Vec<u8> = Vec::new();
    pseudo.push(src_ip[0]);
    pseudo.push(src_ip[1]);
    pseudo.push(src_ip[2]);
    pseudo.push(src_ip[3]);
    pseudo.push(dst_ip[0]);
    pseudo.push(dst_ip[1]);
    pseudo.push(dst_ip[2]);
    pseudo.push(dst_ip[3]);
    pseudo.push(0u8);
    pseudo.push(PROTO_UDP);
    let len = udp.len() as u16;
    pseudo.push((len / 256) as u8);
    pseudo.push((len % 256) as u8);
    pseudo.extend_from_slice(udp);
    assert(pseudo@ =~= pseudo_header(src_ip@, dst_ip@, PROTO_UDP, len) + udp@);
    internet_checksum(pseudo.as_slice())
}

/// A datagram built by `build_udp` passes the receiver's checksum test: the
/// checksum over the pseudo-header and the datagram as sent is zero.
pub proof fn lemma_udp_checksum_verifies(
    src_ip: [u8; 4],
    dst_ip: [u8; 4],
    src_port: u16,
    dst_port: u16,
    payload: Seq<u8>,
)
    ensures
        internet_checksum_spec(
            pseudo_header(src_ip@, dst_ip@, PROTO_UDP, (8 + payload.len()) as u16) + udp_segment(
                src_ip@,
                dst_ip@,
                src_port,
                dst_port,
                payload,
            ),
        ) == 0,
{
    let ph = pseudo_header(src_ip@, dst_ip@, PROTO_UDP, (8 + payload.len()) as u16);
    let s = ph + udp_datagram(src_port, dst_port, payload, 0);
    let c = internet_checksum_spec(s);
    lemma_checksum_verifies(s, 18);
    assert(s.update(18, (c / 256) as u8).update(19, (c % 256) as u8) =~= ph + udp_segment(
        src_ip@,
        dst_ip@,
        src_port,
        dst_port,
        payload,
    ));
}

/// What a receiver parses out of a datagram built by `build_udp` is what was
/// sent: the ports, the announced length and the payload.
pub proof fn lemma_udp_parse_build(
    src_ip: [u8; 4],
    dst_ip: [u8; 4],
    src_port: u16,
    dst_port: u16,
    payload: Seq<u8>,
)
    requires
        payload.len() + UDP_HDR_LEN + IPV4_HDR_LEN <= 65535,
    ensures
        ({
            let d = udp_segment(src_ip@, dst_ip@, src_port, dst_port, payload);
            &&& udp_hdr_of(d).src_port_spec() == src_port
            &&& udp_hdr_of(d).dst_port_spec() == dst_port
            &&& udp_hdr_of(d).length_spec() == 8 + payload.len()
            &&& udp_payload_of(d) == payload
        }),
{
    let d = udp_segment(src_ip@, dst_ip@, src_port, dst_port, payload);
    assert(udp_hdr_of(d).src_port@ =~= seq![d[0], d[1]]);
    assert(udp_hdr_of(d).dst_port@ =~= seq![d[2], d[3]]);
    assert(udp_hdr_of(d).length@ =~= seq![d[4], d[5]]);
    assert(d.subrange(8, d.len() as int) =~= payload);
}

} // verus!
