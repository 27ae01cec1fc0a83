use vstd::prelude::*;
use crate::net::ip::{be16_bytes, push_be16};

verus! {

/// EtherType of IPv4.
pub const ETH_P_IP: u16 = 0x0800;
/// EtherType of ARP.
pub const ETH_P_ARP: u16 = 0x0806;
/// Length of an Ethernet header.
pub const ETH_HDR_LEN: usize = 14;
/// The broadcast hardware address, used when no ARP entry is known.
pub const BROADCAST_MAC: [u8; 6] = [0xff, 0xff, 0xff, 0xff, 0xff, 0xff];

/// An Ethernet frame: destination, source, EtherType, payload (no padding,
/// no frame check sequence).
pub open spec fn ethernet_frame(dst: Seq<u8>, src: Seq<u8>, ethertype: u16, payload: Seq<u8>) -> Seq<
    u8,
> {
    dst + src + be16_bytes(ethertype) + payload
}

/// Frame `payload` for the wire from `src_mac` to `dst_mac`.
pub fn build_ethernet_frame(dst_mac: [u8; 6], src_mac: [u8; 6], ethertype: u16, payload: &[u8]) -> (r:
    Vec<u8>)
    ensures
        r@ == ethernet_frame(dst_mac@, src_mac@, ethertype, payload@),
{
    let mut frame: Vec<u8> = Vec::new();
    let mut i: usize = 0;
    while i < 6
        invariant
            i <= 6,
            frame@ == dst_mac@.take(i as int),
        decreases 6 - i,
    {
        frame.push(dst_mac[i]);
        i = i + 1;
        assert(frame@ =~= dst_mac@.take(i as int));
    }
    assert(dst_mac@.take(6) =~= dst_mac@);
    let mut j: usize = 0;
    while j < 6
        invariant
            j <= 6,
            frame@ == dst_mac@ + src_mac@.take(j as int),
        decreases 6 - j,
    {
        frame.push(src_mac[j]);
        j = j + 1;
        assert(frame@ =~= dst_mac@ + src_mac@.take(j as int));
    }
    assert(src_mac@.take(6) =~= src_mac@);
    push_be16(&mut frame, ethertype);
    frame.extend_from_slice(payload);
    assert(frame@ =~= ethernet_frame(dst_mac@, src_mac@, ethertype, payload@));
    frame
}

} // verus!
