//! The fields of Ethernet frames, IPv4 packets and TCP and UDP segments, as the
//! `pnet` crate reads them from their bytes, and what they are in terms of the
//! bytes as the header layouts place them.
use vstd::prelude::*;
use crate::numbers::{decimal_text, signed_decimal};
use crate::text::concat_str;

verus! {

broadcast use vstd::string::group_string_axioms;

/// The big-endian 16-bit number at `b[i..i + 2]`.
pub open spec fn be16(b: Seq<u8>, i: int) -> int {
    b[i] * 256 + b[i + 1]
}

/// The ether type of an Ethernet frame of at least 14 bytes.
pub open spec fn ether_type(f: Seq<u8>) -> int {
    be16(f, 12)
}

/// What an Ethernet frame carries: everything after its 14-byte header.
pub open spec fn ether_payload(f: Seq<u8>) -> Seq<u8> {
    if f.len() <= 14 {
        Seq::empty()
    } else {
        f.subrange(14, f.len() as int)
    }
}

/// The header length of an IPv4 packet, in 4-byte words.
pub open spec fn ipv4_header_words(p: Seq<u8>) -> int {
    (p[0] % 16) as int
}

/// What an IPv4 packet of at least 20 bytes carries: from the end of its header
/// (options included) for as many bytes as its total length leaves, cut at the
/// end of the bytes.
pub open spec fn ipv4_payload(p: Seq<u8>) -> Seq<u8> {
    let hl = ipv4_header_words(p) * 4;
    let options = if hl > 20 { hl - 20 } else { 0 };
    let start = 20 + options;
    let total = be16(p, 2);
    let len = if total > hl { total - hl } else { 0 };
    let end = if start + len < p.len() { start + len } else { p.len() as int };
    if p.len() <= start {
        Seq::empty()
    } else {
        p.subrange(start, end)
    }
}

/// The dotted decimal form of the four address bytes `a`.
pub open spec fn dotted(a: Seq<u8>) -> Seq<char> {
    decimal_text(a[0] as nat) + "."@ + decimal_text(a[1] as nat) + "."@ + decimal_text(a[2] as nat)
        + "."@ + decimal_text(a[3] as nat)
}

/// The source address of an IPv4 packet, dotted.
pub open spec fn ipv4_source(p: Seq<u8>) -> Seq<char> {
    dotted(p.subrange(12, 16))
}

/// The destination address of an IPv4 packet, dotted.
pub open spec fn ipv4_destination(p: Seq<u8>) -> Seq<char> {
    dotted(p.subrange(16, 20))
}

/// The decimal text of `n`.
pub fn decimal(n: u64) -> (s: String)
    ensures
        s@ == decimal_text(n as nat),
{
    signed_decimal(n as i128)
}

/// `EthernetPacket::new` of `pnet`, then `get_ethertype` and `payload`: `None`
/// for a frame shorter than its 14-byte header, else the type (the big-endian
/// number at bytes 12 and 13) and the bytes after the header.
#[verifier::external_body]
pub(crate) fn ethernet_fields(frame: &[u8]) -> (r: Option<(u16, Vec<u8>)>)
    ensures
        match r {
            None => frame@.len() < 14,
            Some((t, p)) => frame@.len() >= 14 && t == ether_type(frame@) && p@ == ether_payload(frame@),
        },
{
    match pnet::packet::ethernet::EthernetPacket::new(frame) {
        None => None,
        Some(e) => Some((e.get_ethertype().0, pnet::packet::Packet::payload(&e).to_vec())),
    }
}

/// `Ipv4Packet::new` of `pnet`, then `get_source` and `get_destination` written
/// as `Ipv4Addr` writes itself (dotted decimal), `get_next_level_protocol` and
/// `payload`: `None` for fewer than 20 bytes, else the two addresses, the
/// protocol number (byte 9) and the bytes the packet carries, which the header
/// length and total length bound as `ipv4_payload` says.
#[verifier::external_body]
pub(crate) fn ipv4_fields(packet: &[u8]) -> (r: Option<(String, String, u8, Vec<u8>)>)
    ensures
        match r {
            None => packet@.len() < 20,
            Some((s, d, n, p)) => packet@.len() >= 20 && s@ == ipv4_source(packet@) && d@ == ipv4_destination(
                packet@,
            ) && n == packet@[9] && p@ == ipv4_payload(packet@),
        },
{
    match pnet::packet::ipv4::Ipv4Packet::new(packet) {
        None => None,
        Some(ip) => Some((
            ip.get_source().to_string(),
            ip.get_destination().to_string(),
            ip.get_next_level_protocol().0,
            pnet::packet::Packet::payload(&ip).to_vec(),
        )),
    }
}

/// `TcpPacket::new` of `pnet`, then `get_source`, `get_destination` and
/// `get_flags`: `None` for fewer than 20 bytes, else the two ports (big-endian at
/// bytes 0 and 2) and the flags byte (byte 13).
#[verifier::external_body]
pub(crate) fn tcp_fields(segment: &[u8]) -> (r: Option<(u16, u16, u8)>)
    ensures
        match r {
            None => segment@.len() < 20,
            Some((sp, dp, f)) => segment@.len() >= 20 && sp == be16(segment@, 0) && dp == be16(segment@, 2)
                && f == segment@[13],
        },
{
    match pnet::packet::tcp::TcpPacket::new(segment) {
        None => None,
        Some(t) => Some((t.get_source(), t.get_destination(), t.get_flags())),
    }
}

/// `UdpPacket::new` of `pnet`, then `get_source` and `get_destination`: `None`
/// for fewer than 8 bytes, else the two ports (big-endian at bytes 0 and 2).
#[verifier::external_body]
pub(crate) fn udp_fields(datagram: &[u8]) -> (r: Option<(u16, u16)>)
    ensures
        match r {
            None => datagram@.len() < 8,
            Some((sp, dp)) => datagram@.len() >= 8 && sp == be16(datagram@, 0) && dp == be16(datagram@, 2),
        },
{
    match pnet::packet::udp::UdpPacket::new(datagram) {
        None => None,
        Some(u) => Some((u.get_source(), u.get_destination())),
    }
}

} // verus!
