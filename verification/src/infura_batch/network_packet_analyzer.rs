//! One-line reports of captured Ethernet frames and the IPv4 packets they carry.
//!
//! Capturing happens outside; each frame's bytes are handed in and the report, if
//! any, handed back to be printed.
use vstd::prelude::*;
use crate::numbers::decimal_text;
use crate::packets::{be16, ether_type, ether_payload, ipv4_payload, ipv4_source, ipv4_destination, decimal, ethernet_fields, ipv4_fields, tcp_fields, udp_fields};
use crate::text::concat_str;

verus! {

broadcast use vstd::string::group_string_axioms;

/// The report on an IPv4 packet of at least 20 bytes: TCP and UDP give their
/// ports (nothing when the segment is too short), ICMP its addresses, another
/// protocol its number and addresses.
pub open spec fn ipv4_report(p: Seq<u8>) -> Option<Seq<char>> {
    let src = ipv4_source(p);
    let dst = ipv4_destination(p);
    let proto = p[9];
    let payload = ipv4_payload(p);
    if proto == 6 {
        if payload.len() >= 20 {
            Some("TCP Packet: "@ + src + ":"@ + decimal_text(be16(payload, 0) as nat) + " -> "@ + dst
                + ":"@ + decimal_text(be16(payload, 2) as nat))
        } else {
            None
        }
    } else if proto == 17 {
        if payload.len() >= 8 {
            Some("UDP Packet: "@ + src + ":"@ + decimal_text(be16(payload, 0) as nat) + " -> "@ + dst
                + ":"@ + decimal_text(be16(payload, 2) as nat))
        } else {
            None
        }
    } else if proto == 1 {
        Some("ICMP Packet: "@ + src + " -> "@ + dst)
    } else {
        Some("Other IP protocol: IpNextHeaderProtocol("@ + decimal_text(proto as nat) + ") "@ + src
            + " -> "@ + dst)
    }
}

/// The report on an Ethernet frame of at least 14 bytes: an IPv4 packet is
/// reported on when it has at least 20 bytes; IPv6 and ARP are named; another
/// type gives its number.
pub open spec fn ethernet_report(f: Seq<u8>) -> Option<Seq<char>> {
    let t = ether_type(f);
    if t == 0x0800 {
        let p = ether_payload(f);
        if p.len() >= 20 {
            ipv4_report(p)
        } else {
            None
        }
    } else if t == 0x86DD {
        Some("IPv6 packet detected"@)
    } else if t == 0x0806 {
        Some("ARP packet detected"@)
    } else {
        Some("Other Ethernet type: EtherType("@ + decimal_text(t as nat) + ")"@)
    }
}

/// The report on the IPv4 packet `packet`, if one is made.
pub fn analyze_ipv4_packet(packet: &[u8]) -> (r: Option<String>)
    requires
        packet@.len() >= 20,
    ensures
        match r {
            Some(s) => ipv4_report(packet@) == Some(s@),
            None => ipv4_report(packet@) is None,
        },
{
    let (src, dst, proto, payload) = match ipv4_fields(packet) {
        Some(f) => f,
        None => {
            return None;
        },
    };
    if proto == 6 || proto == 17 {
        let ports = if proto == 6 {
            match tcp_fields(payload.as_slice()) {
                Some((sp, dp, _)) => Some((sp, dp)),
                None => None,
            }
        } else {
            udp_fields(payload.as_slice())
        };
        let (sp, dp) = match ports {
            Some(pp) => pp,
            None => {
                return None;
            },
        };
        let sp = decimal(sp as u64);
        let dp = decimal(dp as u64);
        let head = if proto == 6 { "TCP Packet: " } else { "UDP Packet: " };
        let a = concat_str(head, src.as_str());
        let b = concat_str(a.as_str(), ":");
        let c = concat_str(b.as_str(), sp.as_str());
        let d = concat_str(c.as_str(), " -> ");
        let e = concat_str(d.as_str(), dst.as_str());
        let f = concat_str(e.as_str(), ":");
        Some(concat_str(f.as_str(), dp.as_str()))
    } else if proto == 1 {
        let a = concat_str("ICMP Packet: ", src.as_str());
        let b = concat_str(a.as_str(), " -> ");
        Some(concat_str(b.as_str(), dst.as_str()))
    } else {
        let n = decimal(proto as u64);
        let a = concat_str("Other IP protocol: IpNextHeaderProtocol(", n.as_str());
        let b = concat_str(a.as_str(), ") ");
        let c = concat_str(b.as_str(), src.as_str());
        let d = concat_str(c.as_str(), " -> ");
        Some(concat_str(d.as_str(), dst.as_str()))
    }
}

/// The report on the Ethernet frame `frame`, if one is made.
pub fn analyze_ethernet_packet(frame: &[u8]) -> (r: Option<String>)
    requires
        frame@.len() >= 14,
    ensures
        match r {
            Some(s) => ethernet_report(frame@) == Some(s@),
            None => ethernet_report(frame@) is None,
        },
{
    let (t, p) = match ethernet_fields(frame) {
        Some(f) => f,
        None => {
            return None;
        },
    };
    if t == 0x0800 {
        if p.len() >= 20 {
            analyze_ipv4_packet(p.as_slice())
        } else {
            None
        }
    } else if t == 0x86DD {
        Some("IPv6 packet detected".to_string())
    } else if t == 0x0806 {
        Some("ARP packet detected".to_string())
    } else {
        let n = decimal(t as u64);
        let a = concat_str("Other Ethernet type: EtherType(", n.as_str());
        Some(concat_str(a.as_str(), ")"))
    }
}

} // verus!
