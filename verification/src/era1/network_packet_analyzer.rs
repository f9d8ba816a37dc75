//! Reports of captured Ethernet frames: IPv4 addresses, and the ports and flags
//! of TCP segments.
//!
//! Capturing happens outside; each frame's bytes are handed in and the lines to
//! print handed back.
use vstd::prelude::*;
use crate::numbers::decimal_text;
use crate::packets::{be16, ether_type, ether_payload, ipv4_payload, ipv4_source, ipv4_destination, decimal, ethernet_fields, ipv4_fields, tcp_fields};
use crate::text::{concat_str, string_views};

verus! {

broadcast use vstd::string::group_string_axioms;

/// The lines reported for an Ethernet frame of at least 14 bytes: for an IPv4
/// packet of at least 20 bytes its addresses, and for a TCP segment of at least 20
/// bytes in it its ports and flags; ARP is named; another type gives its number.
pub open spec fn packet_report(f: Seq<u8>) -> Seq<Seq<char>> {
    let t = ether_type(f);
    if t == 0x0800 {
        let p = ether_payload(f);
        if p.len() >= 20 {
            let first = "IPv4 Packet: "@ + ipv4_source(p) + " -> "@ + ipv4_destination(p);
            let seg = ipv4_payload(p);
            if p[9] == 6 && seg.len() >= 20 {
                seq![first, "TCP Segment: "@ + decimal_text(be16(seg, 0) as nat) + " -> "@
                    + decimal_text(be16(seg, 2) as nat) + " | Flags: "@ + decimal_text(seg[13] as nat)]
            } else {
                seq![first]
            }
        } else {
            Seq::empty()
        }
    } else if t == 0x0806 {
        seq!["ARP Packet detected"@]
    } else {
        seq!["Other Ethernet type: EtherType("@ + decimal_text(t as nat) + ")"@]
    }
}

/// The lines reported for the Ethernet frame `frame`.
pub fn analyze_packet(frame: &[u8]) -> (lines: Vec<String>)
    requires
        frame@.len() >= 14,
    ensures
        string_views(lines@) == packet_report(frame@),
{
    let mut out: Vec<String> = Vec::new();
    let (t, p) = match ethernet_fields(frame) {
        Some(f) => f,
        None => {
            return out;
        },
    };
    if t == 0x0800 {
        match ipv4_fields(p.as_slice()) {
            Some((src, dst, proto, seg)) => {
                let a = concat_str("IPv4 Packet: ", src.as_str());
                let b = concat_str(a.as_str(), " -> ");
                out.push(concat_str(b.as_str(), dst.as_str()));
                if proto == 6 {
                    match tcp_fields(seg.as_slice()) {
                        Some((sp, dp, flags)) => {
                            let sp = decimal(sp as u64);
                            let dp = decimal(dp as u64);
                            let fl = decimal(flags as u64);
                            let c = concat_str("TCP Segment: ", sp.as_str());
                            let d = concat_str(c.as_str(), " -> ");
                            let e = concat_str(d.as_str(), dp.as_str());
                            let g = concat_str(e.as_str(), " | Flags: ");
                            out.push(concat_str(g.as_str(), fl.as_str()));
                        },
                        None => {},
                    }
                }
            },
            None => {},
        }
    } else if t == 0x0806 {
        out.push("ARP Packet detected".to_string());
    } else {
        let n = decimal(t as u64);
        let a = concat_str("Other Ethernet type: EtherType(", n.as_str());
        out.push(concat_str(a.as_str(), ")"));
    }
    assert(string_views(out@) =~= packet_report(frame@));
    out
}

} // verus!
