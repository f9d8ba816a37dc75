use datakit::beacon::deneb::signed_beacon_block::json_log_processor::parse_json_log_file;
use datakit::beacon::deneb::signed_beacon_block::websocket_server::{Action, Connection, Incoming};
use datakit::infura_batch::network_packet_analyzer::{analyze_ethernet_packet, analyze_ipv4_packet};
use datakit::era1::network_packet_analyzer::analyze_packet;

#[test]
fn connection_stops_after_a_failed_send() {
    let mut c = Connection::new("127.0.0.1:9");
    match c.on_event(Incoming::Text("hi".to_string())) {
        Some(Action::Echo { reply, .. }) => assert_eq!(reply, "Echo: hi"),
        _ => panic!("expected an echo"),
    }
    assert!(c.is_open_now());
    match c.on_event(Incoming::SendFailed("broken pipe".to_string())) {
        Some(Action::Fail { error }) => assert_eq!(error, "Failed to send echo message to 127.0.0.1:9: broken pipe"),
        _ => panic!("expected a failure"),
    }
    assert!(!c.is_open_now());
    assert!(c.on_event(Incoming::Text("again".to_string())).is_none());
}

#[test]
fn connection_closes_on_request_and_ignores_other_messages() {
    let mut c = Connection::new("peer");
    assert!(matches!(c.on_event(Incoming::Other), Some(Action::Ignore { .. })));
    assert!(c.is_open_now());
    assert!(matches!(c.on_event(Incoming::Close), Some(Action::Close { .. })));
    assert!(c.on_event(Incoming::Other).is_none());
}

#[test]
fn json_log_lines_are_decoded_and_kept() {
    let lines = vec![
        r#"{"timestamp": "2024-01-15T10:30:00Z", "level": "info", "message": "started"}"#.to_string(),
        "   ".to_string(),
        r#"{"timestamp": "2024-01-15T10:31:00Z", "level": "error", "message": "failed"}"#.to_string(),
    ];
    let entries = parse_json_log_file(&lines, None, None).unwrap();
    assert_eq!(entries.len(), 2);
    assert_eq!(entries[1].message, "failed");
    let bad = vec!["{not json".to_string()];
    assert!(parse_json_log_file(&bad, None, None).is_err());
}

fn frame(ether_type: [u8; 2], payload: &[u8]) -> Vec<u8> {
    let mut f = vec![0xde, 0xf0, 0x12, 0x34, 0x45, 0x67, 0x12, 0x34, 0x56, 0x78, 0x9a, 0xbc];
    f.extend_from_slice(&ether_type);
    f.extend_from_slice(payload);
    f
}

fn ipv4(proto: u8, segment: &[u8]) -> Vec<u8> {
    let total = (20 + segment.len()) as u16;
    let mut p = vec![0x45, 0, (total >> 8) as u8, total as u8, 0, 0, 0, 0, 64, proto, 0, 0, 192, 168, 1, 2, 10, 0, 0, 1];
    p.extend_from_slice(segment);
    p
}

fn tcp_segment() -> Vec<u8> {
    vec![0x01, 0xBB, 0xC7, 0x38, 0, 0, 0, 1, 0, 0, 0, 0, 0x50, 0x18, 0xFF, 0xFF, 0, 0, 0, 0]
}

#[test]
fn ipv4_reports_of_frames() {
    let tcp = frame([0x08, 0x00], &ipv4(6, &tcp_segment()));
    assert_eq!(
        analyze_ethernet_packet(&tcp),
        Some("TCP Packet: 192.168.1.2:443 -> 10.0.0.1:51000".to_string())
    );
    let udp = frame([0x08, 0x00], &ipv4(17, &[0x00, 0x35, 0x14, 0xE9, 0, 8, 0, 0]));
    assert_eq!(analyze_ethernet_packet(&udp), Some("UDP Packet: 192.168.1.2:53 -> 10.0.0.1:5353".to_string()));
    let icmp = ipv4(1, &[8, 0, 0, 0]);
    assert_eq!(analyze_ipv4_packet(&icmp), Some("ICMP Packet: 192.168.1.2 -> 10.0.0.1".to_string()));
    let short_tcp = ipv4(6, &[1, 2, 3]);
    assert_eq!(analyze_ipv4_packet(&short_tcp), None);
    assert_eq!(analyze_ethernet_packet(&frame([0x08, 0x06], &[])), Some("ARP packet detected".to_string()));
}

#[test]
fn packet_lines_of_frames() {
    let tcp = frame([0x08, 0x00], &ipv4(6, &tcp_segment()));
    assert_eq!(
        analyze_packet(&tcp),
        vec!["IPv4 Packet: 192.168.1.2 -> 10.0.0.1".to_string(), "TCP Segment: 443 -> 51000 | Flags: 24".to_string()]
    );
    let udp = frame([0x08, 0x00], &ipv4(17, &[0, 53, 0, 53, 0, 8, 0, 0]));
    assert_eq!(analyze_packet(&udp), vec!["IPv4 Packet: 192.168.1.2 -> 10.0.0.1".to_string()]);
    assert_eq!(analyze_packet(&frame([0x08, 0x06], &[])), vec!["ARP Packet detected".to_string()]);
    assert_eq!(analyze_packet(&frame([0x12, 0x34], &[])), vec!["Other Ethernet type: EtherType(4660)".to_string()]);
}
