use wifi_sniff::packet_sniffer::{parse_mac_address, parse_packet};

fn ethernet(ethertype: u16) -> Vec<u8> {
    let mut d = vec![0xAA, 0xBB, 0xCC, 0xDD, 0xEE, 0xFF, 0x00, 0x11, 0x22, 0x33, 0x44, 0x0A];
    d.extend_from_slice(&ethertype.to_be_bytes());
    d
}

fn ipv4(proto: u8, src: [u8; 4], dst: [u8; 4]) -> Vec<u8> {
    let mut h = vec![0x45, 0, 0, 60, 0, 0, 0, 0, 64, proto, 0, 0];
    h.extend_from_slice(&src);
    h.extend_from_slice(&dst);
    h
}

fn ipv6(next: u8, src: [u8; 16], dst: [u8; 16]) -> Vec<u8> {
    let mut h = vec![0x60, 0, 0, 0, 0, 20, next, 64];
    h.extend_from_slice(&src);
    h.extend_from_slice(&dst);
    h
}

fn tcp(src: u16, dst: u16) -> Vec<u8> {
    let mut h = Vec::new();
    h.extend_from_slice(&src.to_be_bytes());
    h.extend_from_slice(&dst.to_be_bytes());
    h.extend_from_slice(&[0, 0, 0, 1, 0, 0, 0, 0, 0x50, 0x18, 0xFF, 0xFF, 0, 0, 0, 0]);
    h
}

fn udp(src: u16, dst: u16) -> Vec<u8> {
    let mut h = Vec::new();
    h.extend_from_slice(&src.to_be_bytes());
    h.extend_from_slice(&dst.to_be_bytes());
    h.extend_from_slice(&[0, 8, 0, 0]);
    h
}

#[test]
fn ipv4_tcp_http_payload() {
    let mut d = ethernet(0x0800);
    d.extend(ipv4(6, [192, 168, 1, 2], [10, 0, 0, 255]));
    d.extend(tcp(51000, 80));
    d.extend_from_slice(b"GET / HTTP/1.1\r\n");
    let p = parse_packet(&d, 1700000000).unwrap();
    assert_eq!(p.dst_mac, "AA:BB:CC:DD:EE:FF");
    assert_eq!(p.src_mac, "00:11:22:33:44:0A");
    assert_eq!(p.src_ip.as_deref(), Some("192.168.1.2"));
    assert_eq!(p.dst_ip.as_deref(), Some("10.0.0.255"));
    assert_eq!(p.protocol, "IPv4 (6)");
    assert_eq!(p.src_port, Some(51000));
    assert_eq!(p.dst_port, Some(80));
    assert_eq!(p.payload.as_deref(), Some("GET / HTTP/1.1\r\n"));
    assert_eq!(p.length, d.len());
    assert_eq!(p.timestamp, 1700000000);
}

#[test]
fn tcp_other_port_has_no_payload() {
    let mut d = ethernet(0x0800);
    d.extend(ipv4(6, [1, 2, 3, 4], [5, 6, 7, 8]));
    d.extend(tcp(80, 443));
    d.extend_from_slice(b"hello");
    let p = parse_packet(&d, 0).unwrap();
    assert_eq!(p.dst_port, Some(443));
    assert_eq!(p.payload, None);
}

#[test]
fn invalid_utf8_http_payload_unset() {
    let mut d = ethernet(0x0800);
    d.extend(ipv4(6, [1, 2, 3, 4], [5, 6, 7, 8]));
    d.extend(tcp(1234, 80));
    d.extend_from_slice(&[0xC3, 0x28]);
    let p = parse_packet(&d, 0).unwrap();
    assert_eq!(p.dst_port, Some(80));
    assert_eq!(p.payload, None);
}

#[test]
fn ipv6_udp_compressed_addresses() {
    let mut src = [0u8; 16];
    src[0] = 0xFE;
    src[1] = 0x80;
    src[15] = 1;
    let dst = [
        0x20, 0x01, 0x0D, 0xB8, 0, 0, 0, 0, 0, 0, 0xFF, 0x00, 0x00, 0x42, 0x83, 0x29,
    ];
    let mut d = ethernet(0x86DD);
    d.extend(ipv6(17, src, dst));
    d.extend(udp(5353, 53));
    let p = parse_packet(&d, 7).unwrap();
    assert_eq!(p.src_ip.as_deref(), Some("fe80::1"));
    assert_eq!(p.dst_ip.as_deref(), Some("2001:db8::ff00:42:8329"));
    assert_eq!(p.protocol, "IPv6 (17)");
    assert_eq!(p.src_port, Some(5353));
    assert_eq!(p.dst_port, Some(53));
    assert_eq!(p.payload, None);
}

#[test]
fn ipv6_text_forms() {
    let mapped = [0, 0, 0, 0, 0, 0, 0, 0, 0, 0, 0xFF, 0xFF, 192, 0, 2, 1];
    let unspecified = [0u8; 16];
    let mut no_run = [0u8; 16];
    for (i, b) in no_run.iter_mut().enumerate() {
        *b = (i as u8) * 16 + 1;
    }
    let mut single = [0u8; 16];
    single[1] = 1;
    single[5] = 2;
    single[15] = 3;
    let mut d = ethernet(0x86DD);
    d.extend(ipv6(58, mapped, unspecified));
    let p = parse_packet(&d, 0).unwrap();
    assert_eq!(p.src_ip.as_deref(), Some("::ffff:192.0.2.1"));
    assert_eq!(p.dst_ip.as_deref(), Some("::"));
    assert_eq!(p.protocol, "IPv6 (58)");
    assert_eq!(p.src_port, None);
    let mut d = ethernet(0x86DD);
    d.extend(ipv6(6, no_run, single));
    let p = parse_packet(&d, 0).unwrap();
    assert_eq!(p.src_ip.as_deref(), Some("111:2131:4151:6171:8191:a1b1:c1d1:e1f1"));
    assert_eq!(p.dst_ip.as_deref(), Some("1:0:2::3"));
    assert_eq!(p.src_port, None);
}

#[test]
fn unknown_ethertype_label() {
    let mut d = ethernet(0x0806);
    d.extend_from_slice(&[0u8; 28]);
    let p = parse_packet(&d, 0).unwrap();
    assert_eq!(p.protocol, "Unknown (0x0806)");
    assert_eq!(p.src_ip, None);
    assert_eq!(p.src_port, None);
}

#[test]
fn short_packet_rejected() {
    let d = vec![0u8; 13];
    assert!(parse_packet(&d, 0).is_err());
    let d = vec![0u8; 14];
    assert!(parse_packet(&d, 0).is_ok());
}

#[test]
fn short_ip_header_leaves_fields_unset() {
    let mut d = ethernet(0x0800);
    d.extend_from_slice(&[0x45, 0, 0, 20, 0, 0]);
    let p = parse_packet(&d, 0).unwrap();
    assert_eq!(p.protocol, "");
    assert_eq!(p.src_ip, None);
    assert_eq!(p.dst_port, None);
}

#[test]
fn wrong_ip_version_leaves_fields_unset() {
    let mut d = ethernet(0x0800);
    let mut h = ipv4(17, [1, 1, 1, 1], [2, 2, 2, 2]);
    h[0] = 0x65;
    d.extend(h);
    d.extend(udp(1, 2));
    let p = parse_packet(&d, 0).unwrap();
    assert_eq!(p.src_ip, None);
    assert_eq!(p.src_port, None);
}

#[test]
fn short_transport_header_skipped() {
    let mut d = ethernet(0x0800);
    d.extend(ipv4(17, [1, 1, 1, 1], [2, 2, 2, 2]));
    d.extend_from_slice(&[0, 53, 0]);
    let p = parse_packet(&d, 0).unwrap();
    assert_eq!(p.src_ip.as_deref(), Some("1.1.1.1"));
    assert_eq!(p.protocol, "IPv4 (17)");
    assert_eq!(p.src_port, None);
}

#[test]
fn mac_address_text() {
    assert_eq!(parse_mac_address(&[0x00, 0x1A, 0xFF, 0x09, 0xA0, 0x5B]), "00:1A:FF:09:A0:5B");
    assert_eq!(parse_mac_address(&[]), "");
    assert_eq!(parse_mac_address(&[7]), "07");
}

#[test]
fn truncated_packet_keeps_decoded_fields() {
    let mut d = ethernet(0x0800);
    d.extend(ipv4(6, [192, 168, 1, 2], [10, 0, 0, 1]));
    d.extend(tcp(1234, 80));
    d.extend_from_slice(b"GET /");
    let whole = parse_packet(&d, 0).unwrap();
    for k in 14..=d.len() {
        let p = parse_packet(&d[..k], 0).unwrap();
        assert_eq!(p.length, k);
        assert_eq!(p.src_mac, whole.src_mac);
        assert_eq!(p.dst_mac, whole.dst_mac);
        assert!(p.src_ip.is_none() || p.src_ip == whole.src_ip);
        assert!(p.dst_ip.is_none() || p.dst_ip == whole.dst_ip);
        assert!(p.src_port.is_none() || p.src_port == whole.src_port);
        assert!(p.dst_port.is_none() || p.dst_port == whole.dst_port);
    }
}
