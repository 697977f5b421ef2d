use wifi_sniff::packet_sniffer::{parse_packet, PacketCapture};

fn packet(ts: u64) -> wifi_sniff::packet_sniffer::PacketInfo {
    parse_packet(&[0u8; 20], ts).unwrap()
}

#[test]
fn fetch_since_second_empty() {
    let mut c = PacketCapture::new();
    c.start_capture("eth0".to_string());
    c.record(packet(10));
    c.record(packet(11));
    c.record(packet(11));
    let first = c.fetch_new_packets();
    assert_eq!(first.len(), 3);
    assert_eq!(c.last_fetch_timestamp, 11);
    assert!(c.fetch_new_packets().is_empty());
    c.record(packet(12));
    let third = c.fetch_new_packets();
    assert_eq!(third.len(), 1);
    assert_eq!(third[0].timestamp, 12);
}

#[test]
fn fetch_without_session_is_empty() {
    let mut c = PacketCapture::new();
    assert!(!c.is_running());
    assert!(c.fetch_new_packets().is_empty());
    assert_eq!(c.last_fetch_timestamp, 0);
}

#[test]
fn start_and_stop_capture() {
    let mut c = PacketCapture::new();
    c.start_capture("wlan0".to_string());
    assert!(c.is_running());
    assert_eq!(c.device.as_deref(), Some("wlan0"));
    c.record(packet(5));
    c.stop_capture();
    assert!(!c.is_running());
    assert_eq!(c.device, None);
    assert_eq!(c.captured_packets.len(), 1);
}

#[test]
fn same_second_packets_after_fetch_not_repeated() {
    let mut c = PacketCapture::new();
    c.record(packet(7));
    assert_eq!(c.fetch_new_packets().len(), 1);
    c.record(packet(7));
    assert!(c.fetch_new_packets().is_empty());
}

#[test]
fn fetch_mark_is_latest_timestamp() {
    let mut c = PacketCapture::new();
    c.record(packet(5));
    c.record(packet(3));
    let first = c.fetch_new_packets();
    assert_eq!(first.len(), 2);
    assert_eq!(first[0].timestamp, 5);
    assert_eq!(first[1].timestamp, 3);
    assert_eq!(c.last_fetch_timestamp, 5);
    assert!(c.fetch_new_packets().is_empty());
    assert_eq!(c.last_fetch_timestamp, 5);
}
