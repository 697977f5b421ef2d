use wifi_sniff::packet_sniffer::parse_packet;
use wifi_sniff::radiotap::{RadiotapParser, RadiotapPresent};

const BSSID: [u8; 6] = [0x00, 0x1A, 0x2B, 0x3C, 0x4D, 0x5E];

/// A radiotap header carrying only an antenna signal, then an 802.11
/// management frame of the given subtype with the given elements.
fn frame(subtype: u8, signal: i8, elements: &[u8]) -> Vec<u8> {
    let mut d = vec![0u8, 0, 9, 0, 0x20, 0, 0, 0, signal as u8];
    d.extend_from_slice(&[0x00, subtype << 4]);
    d.extend_from_slice(&[0x00, 0x00]);
    d.extend_from_slice(&[0xFF; 6]);
    d.extend_from_slice(&BSSID);
    d.extend_from_slice(&BSSID);
    d.extend_from_slice(&[0x10, 0x00]);
    d.extend_from_slice(&[0u8; 12]);
    d.extend_from_slice(elements);
    d
}

fn beacon_elements(ssid: &[u8], channel: u8) -> Vec<u8> {
    let mut e = vec![0u8, ssid.len() as u8];
    e.extend_from_slice(ssid);
    e.extend_from_slice(&[1, 4, 0x82, 0x84, 0x8B, 0x96]);
    e.extend_from_slice(&[3, 1, channel]);
    e.extend_from_slice(&[50, 2, 0x0C, 0x12]);
    e.extend_from_slice(&[221, 3, 1, 2, 3]);
    e
}

#[test]
fn beacon_round_trip() {
    let d = frame(8, -55, &beacon_elements(b"HomeNet", 6));
    let f = RadiotapParser::new(&d).parse_wifi_frame().unwrap();
    assert_eq!(f.ssid.as_deref(), Some("HomeNet"));
    assert_eq!(f.channel, Some(6));
    assert_eq!(f.addr3, BSSID);
    assert_eq!(f.addr2, BSSID);
    assert_eq!(f.addr1, [0xFF; 6]);
    assert_eq!(f.frame_control, 0x0080);
    assert_eq!(f.seq_ctrl, 0x1000);
    assert_eq!(f.rates, vec![0x82, 0x84, 0x8B, 0x96, 0x0C, 0x12]);
    assert_eq!(f.radiotap.antenna_signal, Some(-55));
    assert_eq!(f.radiotap.length, 9);
}

#[test]
fn probe_response_elements_parsed() {
    let d = frame(5, -40, &beacon_elements(b"Cafe", 11));
    let f = RadiotapParser::new(&d).parse_wifi_frame().unwrap();
    assert_eq!(f.ssid.as_deref(), Some("Cafe"));
    assert_eq!(f.channel, Some(11));
}

#[test]
fn other_subtype_has_no_elements() {
    let d = frame(4, -40, &beacon_elements(b"Cafe", 11));
    let f = RadiotapParser::new(&d).parse_wifi_frame().unwrap();
    assert_eq!(f.ssid, None);
    assert_eq!(f.channel, None);
    assert!(f.rates.is_empty());
}

#[test]
fn empty_ssid_and_channel_elements_ignored() {
    let d = frame(8, -40, &[0, 0, 3, 0]);
    let f = RadiotapParser::new(&d).parse_wifi_frame().unwrap();
    assert_eq!(f.ssid, None);
    assert_eq!(f.channel, None);
}

#[test]
fn invalid_utf8_ssid_decoded_lossily() {
    let d = frame(8, -40, &[0, 3, b'a', 0xFF, b'b']);
    let f = RadiotapParser::new(&d).parse_wifi_frame().unwrap();
    assert_eq!(f.ssid.as_deref(), Some("a\u{FFFD}b"));
}

#[test]
fn truncated_trailing_element_tolerated() {
    let mut e = beacon_elements(b"Edge", 1);
    e.extend_from_slice(&[0, 20, b'x']);
    let d = frame(8, -40, &e);
    let f = RadiotapParser::new(&d).parse_wifi_frame().unwrap();
    assert_eq!(f.ssid.as_deref(), Some("Edge"));
    assert_eq!(f.channel, Some(1));
}

#[test]
fn radiotap_fields_in_bit_order() {
    let mut d = vec![0u8, 0, 0, 0, 0x2F, 0x08, 0, 0];
    d.extend_from_slice(&[1, 2, 3, 4, 5, 6, 7, 8]);
    d.push(0x10);
    d.push(0x0C);
    d.extend_from_slice(&[0x6C, 0x09]);
    d.extend_from_slice(&[0xA0, 0x00]);
    d.push(0xC4);
    d.push(2);
    let n = d.len() as u16;
    d[2] = n as u8;
    d[3] = (n >> 8) as u8;
    let mut p = RadiotapParser::new(&d);
    let h = p.parse_radiotap_header().unwrap();
    assert_eq!(h.version, 0);
    assert_eq!(h.length, n);
    assert_eq!(h.present_flags, 0x082F);
    assert_eq!(h.mac_timestamp, Some(0x0807060504030201));
    assert_eq!(h.flags, Some(0x10));
    assert_eq!(h.rate, Some(0x0C));
    assert_eq!(h.channel_freq, Some(2412));
    assert_eq!(h.channel_flags, Some(0xA0));
    assert_eq!(h.antenna_signal, Some(-60));
    assert_eq!(h.antenna, Some(2));
}

#[test]
fn radiotap_missing_field_bytes_left_unset() {
    let d = vec![0u8, 0, 8, 0, 0x01, 0, 0, 0, 1, 2];
    let h = RadiotapParser::new(&d).parse_radiotap_header().unwrap();
    assert_eq!(h.mac_timestamp, None);
}

#[test]
fn short_buffer_rejected() {
    let d = vec![0u8, 0, 8, 0, 0, 0, 0];
    assert!(RadiotapParser::new(&d).parse_radiotap_header().is_err());
    assert!(RadiotapParser::new(&d).parse_wifi_frame().is_err());
}

#[test]
fn bad_version_rejected() {
    let mut d = frame(8, -40, &beacon_elements(b"X", 1));
    d[0] = 1;
    assert!(RadiotapParser::new(&d).parse_wifi_frame().is_err());
}

#[test]
fn radiotap_length_beyond_buffer_rejected() {
    let mut d = frame(8, -40, &[]);
    let n = d.len() as u16;
    d[2] = n as u8;
    d[3] = (n >> 8) as u8;
    assert!(RadiotapParser::new(&d).parse_wifi_frame().is_err());
}

#[test]
fn truncated_fixed_fields_rejected() {
    let d = frame(8, -40, &[]);
    let cut = &d[..9 + 23];
    assert!(RadiotapParser::new(cut).parse_wifi_frame().is_err());
    let whole = &d[..9 + 24];
    assert!(RadiotapParser::new(whole).parse_wifi_frame().is_ok());
}

#[test]
fn present_bits() {
    assert_eq!(RadiotapPresent::TSFT.bit(), 1);
    assert_eq!(RadiotapPresent::Channel.bit(), 8);
    assert_eq!(RadiotapPresent::AntennaSignal.bit(), 32);
    assert_eq!(RadiotapPresent::Antenna.bit(), 2048);
    assert_eq!(RadiotapPresent::RxFlags.bit(), 16384);
}

#[test]
fn truncation_never_panics() {
    let d = frame(8, -40, &beacon_elements(b"HomeNet", 6));
    for n in 0..=d.len() {
        let r = RadiotapParser::new(&d[..n]).parse_wifi_frame();
        assert_eq!(r.is_ok(), n >= 9 + 24);
    }
    let mut p = vec![0u8; 12];
    p.extend_from_slice(&[0x08, 0x00, 0x45, 0, 0, 40, 0, 0, 0, 0, 64, 6, 0, 0]);
    p.extend_from_slice(&[10, 0, 0, 1, 10, 0, 0, 2]);
    p.extend_from_slice(&[0x30, 0x39, 0x00, 0x50, 0, 0, 0, 0, 0, 0, 0, 0, 0x50, 0, 0, 0, 0, 0, 0, 0]);
    p.extend_from_slice(b"GET /");
    for n in 0..=p.len() {
        let r = parse_packet(&p[..n], 1);
        assert_eq!(r.is_ok(), n >= 14);
    }
}

#[test]
fn truncated_beacon_keeps_header_and_rate_prefix() {
    let d = frame(8, -40, &beacon_elements(b"HomeNet", 6));
    let whole = RadiotapParser::new(&d).parse_wifi_frame().unwrap();
    for k in 9 + 24..=d.len() {
        let f = RadiotapParser::new(&d[..k]).parse_wifi_frame().unwrap();
        assert_eq!(f.frame_control, whole.frame_control);
        assert_eq!(f.addr1, whole.addr1);
        assert_eq!(f.addr3, whole.addr3);
        assert_eq!(f.seq_ctrl, whole.seq_ctrl);
        assert_eq!(&whole.rates[..f.rates.len()], &f.rates[..]);
        assert!(f.ssid.is_none() || f.ssid == whole.ssid);
        assert!(f.channel.is_none() || f.channel == whole.channel);
    }
}
