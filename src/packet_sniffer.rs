//! Decoding of Ethernet frames through IPv4/IPv6 and TCP/UDP into a flat
//! packet record, and the state of a packet capture session.
//!
//! All multi-byte fields are in network (big-endian) order. Only an
//! Ethernet header too short to read is an error; a deeper header that is
//! too short or malformed is skipped, leaving its fields unset.

use vstd::prelude::*;
use crate::ip_text::{ipv4_string, ipv4_text, ipv6_string, ipv6_text};
use crate::radiotap::{all_ascii, ascii_chars, be16};
use crate::text::{dec_text, hex_word, mac_text, push_dec_byte, push_hex_word};
pub use crate::text::parse_mac_address;

verus! {

/// One decoded packet.
#[derive(Clone, Debug)]
pub struct PacketInfo {
    pub src_mac: String,
    pub dst_mac: String,
    pub src_ip: Option<String>,
    pub dst_ip: Option<String>,
    pub src_port: Option<u16>,
    pub dst_port: Option<u16>,
    pub protocol: String,
    pub length: usize,
    pub payload: Option<String>,
    /// Seconds since the epoch when the packet was decoded.
    pub timestamp: u64,
}

/// A packet record with its texts as character sequences.
pub struct PacketView {
    pub src_mac: Seq<char>,
    pub dst_mac: Seq<char>,
    pub src_ip: Option<Seq<char>>,
    pub dst_ip: Option<Seq<char>>,
    pub src_port: Option<u16>,
    pub dst_port: Option<u16>,
    pub protocol: Seq<char>,
    pub length: nat,
    pub payload: Option<Seq<char>>,
    pub timestamp: u64,
}

pub open spec fn opt_text(s: Option<String>) -> Option<Seq<char>> {
    match s {
        Some(t) => Some(t@),
        None => None,
    }
}

impl View for PacketInfo {
    type V = PacketView;

    open spec fn view(&self) -> PacketView {
        PacketView {
            src_mac: self.src_mac@,
            dst_mac: self.dst_mac@,
            src_ip: opt_text(self.src_ip),
            dst_ip: opt_text(self.dst_ip),
            src_port: self.src_port,
            dst_port: self.dst_port,
            protocol: self.protocol@,
            length: self.length as nat,
            payload: opt_text(self.payload),
            timestamp: self.timestamp,
        }
    }
}

fn copy_text(s: &Option<String>) -> (r: Option<String>)
    ensures
        opt_text(r) == opt_text(*s),
{
    match s {
        Some(t) => Some(t.clone()),
        None => None,
    }
}

impl PacketInfo {
    /// A field-by-field copy.
    pub fn copied(&self) -> (r: Self)
        ensures
            r@ == self@,
    {
        PacketInfo {
            src_mac: self.src_mac.clone(),
            dst_mac: self.dst_mac.clone(),
            src_ip: copy_text(&self.src_ip),
            dst_ip: copy_text(&self.dst_ip),
            src_port: self.src_port,
            dst_port: self.dst_port,
            protocol: self.protocol.clone(),
            length: self.length,
            payload: copy_text(&self.payload),
            timestamp: self.timestamp,
        }
    }
}

pub const IP_PROTO_TCP: u8 = 6;
pub const IP_PROTO_UDP: u8 = 17;

/// What `String::from_utf8` makes of some bytes: their text when they are
/// valid UTF-8.
pub uninterp spec fn utf8_text(b: Seq<u8>) -> Option<Seq<char>>;

/// The text of some bytes when they are valid UTF-8; ASCII bytes read as
/// the same characters.
pub open spec fn utf8_decoded(b: Seq<u8>) -> Option<Seq<char>> {
    if all_ascii(b) { Some(ascii_chars(b)) } else { utf8_text(b) }
}

/// Relies on `String::from_utf8`: the result depends on the bytes alone,
/// and ASCII bytes are valid and come out as the same characters.
#[verifier::external_body]
fn decode_utf8(b: Vec<u8>) -> (r: Option<String>)
    ensures
        opt_text(r) == utf8_text(b@),
        all_ascii(b@) ==> opt_text(r) == Some(ascii_chars(b@)),
{
    String::from_utf8(b).ok()
}

/// An IPv4 header can be read: twenty bytes, version 4, and the declared
/// header length within the bytes.
pub open spec fn ipv4_ok(t: Seq<u8>) -> bool {
    t.len() >= 20 && t[0] / 16 == 4 && t.len() >= (t[0] % 16) as int * 4
}

/// An IPv6 header can be read: forty bytes and version 6.
pub open spec fn ipv6_ok(t: Seq<u8>) -> bool {
    t.len() >= 40 && t[0] / 16 == 6
}

/// A TCP header can be read: twenty bytes and the data offset within them.
pub open spec fn tcp_ok(t: Seq<u8>) -> bool {
    t.len() >= 20 && t.len() >= (t[12] / 16) as int * 4
}

/// Ports and payload from the transport header at the start of `t`.
pub open spec fn transport(t: Seq<u8>, proto: u8) -> (Option<u16>, Option<u16>, Option<Seq<char>>) {
    if proto == IP_PROTO_TCP && tcp_ok(t) {
        let dst = be16(t, 2);
        (
            Some(be16(t, 0)),
            Some(dst),
            if dst == 80 {
                utf8_decoded(t.subrange((t[12] / 16) as int * 4, t.len() as int))
            } else {
                None
            },
        )
    } else if proto == IP_PROTO_UDP && t.len() >= 8 {
        (Some(be16(t, 0)), Some(be16(t, 2)), None)
    } else {
        (None, None, None)
    }
}

/// The label of an IP packet: `IPv4 (6)`, `IPv6 (17)`.
pub open spec fn ip_label(v6: bool, proto: u8) -> Seq<char> {
    (if v6 { "IPv6 ("@ } else { "IPv4 ("@ }) + dec_text(proto as nat) + ")"@
}

/// The label of another ethertype: `Unknown (0x0806)`.
pub open spec fn unknown_label(ethertype: u16) -> Seq<char> {
    "Unknown (0x"@ + hex_word(ethertype) + ")"@
}

/// The record decoded from a frame of at least fourteen bytes.
pub open spec fn packet_view(d: Seq<u8>, timestamp: u64) -> PacketView {
    let base = PacketView {
        src_mac: mac_text(d.subrange(6, 12)),
        dst_mac: mac_text(d.subrange(0, 6)),
        src_ip: None,
        dst_ip: None,
        src_port: None,
        dst_port: None,
        protocol: Seq::empty(),
        length: d.len(),
        payload: None,
        timestamp: timestamp,
    };
    let ethertype = be16(d, 12);
    let rest = d.subrange(14, d.len() as int);
    if ethertype == 0x0800 {
        if ipv4_ok(rest) {
            let (sp, dp, pl) = transport(rest.subrange((rest[0] % 16) as int * 4, rest.len() as int), rest[9]);
            PacketView {
                src_ip: Some(ipv4_text(rest.subrange(12, 16))),
                dst_ip: Some(ipv4_text(rest.subrange(16, 20))),
                protocol: ip_label(false, rest[9]),
                src_port: sp,
                dst_port: dp,
                payload: pl,
                ..base
            }
        } else {
            base
        }
    } else if ethertype == 0x86DD {
        if ipv6_ok(rest) {
            let (sp, dp, pl) = transport(rest.subrange(40, rest.len() as int), rest[6]);
            PacketView {
                src_ip: Some(ipv6_text(rest.subrange(8, 24))),
                dst_ip: Some(ipv6_text(rest.subrange(24, 40))),
                protocol: ip_label(true, rest[6]),
                src_port: sp,
                dst_port: dp,
                payload: pl,
                ..base
            }
        } else {
            base
        }
    } else {
        PacketView { protocol: unknown_label(ethertype), ..base }
    }
}

struct Ipv4Header {
    version: u8,
    ihl: u8,
    total_length: u16,
    protocol: u8,
    src_addr: [u8; 4],
    dst_addr: [u8; 4],
}

fn parse_ipv4_header(data: &[u8]) -> (r: Option<(Ipv4Header, usize)>)
    ensures
        r is Some <==> ipv4_ok(data@),
        r matches Some((h, n)) ==> h.protocol == data@[9] && h.src_addr@ == data@.subrange(12, 16)
            && h.dst_addr@ == data@.subrange(16, 20) && n as int == (data@[0] % 16) as int * 4,
{
    if data.len() < 20 {
        return None;
    }
    let version_ihl = data[0];
    let version = version_ihl / 16;
    let ihl = version_ihl % 16 * 4;
    if version != 4 || data.len() < ihl as usize {
        return None;
    }
    let total_length = 256 * data[2] as u16 + data[3] as u16;
    let src_addr: [u8; 4] = [data[12], data[13], data[14], data[15]];
    let dst_addr: [u8; 4] = [data[16], data[17], data[18], data[19]];
    assert(src_addr@ =~= data@.subrange(12, 16));
    assert(dst_addr@ =~= data@.subrange(16, 20));
    Some((Ipv4Header { version, ihl, total_length, protocol: data[9], src_addr, dst_addr }, ihl as usize))
}

struct Ipv6Header {
    version: u8,
    next_header: u8,
    src_addr: [u8; 16],
    dst_addr: [u8; 16],
}

fn read_addr16(data: &[u8], at: usize) -> (r: [u8; 16])
    requires
        at + 16 <= data@.len(),
    ensures
        r@ == data@.subrange(at as int, at + 16),
{
    let n = data.len();
    let mut a = [0u8; 16];
    let mut i: usize = 0;
    while i < 16
        invariant
            i <= 16,
            n == data@.len(),
            at + 16 <= data@.len(),
            a@.len() == 16,
            forall|k: int| 0 <= k < i ==> a@[k] == data@[at + k],
        decreases 16 - i,
    {
        a.set(i, data[at + i]);
        i = i + 1;
    }
    assert(a@ =~= data@.subrange(at as int, at + 16));
    a
}

fn parse_ipv6_header(data: &[u8]) -> (r: Option<(Ipv6Header, usize)>)
    ensures
        r is Some <==> ipv6_ok(data@),
        r matches Some((h, n)) ==> h.next_header == data@[6] && n == 40 && h.src_addr@
            == data@.subrange(8, 24) && h.dst_addr@ == data@.subrange(24, 40),
{
    if data.len() < 40 {
        return None;
    }
    let version = data[0] / 16;
    if version != 6 {
        return None;
    }
    let src_addr = read_addr16(data, 8);
    let dst_addr = read_addr16(data, 24);
    Some((Ipv6Header { version, next_header: data[6], src_addr, dst_addr }, 40))
}

struct TcpHeader {
    src_port: u16,
    dst_port: u16,
    data_offset: u8,
}

fn parse_tcp_header(data: &[u8]) -> (r: Option<(TcpHeader, usize)>)
    ensures
        r is Some <==> tcp_ok(data@),
        r matches Some((h, n)) ==> h.src_port == be16(data@, 0) && h.dst_port == be16(data@, 2)
            && n as int == (data@[12] / 16) as int * 4,
{
    if data.len() < 20 {
        return None;
    }
    let src_port = 256 * data[0] as u16 + data[1] as u16;
    let dst_port = 256 * data[2] as u16 + data[3] as u16;
    let data_offset = data[12] / 16 * 4;
    if data.len() < data_offset as usize {
        return None;
    }
    Some((TcpHeader { src_port, dst_port, data_offset }, data_offset as usize))
}

struct UdpHeader {
    src_port: u16,
    dst_port: u16,
}

fn parse_udp_header(data: &[u8]) -> (r: Option<(UdpHeader, usize)>)
    ensures
        r is Some <==> data@.len() >= 8,
        r matches Some((h, n)) ==> h.src_port == be16(data@, 0) && h.dst_port == be16(data@, 2)
            && n == 8,
{
    if data.len() < 8 {
        return None;
    }
    let src_port = 256 * data[0] as u16 + data[1] as u16;
    let dst_port = 256 * data[2] as u16 + data[3] as u16;
    Some((UdpHeader { src_port, dst_port }, 8))
}

/// Ports and, for TCP to port 80, the payload as text.
fn parse_transport(t: &[u8], proto: u8) -> (r: (Option<u16>, Option<u16>, Option<String>))
    ensures
        (r.0, r.1, opt_text(r.2)) == transport(t@, proto),
{
    if proto == IP_PROTO_TCP {
        if let Some((h, n)) = parse_tcp_header(t) {
            let mut payload: Option<String> = None;
            if h.dst_port == 80 {
                let mut bytes: Vec<u8> = Vec::new();
                let rest = &t[n..t.len()];
                bytes.extend_from_slice(rest);
                assert(bytes@ =~= t@.subrange(n as int, t@.len() as int));
                payload = decode_utf8(bytes);
            }
            return (Some(h.src_port), Some(h.dst_port), payload);
        }
    } else if proto == IP_PROTO_UDP {
        if let Some((h, _n)) = parse_udp_header(t) {
            return (Some(h.src_port), Some(h.dst_port), None);
        }
    }
    (None, None, None)
}

fn protocol_label(v6: bool, proto: u8) -> (r: String)
    ensures
        r@ == ip_label(v6, proto),
{
    let mut s = String::new();
    if v6 {
        s.append("IPv6 (");
    } else {
        s.append("IPv4 (");
    }
    push_dec_byte(&mut s, proto);
    s.append(")");
    s
}

/// Decodes an Ethernet frame. Frames under fourteen bytes are refused;
/// anything deeper that cannot be read is left unset. `timestamp` is the
/// time of decoding.
pub fn parse_packet(data: &[u8], timestamp: u64) -> (r: Result<PacketInfo, String>)
    ensures
        r is Err <==> data@.len() < 14,
        r matches Ok(p) ==> p@ == packet_view(data@, timestamp),
{
    if data.len() < 14 {
        return Err("Packet too short for Ethernet header".to_string());
    }
    let dst_mac = parse_mac_address(&data[0..6]);
    let src_mac = parse_mac_address(&data[6..12]);
    let ethertype = 256 * data[12] as u16 + data[13] as u16;
    let rest = &data[14..data.len()];
    assert(rest@ =~= data@.subrange(14, data@.len() as int));
    let mut protocol = String::new();
    let mut src_ip: Option<String> = None;
    let mut dst_ip: Option<String> = None;
    let mut ports: (Option<u16>, Option<u16>, Option<String>) = (None, None, None);
    if ethertype == 0x0800 {
        if let Some((h, n)) = parse_ipv4_header(rest) {
            src_ip = Some(ipv4_string(h.src_addr.as_slice(), 0));
            dst_ip = Some(ipv4_string(h.dst_addr.as_slice(), 0));
            assert(h.src_addr@.subrange(0, 4) =~= h.src_addr@);
            assert(h.dst_addr@.subrange(0, 4) =~= h.dst_addr@);
            protocol = protocol_label(false, h.protocol);
            ports = parse_transport(&rest[n..rest.len()], h.protocol);
        }
    } else if ethertype == 0x86DD {
        if let Some((h, n)) = parse_ipv6_header(rest) {
            src_ip = Some(ipv6_string(h.src_addr.as_slice(), 0));
            dst_ip = Some(ipv6_string(h.dst_addr.as_slice(), 0));
            assert(h.src_addr@.subrange(0, 16) =~= h.src_addr@);
            assert(h.dst_addr@.subrange(0, 16) =~= h.dst_addr@);
            protocol = protocol_label(true, h.next_header);
            ports = parse_transport(&rest[n..rest.len()], h.next_header);
        }
    } else {
        protocol.append("Unknown (0x");
        push_hex_word(&mut protocol, ethertype);
        protocol.append(")");
    }
    let (src_port, dst_port, payload) = ports;
    let r = PacketInfo {
        src_mac,
        dst_mac,
        src_ip,
        dst_ip,
        src_port,
        dst_port,
        protocol,
        length: data.len(),
        payload,
        timestamp,
    };
    assert(r@ =~= packet_view(data@, timestamp));
    Ok(r)
}

/// Fields set by a decoding are either unset in the other or equal.
pub open spec fn kept_or_unset<T>(a: Option<T>, b: Option<T>) -> bool {
    a is None || a == b
}

proof fn lemma_transport_truncation(t: Seq<u8>, u: Seq<u8>, proto: u8)
    requires
        u.len() <= t.len(),
        u == t.subrange(0, u.len() as int),
    ensures
        kept_or_unset(transport(u, proto).0, transport(t, proto).0),
        kept_or_unset(transport(u, proto).1, transport(t, proto).1),
{
    if u.len() >= 8 {
        assert(u[0] == t[0] && u[1] == t[1] && u[2] == t[2] && u[3] == t[3]);
    }
    if u.len() >= 20 {
        assert(u[12] == t[12]);
    }
}

/// Cutting a frame short, so long as the Ethernet header stays whole, only
/// leaves fields unset: the hardware addresses stay, the length is the
/// cut, and each IP address and port is unset or as in the whole frame.
pub proof fn lemma_packet_truncation(d: Seq<u8>, k: int, timestamp: u64)
    requires
        14 <= k <= d.len(),
    ensures
        ({
            let a = packet_view(d.subrange(0, k), timestamp);
            let w = packet_view(d, timestamp);
            &&& a.src_mac == w.src_mac
            &&& a.dst_mac == w.dst_mac
            &&& a.length == k
            &&& kept_or_unset(a.src_ip, w.src_ip)
            &&& kept_or_unset(a.dst_ip, w.dst_ip)
            &&& kept_or_unset(a.src_port, w.src_port)
            &&& kept_or_unset(a.dst_port, w.dst_port)
        }),
{
    let c = d.subrange(0, k);
    assert(c.subrange(0, 6) =~= d.subrange(0, 6));
    assert(c.subrange(6, 12) =~= d.subrange(6, 12));
    assert(c[12] == d[12] && c[13] == d[13]);
    let rc = c.subrange(14, k);
    let rd = d.subrange(14, d.len() as int);
    assert(rc =~= rd.subrange(0, rc.len() as int));
    if rc.len() >= 20 {
        assert(rc[0] == rd[0] && rc[9] == rd[9]);
        assert(rc.subrange(12, 16) =~= rd.subrange(12, 16));
        assert(rc.subrange(16, 20) =~= rd.subrange(16, 20));
        let hl = (rc[0] % 16) as int * 4;
        if hl <= rc.len() {
            let tc = rc.subrange(hl, rc.len() as int);
            let td = rd.subrange(hl, rd.len() as int);
            assert(tc =~= td.subrange(0, tc.len() as int));
            lemma_transport_truncation(td, tc, rd[9]);
        }
    }
    if rc.len() >= 40 {
        assert(rc[0] == rd[0] && rc[6] == rd[6]);
        assert(rc.subrange(8, 24) =~= rd.subrange(8, 24));
        assert(rc.subrange(24, 40) =~= rd.subrange(24, 40));
        let tc = rc.subrange(40, rc.len() as int);
        let td = rd.subrange(40, rd.len() as int);
        assert(tc =~= td.subrange(0, tc.len() as int));
        lemma_transport_truncation(td, tc, rd[6]);
    }
}

/// The packets of a log newer than `mark`, in log order.
pub open spec fn newer(log: Seq<PacketView>, mark: u64) -> Seq<PacketView> {
    log.filter(|p: PacketView| p.timestamp > mark)
}

/// The largest of `floor` and the timestamps of `s`.
pub open spec fn max_stamp(s: Seq<PacketView>, floor: u64) -> u64
    decreases s.len(),
{
    if s.len() == 0 {
        floor
    } else {
        let m = max_stamp(s.drop_last(), floor);
        if s.last().timestamp > m { s.last().timestamp } else { m }
    }
}

/// The mark after a fetch: the latest timestamp among the packets handed
/// out, or the old mark when none was.
pub open spec fn next_mark(log: Seq<PacketView>, mark: u64) -> u64 {
    max_stamp(newer(log, mark), mark)
}

proof fn lemma_max_stamp_bounds(s: Seq<PacketView>, floor: u64)
    ensures
        floor <= max_stamp(s, floor),
        forall|i: int| 0 <= i < s.len() ==> s[i].timestamp <= max_stamp(s, floor),
    decreases s.len(),
{
    if s.len() > 0 {
        lemma_max_stamp_bounds(s.drop_last(), floor);
        assert forall|i: int| 0 <= i < s.len() implies s[i].timestamp <= max_stamp(s, floor) by {
            if i < s.len() - 1 {
                assert(s[i] == s.drop_last()[i]);
            }
        }
    }
}

proof fn lemma_none_newer(log: Seq<PacketView>, mark: u64)
    requires
        forall|i: int| 0 <= i < log.len() ==> log[i].timestamp <= mark,
    ensures
        newer(log, mark) == Seq::<PacketView>::empty(),
    decreases log.len(),
{
    reveal(Seq::filter);
    if log.len() > 0 {
        lemma_none_newer(log.drop_last(), mark);
    }
}

/// A fetch followed by another with nothing captured in between hands out
/// nothing the second time.
pub proof fn lemma_second_fetch_empty(log: Seq<PacketView>, mark: u64)
    ensures
        newer(log, next_mark(log, mark)) == Seq::<PacketView>::empty(),
{
    let n = newer(log, mark);
    let pred = |p: PacketView| p.timestamp > mark;
    #[allow(deprecated)]
    log.filter_lemma(pred);
    lemma_max_stamp_bounds(n, mark);
    assert forall|i: int| 0 <= i < log.len() implies log[i].timestamp <= next_mark(log, mark) by {
        if pred(log[i]) {
            assert(n.contains(log[i]));
            let j = choose|j: int| 0 <= j < n.len() && n[j] == log[i];
        }
    }
    lemma_none_newer(log, next_mark(log, mark));
}

/// The state of a packet capture session: whether it runs, on which
/// device, the log of decoded packets, and the timestamp up to which the
/// log has been handed out.
pub struct PacketCapture {
    pub running: bool,
    pub device: Option<String>,
    pub captured_packets: Vec<PacketInfo>,
    pub last_fetch_timestamp: u64,
}

impl PacketCapture {
    /// The log of decoded packets.
    pub open spec fn log(&self) -> Seq<PacketView> {
        self.captured_packets@.map_values(|p: PacketInfo| p@)
    }

    /// An idle session with an empty log.
    pub fn new() -> (r: Self)
        ensures
            !r.running,
            r.device is None,
            r.log().len() == 0,
            r.last_fetch_timestamp == 0,
    {
        PacketCapture {
            running: false,
            device: None,
            captured_packets: Vec::new(),
            last_fetch_timestamp: 0,
        }
    }

    /// Marks the session running on a device that was opened.
    pub fn start_capture(&mut self, device: String)
        ensures
            final(self).running,
            opt_text(final(self).device) == Some(device@),
            final(self).log() == old(self).log(),
            final(self).last_fetch_timestamp == old(self).last_fetch_timestamp,
    {
        self.running = true;
        self.device = Some(device);
    }

    /// Marks the session stopped; the capture loop sees it on its next turn.
    pub fn stop_capture(&mut self)
        ensures
            !final(self).running,
            final(self).device is None,
            final(self).log() == old(self).log(),
            final(self).last_fetch_timestamp == old(self).last_fetch_timestamp,
    {
        self.running = false;
        self.device = None;
    }

    /// Whether the capture loop should go on.
    pub fn is_running(&self) -> (r: bool)
        ensures
            r == self.running,
    {
        self.running
    }

    /// Appends a decoded packet to the log.
    pub fn record(&mut self, packet: PacketInfo)
        ensures
            final(self).log() == old(self).log().push(packet@),
            final(self).running == old(self).running,
            final(self).device == old(self).device,
            final(self).last_fetch_timestamp == old(self).last_fetch_timestamp,
    {
        self.captured_packets.push(packet);
        assert(self.log() =~= old(self).log().push(packet@));
    }

    /// Hands out the logged packets newer than the mark, in log order, and
    /// moves the mark to the latest timestamp among them.
    pub fn fetch_new_packets(&mut self) -> (r: Vec<PacketInfo>)
        ensures
            r@.map_values(|p: PacketInfo| p@) == newer(old(self).log(), old(self).last_fetch_timestamp),
            final(self).last_fetch_timestamp == next_mark(old(self).log(), old(self).last_fetch_timestamp),
            final(self).log() == old(self).log(),
            final(self).running == old(self).running,
            final(self).device == old(self).device,
    {
        let mark = self.last_fetch_timestamp;
        let ghost log = self.log();
        let mut out: Vec<PacketInfo> = Vec::new();
        let mut latest: u64 = mark;
        let mut i: usize = 0;
        while i < self.captured_packets.len()
            invariant
                i <= self.captured_packets@.len(),
                log == self.log(),
                mark == self.last_fetch_timestamp,
                out@.map_values(|p: PacketInfo| p@) == newer(log.subrange(0, i as int), mark),
                latest == max_stamp(out@.map_values(|p: PacketInfo| p@), mark),
            decreases self.captured_packets@.len() - i,
        {
            let ghost prefix = log.subrange(0, i + 1);
            assert(prefix.drop_last() =~= log.subrange(0, i as int));
            let p = &self.captured_packets[i];
            assert(prefix.last() == p@);
            proof {
                reveal(Seq::filter);
            }
            if p.timestamp > mark {
                let ghost before = out@;
                out.push(p.copied());
                assert(out@.map_values(|p: PacketInfo| p@) =~= before.map_values(
                    |p: PacketInfo| p@,
                ).push(p@));
                assert(out@.map_values(|p: PacketInfo| p@).drop_last() =~= before.map_values(
                    |p: PacketInfo| p@,
                ));
                if p.timestamp > latest {
                    latest = p.timestamp;
                }
            }
            i = i + 1;
        }
        assert(log.subrange(0, self.captured_packets@.len() as int) =~= log);
        self.last_fetch_timestamp = latest;
        out
    }
}

} // verus!
