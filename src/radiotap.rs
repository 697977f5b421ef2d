//! Radiotap header and 802.11 management frame decoding.
//!
//! Radiotap fields are little-endian; the 802.11 header words are read in
//! network (big-endian) order. The declared radiotap length is taken
//! verbatim as the start of the 802.11 header.

use vstd::prelude::*;

verus! {

/// A radiotap header and the optional fields this library reads from it.
#[derive(Clone, Debug)]
pub struct RadiotapData {
    pub version: u8,
    pub pad: u8,
    pub length: u16,
    pub present_flags: u32,
    pub mac_timestamp: Option<u64>,
    pub flags: Option<u8>,
    pub rate: Option<u8>,
    pub channel_freq: Option<u16>,
    pub channel_flags: Option<u16>,
    pub antenna_signal: Option<i8>,
    pub antenna: Option<u8>,
}

/// An 802.11 header; the SSID, channel and rates are filled only for
/// beacon and probe-response frames.
#[derive(Clone, Debug)]
pub struct WiFiFrame {
    pub radiotap: RadiotapData,
    pub frame_control: u16,
    pub duration: u16,
    pub addr1: [u8; 6],
    pub addr2: [u8; 6],
    pub addr3: [u8; 6],
    pub seq_ctrl: u16,
    pub ssid: Option<String>,
    pub channel: Option<u8>,
    pub rates: Vec<u8>,
}

/// Bits of the radiotap present-fields mask.
#[derive(Debug, Clone, Copy, PartialEq, Eq)]
pub enum RadiotapPresent {
    TSFT,
    Flags,
    Rate,
    Channel,
    FHSS,
    AntennaSignal,
    AntennaNoise,
    LockQuality,
    TxAttenuation,
    DbTxAttenuation,
    DbmTxPower,
    Antenna,
    DbAntennaSignal,
    DbAntennaNoise,
    RxFlags,
}

/// A field's bit in the present-fields mask.
pub open spec fn present_mask(p: RadiotapPresent) -> u32 {
    match p {
        RadiotapPresent::TSFT => 0x1,
        RadiotapPresent::Flags => 0x2,
        RadiotapPresent::Rate => 0x4,
        RadiotapPresent::Channel => 0x8,
        RadiotapPresent::FHSS => 0x10,
        RadiotapPresent::AntennaSignal => 0x20,
        RadiotapPresent::AntennaNoise => 0x40,
        RadiotapPresent::LockQuality => 0x80,
        RadiotapPresent::TxAttenuation => 0x100,
        RadiotapPresent::DbTxAttenuation => 0x200,
        RadiotapPresent::DbmTxPower => 0x400,
        RadiotapPresent::Antenna => 0x800,
        RadiotapPresent::DbAntennaSignal => 0x1000,
        RadiotapPresent::DbAntennaNoise => 0x2000,
        RadiotapPresent::RxFlags => 0x4000,
    }
}

impl RadiotapPresent {
    /// The field's bit in the present-fields mask.
    pub fn bit(&self) -> (r: u32)
        ensures
            r == present_mask(*self),
    {
        match self {
            RadiotapPresent::TSFT => 1,
            RadiotapPresent::Flags => 2,
            RadiotapPresent::Rate => 4,
            RadiotapPresent::Channel => 8,
            RadiotapPresent::FHSS => 16,
            RadiotapPresent::AntennaSignal => 32,
            RadiotapPresent::AntennaNoise => 64,
            RadiotapPresent::LockQuality => 128,
            RadiotapPresent::TxAttenuation => 256,
            RadiotapPresent::DbTxAttenuation => 512,
            RadiotapPresent::DbmTxPower => 1024,
            RadiotapPresent::Antenna => 2048,
            RadiotapPresent::DbAntennaSignal => 4096,
            RadiotapPresent::DbAntennaNoise => 8192,
            RadiotapPresent::RxFlags => 16384,
        }
    }
}

/// Little-endian 16-bit value at `i`.
pub open spec fn le16(d: Seq<u8>, i: int) -> u16 {
    (d[i] as int + 256 * d[i + 1] as int) as u16
}

/// Little-endian 32-bit value at `i`.
pub open spec fn le32(d: Seq<u8>, i: int) -> u32 {
    (d[i] as int + 256 * d[i + 1] as int + 65536 * d[i + 2] as int + 16777216 * d[i + 3] as int) as u32
}

/// Little-endian 64-bit value at `i`.
pub open spec fn le64(d: Seq<u8>, i: int) -> u64 {
    (le32(d, i) as int + 4294967296 * le32(d, i + 4) as int) as u64
}

/// Big-endian 16-bit value at `i`.
pub open spec fn be16(d: Seq<u8>, i: int) -> u16 {
    (256 * d[i] as int + d[i + 1] as int) as u16
}

/// An optional one-byte field at `off`: read if a byte is left, and the
/// offset after it.
pub open spec fn opt_u8(d: Seq<u8>, off: int) -> (Option<u8>, int) {
    if off < d.len() {
        (Some(d[off]), off + 1)
    } else {
        (None, off)
    }
}

pub open spec fn opt_u16(d: Seq<u8>, off: int) -> (Option<u16>, int) {
    if off + 2 <= d.len() {
        (Some(le16(d, off)), off + 2)
    } else {
        (None, off)
    }
}

pub open spec fn opt_u64(d: Seq<u8>, off: int) -> (Option<u64>, int) {
    if off + 8 <= d.len() {
        (Some(le64(d, off)), off + 8)
    } else {
        (None, off)
    }
}

/// Whether the present-fields mask has a field's bit set.
pub open spec fn has_field(flags: u32, p: RadiotapPresent) -> bool {
    flags & present_mask(p) != 0
}

/// The radiotap header is accepted: eight bytes and version zero.
pub open spec fn header_ok(d: Seq<u8>) -> bool {
    d.len() >= 8 && d[0] == 0
}

/// The optional fields, each read in bit order from where the previous one
/// stopped; a field whose bytes run past the buffer stays unset and does
/// not move the cursor.
pub open spec fn header_fields(d: Seq<u8>) -> (RadiotapData, int) {
    let flags = le32(d, 4);
    let (ts, o1) = if has_field(flags, RadiotapPresent::TSFT) { opt_u64(d, 8) } else { (None, 8) };
    let (fl, o2) = if has_field(flags, RadiotapPresent::Flags) { opt_u8(d, o1) } else { (None, o1) };
    let (rate, o3) = if has_field(flags, RadiotapPresent::Rate) { opt_u8(d, o2) } else { (None, o2) };
    let (freq, o4a) = if has_field(flags, RadiotapPresent::Channel) { opt_u16(d, o3) } else { (None, o3) };
    let (cfl, o4) = if has_field(flags, RadiotapPresent::Channel) { opt_u16(d, o4a) } else { (None, o4a) };
    let (sig, o5) = if has_field(flags, RadiotapPresent::AntennaSignal) { opt_u8(d, o4) } else { (None, o4) };
    let (ant, o6) = if has_field(flags, RadiotapPresent::Antenna) { opt_u8(d, o5) } else { (None, o5) };
    (
        RadiotapData {
            version: d[0],
            pad: d[1],
            length: le16(d, 2),
            present_flags: flags,
            mac_timestamp: ts,
            flags: fl,
            rate: rate,
            channel_freq: freq,
            channel_flags: cfl,
            antenna_signal: match sig {
                Some(b) => Some(b as i8),
                None => None,
            },
            antenna: ant,
        },
        o6,
    )
}

/// The decoded radiotap header of an accepted buffer.
pub open spec fn header_spec(d: Seq<u8>) -> RadiotapData {
    header_fields(d).0
}

/// Where the 802.11 header starts.
pub open spec fn frame_start(d: Seq<u8>) -> int {
    le16(d, 2) as int
}

/// The frame is accepted: the radiotap header is, and the fixed 802.11
/// fields (24 bytes) fit after the declared radiotap length.
pub open spec fn frame_ok(d: Seq<u8>) -> bool {
    header_ok(d) && frame_start(d) < d.len() && frame_start(d) + 24 <= d.len()
}

/// Frame type: bits 2-3 of the frame-control word.
pub open spec fn frame_type(fc: u16) -> u16 {
    (fc & 0x000C) >> 2
}

/// Frame subtype: bits 4-7 of the frame-control word.
pub open spec fn frame_subtype(fc: u16) -> u16 {
    (fc & 0x00F0) >> 4
}

/// A beacon (subtype 8) or probe response (subtype 5) management frame.
pub open spec fn carries_elements(fc: u16) -> bool {
    frame_type(fc) == 0 && (frame_subtype(fc) == 8 || frame_subtype(fc) == 5)
}

/// What the tagged elements yield: the SSID's bytes, the channel, the rates.
pub type TagScan = (Option<Seq<u8>>, Option<u8>, Seq<u8>);

/// One element's effect: tag 0 sets a non-empty SSID, tag 3 a channel
/// from its first byte, tags 1 and 50 append rates.
pub open spec fn apply_tag(acc: TagScan, tag: u8, value: Seq<u8>) -> TagScan {
    if tag == 0 {
        if value.len() > 0 {
            (Some(value), acc.1, acc.2)
        } else {
            acc
        }
    } else if tag == 3 {
        if value.len() > 0 {
            (acc.0, Some(value[0]), acc.2)
        } else {
            acc
        }
    } else if tag == 1 || tag == 50 {
        (acc.0, acc.1, acc.2 + value)
    } else {
        acc
    }
}

/// The walk over `(tag, length, value)` elements from `off`, stopping when
/// fewer than two bytes remain or a value would run past the end.
pub open spec fn scan_tags(d: Seq<u8>, off: int, acc: TagScan) -> TagScan
    decreases d.len() - off,
{
    if off < 0 || off + 2 > d.len() {
        acc
    } else {
        let v = off + 2;
        let n = d[off + 1] as int;
        if v + n > d.len() {
            acc
        } else {
            scan_tags(d, v + n, apply_tag(acc, d[off], d.subrange(v, v + n)))
        }
    }
}

/// The elements of an accepted frame: only for beacon and probe-response
/// frames with room for the 12 bytes of fixed parameters.
pub open spec fn frame_tags(d: Seq<u8>) -> TagScan {
    let body = frame_start(d) + 24;
    if carries_elements(be16(d, frame_start(d))) && body + 12 <= d.len() {
        scan_tags(d, body + 12, (None, None, Seq::empty()))
    } else {
        (None, None, Seq::empty())
    }
}

/// The characters that `String::from_utf8_lossy` makes of some bytes.
pub uninterp spec fn utf8_lossy(b: Seq<u8>) -> Seq<char>;

/// Bytes below 128 read as the characters of the same code.
pub open spec fn ascii_chars(b: Seq<u8>) -> Seq<char> {
    b.map_values(|c: u8| c as char)
}

pub open spec fn all_ascii(b: Seq<u8>) -> bool {
    forall|i: int| 0 <= i < b.len() ==> b[i] < 128
}

/// The text of some bytes, invalid sequences replaced; ASCII bytes read as
/// the same characters.
pub open spec fn lossy_text(b: Seq<u8>) -> Seq<char> {
    if all_ascii(b) { ascii_chars(b) } else { utf8_lossy(b) }
}

/// Relies on `String::from_utf8_lossy`: the result depends on the bytes
/// alone, ASCII bytes come out as the same characters, and bytes yield at
/// least one character (each invalid sequence becomes U+FFFD).
#[verifier::external_body]
fn decode_lossy(b: &[u8]) -> (r: String)
    ensures
        r@ == utf8_lossy(b@),
        all_ascii(b@) ==> r@ == ascii_chars(b@),
        b@.len() > 0 ==> r@.len() > 0,
{
    String::from_utf8_lossy(b).into_owned()
}

/// The SSID field as decoded from the SSID bytes.
pub open spec fn ssid_decoded(s: Option<String>, b: Option<Seq<u8>>) -> bool {
    match (s, b) {
        (None, None) => true,
        (Some(s), Some(b)) => s@ == lossy_text(b) && (b.len() > 0 ==> s@.len() > 0),
        _ => false,
    }
}

/// The frame decoded from an accepted buffer.
pub open spec fn frame_matches(f: WiFiFrame, d: Seq<u8>) -> bool {
    let s = frame_start(d);
    let t = frame_tags(d);
    &&& f.radiotap == header_spec(d)
    &&& f.frame_control == be16(d, s)
    &&& f.duration == be16(d, s + 2)
    &&& f.addr1@ == d.subrange(s + 4, s + 10)
    &&& f.addr2@ == d.subrange(s + 10, s + 16)
    &&& f.addr3@ == d.subrange(s + 16, s + 22)
    &&& f.seq_ctrl == be16(d, s + 22)
    &&& ssid_decoded(f.ssid, t.0)
    &&& f.channel == t.1
    &&& f.rates@ == t.2
}

/// A cursor over a captured buffer.
pub struct RadiotapParser<'a> {
    data: &'a [u8],
    offset: usize,
}

impl<'a> RadiotapParser<'a> {
    pub closed spec fn bytes(&self) -> Seq<u8> {
        self.data@
    }

    pub closed spec fn pos(&self) -> int {
        self.offset as int
    }

    pub fn new(data: &'a [u8]) -> (r: Self)
        ensures
            r.bytes() == data@,
            r.pos() == 0,
    {
        RadiotapParser { data, offset: 0 }
    }

    /// Decodes the radiotap header at the start of the buffer and leaves
    /// the cursor after the optional fields it read.
    pub fn parse_radiotap_header(&mut self) -> (r: Result<RadiotapData, String>)
        ensures
            final(self).bytes() == old(self).bytes(),
            r is Ok <==> header_ok(old(self).bytes()),
            r matches Ok(h) ==> h == header_spec(old(self).bytes())
                && final(self).pos() == header_fields(old(self).bytes()).1,
    {
        let ghost d = self.data@;
        if self.data.len() < 8 {
            return Err("Buffer too small for radiotap header".to_string());
        }
        let version = self.data[0];
        if version != 0 {
            return Err("Unsupported radiotap version".to_string());
        }
        let pad = self.data[1];
        let length = self.data[2] as u16 + 256 * self.data[3] as u16;
        let present_flags = self.data[4] as u32 + 256 * self.data[5] as u32 + 65536
            * self.data[6] as u32 + 16777216 * self.data[7] as u32;
        self.offset = 8;
        let mut radiotap = RadiotapData {
            version,
            pad,
            length,
            present_flags,
            mac_timestamp: None,
            flags: None,
            rate: None,
            channel_freq: None,
            channel_flags: None,
            antenna_signal: None,
            antenna: None,
        };
        if present_flags & RadiotapPresent::TSFT.bit() != 0 {
            radiotap.mac_timestamp = self.read_u64().ok();
        }
        if present_flags & RadiotapPresent::Flags.bit() != 0 {
            radiotap.flags = self.read_u8().ok();
        }
        if present_flags & RadiotapPresent::Rate.bit() != 0 {
            radiotap.rate = self.read_u8().ok();
        }
        if present_flags & RadiotapPresent::Channel.bit() != 0 {
            radiotap.channel_freq = self.read_u16().ok();
            radiotap.channel_flags = self.read_u16().ok();
        }
        if present_flags & RadiotapPresent::AntennaSignal.bit() != 0 {
            radiotap.antenna_signal = self.read_i8().ok();
        }
        if present_flags & RadiotapPresent::Antenna.bit() != 0 {
            radiotap.antenna = self.read_u8().ok();
        }
        Ok(radiotap)
    }

    /// Decodes the radiotap header and the 802.11 header that starts at
    /// the declared radiotap length, and for beacon and probe-response
    /// frames the SSID, channel and rates elements.
    pub fn parse_wifi_frame(&mut self) -> (r: Result<WiFiFrame, String>)
        ensures
            r is Ok <==> frame_ok(old(self).bytes()),
            r matches Ok(f) ==> frame_matches(f, old(self).bytes()),
    {
        let ghost d = self.data@;
        let radiotap = self.parse_radiotap_header()?;
        self.offset = radiotap.length as usize;
        if self.offset >= self.data.len() {
            return Err("Invalid radiotap length".to_string());
        }
        let ghost s = self.offset as int;
        let frame_control = self.read_be16()?;
        let duration = self.read_be16()?;
        let addr1 = self.read_mac_address()?;
        let addr2 = self.read_mac_address()?;
        let addr3 = self.read_mac_address()?;
        let seq_ctrl = self.read_be16()?;
        assert(self.offset == s + 24);

        let frame_type = (frame_control & 0x000C) >> 2;
        let frame_subtype = (frame_control & 0x00F0) >> 4;
        let mut ssid: Option<String> = None;
        let mut channel: Option<u8> = None;
        let mut rates: Vec<u8> = Vec::new();
        let ghost mut ssid_bytes: Option<Seq<u8>> = None;

        if frame_type == 0 && (frame_subtype == 8 || frame_subtype == 5) {
            if self.data.len() - self.offset >= 12 {
                self.offset += 12;
                let ghost start = self.offset as int;
                while self.data.len() - self.offset >= 2
                    invariant
                        self.data@ == d,
                        start <= self.offset <= d.len(),
                        scan_tags(d, self.offset as int, (ssid_bytes, channel, rates@))
                            == scan_tags(d, start, (None, None, Seq::empty())),
                        ssid_decoded(ssid, ssid_bytes),
                    ensures
                        self.data@ == d,
                        scan_tags(d, self.offset as int, (ssid_bytes, channel, rates@))
                            == (ssid_bytes, channel, rates@),
                        scan_tags(d, self.offset as int, (ssid_bytes, channel, rates@))
                            == scan_tags(d, start, (None, None, Seq::empty())),
                        ssid_decoded(ssid, ssid_bytes),
                    decreases d.len() - self.offset,
                {
                    let tag_number = self.data[self.offset];
                    let tag_length = self.data[self.offset + 1] as usize;
                    let o = self.offset + 2;
                    if self.data.len() - o < tag_length {
                        break;
                    }
                    let ghost value = d.subrange(o as int, o + tag_length);
                    let ghost before: TagScan = (ssid_bytes, channel, rates@);
                    if tag_number == 0 {
                        if tag_length > 0 {
                            let part = &self.data[o..o + tag_length];
                            assert(part@ =~= value);
                            ssid = Some(decode_lossy(part));
                            proof {
                                ssid_bytes = Some(value);
                            }
                        }
                    } else if tag_number == 3 {
                        if tag_length > 0 {
                            channel = Some(self.data[o]);
                        }
                    } else if tag_number == 1 || tag_number == 50 {
                        let part = &self.data[o..o + tag_length];
                        assert(part@ =~= value);
                        rates.extend_from_slice(part);
                    }
                    self.offset = o + tag_length;
                    proof {
                        let after: TagScan = (ssid_bytes, channel, rates@);
                        assert(after == apply_tag(before, tag_number, value));
                    }
                }
            }
        }
        Ok(WiFiFrame {
            radiotap,
            frame_control,
            duration,
            addr1,
            addr2,
            addr3,
            seq_ctrl,
            ssid,
            channel,
            rates,
        })
    }

    fn read_u8(&mut self) -> (r: Result<u8, String>)
        requires
            old(self).offset <= old(self).data@.len(),
        ensures
            final(self).data@ == old(self).data@,
            final(self).offset <= final(self).data@.len(),
            (r.ok(), final(self).offset as int) == opt_u8(old(self).data@, old(self).offset as int),
    {
        if self.offset >= self.data.len() {
            return Err("Buffer overflow reading u8".to_string());
        }
        let value = self.data[self.offset];
        self.offset += 1;
        Ok(value)
    }

    fn read_i8(&mut self) -> (r: Result<i8, String>)
        requires
            old(self).offset <= old(self).data@.len(),
        ensures
            final(self).data@ == old(self).data@,
            final(self).offset <= final(self).data@.len(),
            final(self).offset as int == opt_u8(old(self).data@, old(self).offset as int).1,
            r.ok() == (match opt_u8(old(self).data@, old(self).offset as int).0 {
                Some(b) => Some(b as i8),
                None => None,
            }),
    {
        match self.read_u8() {
            Ok(v) => Ok(v as i8),
            Err(e) => Err(e),
        }
    }

    fn read_u16(&mut self) -> (r: Result<u16, String>)
        requires
            old(self).offset <= old(self).data@.len(),
        ensures
            final(self).data@ == old(self).data@,
            final(self).offset <= final(self).data@.len(),
            (r.ok(), final(self).offset as int) == opt_u16(old(self).data@, old(self).offset as int),
    {
        if self.data.len() - self.offset < 2 {
            return Err("Buffer overflow reading u16".to_string());
        }
        let o = self.offset;
        let value = self.data[o] as u16 + 256 * self.data[o + 1] as u16;
        self.offset += 2;
        Ok(value)
    }

    /// A network-order 16-bit word of the 802.11 header.
    fn read_be16(&mut self) -> (r: Result<u16, String>)
        requires
            old(self).offset <= old(self).data@.len(),
        ensures
            final(self).data@ == old(self).data@,
            final(self).offset <= final(self).data@.len(),
            old(self).offset + 2 <= old(self).data@.len() ==> r == Ok::<u16, String>(
                be16(old(self).data@, old(self).offset as int),
            ) && final(self).offset == old(self).offset + 2,
            old(self).offset + 2 > old(self).data@.len() ==> r is Err,
    {
        if self.data.len() - self.offset < 2 {
            return Err("Buffer overflow reading u16".to_string());
        }
        let o = self.offset;
        let value = 256 * self.data[o] as u16 + self.data[o + 1] as u16;
        self.offset += 2;
        Ok(value)
    }

    fn read_u64(&mut self) -> (r: Result<u64, String>)
        requires
            old(self).offset <= old(self).data@.len(),
        ensures
            final(self).data@ == old(self).data@,
            final(self).offset <= final(self).data@.len(),
            (r.ok(), final(self).offset as int) == opt_u64(old(self).data@, old(self).offset as int),
    {
        if self.data.len() - self.offset < 8 {
            return Err("Buffer overflow reading u64".to_string());
        }
        let o = self.offset;
        let d = self.data;
        let lo = d[o] as u64 + 256 * d[o + 1] as u64 + 65536 * d[o + 2] as u64 + 16777216
            * d[o + 3] as u64;
        let hi = d[o + 4] as u64 + 256 * d[o + 5] as u64 + 65536 * d[o + 6] as u64 + 16777216
            * d[o + 7] as u64;
        let value = lo + 4294967296 * hi;
        self.offset += 8;
        Ok(value)
    }

    fn read_mac_address(&mut self) -> (r: Result<[u8; 6], String>)
        requires
            old(self).offset <= old(self).data@.len(),
        ensures
            final(self).data@ == old(self).data@,
            final(self).offset <= final(self).data@.len(),
            old(self).offset + 6 <= old(self).data@.len() ==> (r matches Ok(a) && a@
                == old(self).data@.subrange(old(self).offset as int, old(self).offset + 6))
                && final(self).offset == old(self).offset + 6,
            old(self).offset + 6 > old(self).data@.len() ==> r is Err,
    {
        if self.data.len() - self.offset < 6 {
            return Err("Buffer overflow reading MAC address".to_string());
        }
        let o = self.offset;
        let d = self.data;
        let addr: [u8; 6] = [d[o], d[o + 1], d[o + 2], d[o + 3], d[o + 4], d[o + 5]];
        self.offset += 6;
        assert(addr@ =~= d@.subrange(o as int, o + 6));
        Ok(addr)
    }
}

/// A beacon: a radiotap header `rt` (its length field giving its own
/// length), the frame-control word `fc`, a zero duration, the addresses,
/// a zero sequence control, zeroed fixed parameters, then an SSID element
/// and a channel element.
pub open spec fn beacon_bytes(
    rt: Seq<u8>,
    fc: u16,
    addr1: Seq<u8>,
    addr2: Seq<u8>,
    bssid: Seq<u8>,
    ssid: Seq<u8>,
    channel: u8,
) -> Seq<u8> {
    rt + seq![(fc / 256) as u8, (fc % 256) as u8, 0u8, 0u8] + addr1 + addr2 + bssid + seq![0u8, 0u8]
        + Seq::new(12, |i: int| 0u8) + seq![0u8, ssid.len() as u8] + ssid + seq![3u8, 1u8, channel]
}

/// A beacon decodes to the frame-control word, addresses, SSID and channel
/// it was built from; an ASCII SSID comes back as the same characters.
pub proof fn lemma_beacon_round_trip(
    rt: Seq<u8>,
    fc: u16,
    addr1: Seq<u8>,
    addr2: Seq<u8>,
    bssid: Seq<u8>,
    ssid: Seq<u8>,
    channel: u8,
)
    requires
        8 <= rt.len(),
        rt[0] == 0,
        le16(rt, 2) == rt.len(),
        frame_type(fc) == 0,
        frame_subtype(fc) == 8,
        addr1.len() == 6,
        addr2.len() == 6,
        bssid.len() == 6,
        0 < ssid.len() <= 255,
    ensures
        frame_ok(beacon_bytes(rt, fc, addr1, addr2, bssid, ssid, channel)),
        forall|f: WiFiFrame| #[trigger]
            frame_matches(f, beacon_bytes(rt, fc, addr1, addr2, bssid, ssid, channel)) ==> {
                &&& f.frame_control == fc
                &&& f.addr1@ == addr1
                &&& f.addr2@ == addr2
                &&& f.addr3@ == bssid
                &&& f.channel == Some(channel)
                &&& f.ssid matches Some(s) && s@ == lossy_text(ssid) && s@.len() > 0
                &&& all_ascii(ssid) ==> (f.ssid matches Some(s) && s@ == ascii_chars(ssid))
                &&& f.rates@.len() == 0
            },
{
    let d = beacon_bytes(rt, fc, addr1, addr2, bssid, ssid, channel);
    let l = rt.len() as int;
    let n = ssid.len() as int;
    assert(d.len() == l + 41 + n);
    assert(d[0] == rt[0] && d[2] == rt[2] && d[3] == rt[3]);
    assert(le16(d, 2) == le16(rt, 2));
    assert(frame_start(d) == l);
    assert(d[l] == (fc / 256) as u8 && d[l + 1] == (fc % 256) as u8);
    assert(be16(d, l) == fc);
    assert(carries_elements(fc));
    assert(d.subrange(l + 4, l + 10) =~= addr1);
    assert(d.subrange(l + 10, l + 16) =~= addr2);
    assert(d.subrange(l + 16, l + 22) =~= bssid);
    assert(d[l + 36] == 0 && d[l + 37] == n as u8);
    assert(d.subrange(l + 38, l + 38 + n) =~= ssid);
    assert(d[l + 38 + n] == 3 && d[l + 39 + n] == 1 && d[l + 40 + n] == channel);
    let e: TagScan = (None, None, Seq::empty());
    let a1 = apply_tag(e, 0, ssid);
    let a2 = apply_tag(a1, 3, d.subrange(l + 40 + n, l + 41 + n));
    assert(d.subrange(l + 40 + n, l + 41 + n) =~= seq![channel]);
    assert(scan_tags(d, l + 41 + n, a2) == a2);
    assert(scan_tags(d, l + 38 + n, a1) == scan_tags(d, l + 41 + n, a2));
    assert(scan_tags(d, l + 36, e) == scan_tags(d, l + 38 + n, a1));
    assert(a2.2 =~= Seq::<u8>::empty());
    assert(frame_tags(d) == a2);
}

/// Cutting an accepted frame short, anywhere after its fixed 802.11
/// fields, leaves it accepted, with the same header words and addresses.
pub proof fn lemma_frame_truncation(d: Seq<u8>, k: int)
    requires
        frame_ok(d),
        frame_start(d) + 24 <= k <= d.len(),
    ensures
        frame_ok(d.subrange(0, k)),
        forall|f: WiFiFrame, g: WiFiFrame|
            #[trigger] frame_matches(f, d.subrange(0, k)) && #[trigger] frame_matches(g, d) ==> {
                &&& f.frame_control == g.frame_control
                &&& f.duration == g.duration
                &&& f.addr1 == g.addr1
                &&& f.addr2 == g.addr2
                &&& f.addr3 == g.addr3
                &&& f.seq_ctrl == g.seq_ctrl
            },
{
    let c = d.subrange(0, k);
    assert(c[0] == d[0] && c[2] == d[2] && c[3] == d[3]);
    let s = frame_start(d);
    assert(frame_start(c) == s);
    assert forall|i: int| s <= i < s + 24 implies c[i] == d[i] by {}
    assert(c.subrange(s + 4, s + 10) =~= d.subrange(s + 4, s + 10));
    assert(c.subrange(s + 10, s + 16) =~= d.subrange(s + 10, s + 16));
    assert(c.subrange(s + 16, s + 22) =~= d.subrange(s + 16, s + 22));
    assert forall|f: WiFiFrame, g: WiFiFrame|
        #[trigger] frame_matches(f, c) && #[trigger] frame_matches(g, d) implies {
            &&& f.frame_control == g.frame_control
            &&& f.duration == g.duration
            &&& f.addr1 == g.addr1
            &&& f.addr2 == g.addr2
            &&& f.addr3 == g.addr3
            &&& f.seq_ctrl == g.seq_ctrl
        } by {
        assert(f.addr1@ == g.addr1@);
        assert(f.addr2@ == g.addr2@);
        assert(f.addr3@ == g.addr3@);
    }
}

/// `a` is a prefix of `b`.
pub open spec fn is_prefix(a: Seq<u8>, b: Seq<u8>) -> bool {
    a.len() <= b.len() && a == b.subrange(0, a.len() as int)
}

proof fn lemma_rates_grow(d: Seq<u8>, off: int, acc: TagScan)
    ensures
        is_prefix(acc.2, scan_tags(d, off, acc).2),
    decreases d.len() - off,
{
    assert(acc.2 =~= acc.2.subrange(0, acc.2.len() as int));
    if !(off < 0 || off + 2 > d.len()) {
        let v = off + 2;
        let n = d[off + 1] as int;
        if v + n <= d.len() {
            let next = apply_tag(acc, d[off], d.subrange(v, v + n));
            lemma_rates_grow(d, v + n, next);
            assert(scan_tags(d, off, acc) == scan_tags(d, v + n, next));
            let r = scan_tags(d, v + n, next).2;
            assert(acc.2 =~= next.2.subrange(0, acc.2.len() as int));
            assert(next.2 == r.subrange(0, next.2.len() as int));
            assert(acc.2 =~= r.subrange(0, acc.2.len() as int));
        }
    }
}

proof fn lemma_rates_truncation(d: Seq<u8>, c: Seq<u8>, off: int, acc: TagScan)
    requires
        c.len() <= d.len(),
        c == d.subrange(0, c.len() as int),
        0 <= off,
    ensures
        is_prefix(scan_tags(c, off, acc).2, scan_tags(d, off, acc).2),
    decreases d.len() - off,
{
    lemma_rates_grow(d, off, acc);
    if !(off + 2 > c.len()) {
        let v = off + 2;
        assert(c[off] == d[off] && c[off + 1] == d[off + 1]);
        let n = d[off + 1] as int;
        if v + n <= c.len() {
            assert(c.subrange(v, v + n) =~= d.subrange(v, v + n));
            let next = apply_tag(acc, d[off], d.subrange(v, v + n));
            lemma_rates_truncation(d, c, v + n, next);
        }
    }
}

/// Cutting an accepted frame short, anywhere after its fixed 802.11
/// fields, yields a prefix of its supported rates.
pub proof fn lemma_rates_kept_on_truncation(d: Seq<u8>, k: int)
    requires
        frame_ok(d),
        frame_start(d) + 24 <= k <= d.len(),
    ensures
        is_prefix(frame_tags(d.subrange(0, k)).2, frame_tags(d).2),
{
    let c = d.subrange(0, k);
    lemma_frame_truncation(d, k);
    let s = frame_start(d);
    assert(c[s] == d[s] && c[s + 1] == d[s + 1]);
    assert(c =~= d.subrange(0, c.len() as int));
    assert(Seq::<u8>::empty() =~= frame_tags(d).2.subrange(0, 0));
    if carries_elements(be16(d, s)) && s + 36 <= c.len() {
        lemma_rates_truncation(d, c, s + 36, (None, None, Seq::empty()));
    }
}

} // verus!
