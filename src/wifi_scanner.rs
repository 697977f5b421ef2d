//! The table of observed wireless networks, built from beacon frames.
//!
//! Entries are keyed by BSSID, never removed, and filtered by age when read.
//! Times are milliseconds on the caller's clock.

use vstd::prelude::*;
use crate::radiotap::{RadiotapParser, WiFiFrame, frame_type, frame_subtype, frame_ok, frame_matches};
use crate::text::{parse_mac_address, mac_text};

verus! {

/// A network entry is listed while younger than this many milliseconds.
pub const STALE_AFTER_MS: u64 = 10000;

/// A snapshot is published at most this often while a scan runs.
pub const UPDATE_INTERVAL_MS: u64 = 500;

/// An observed network.
#[derive(Clone, Debug)]
pub struct WiFiNetwork {
    pub ssid: String,
    pub bssid: String,
    pub signal_quality: u32,
    pub frequency: u32,
    pub channel: u32,
    pub security: String,
    /// Milliseconds since the epoch of the last beacon seen.
    pub last_seen: u64,
    pub beacon_count: u32,
    pub avg_signal: i32,
}

/// A network entry with its texts as character sequences.
pub struct NetworkView {
    pub ssid: Seq<char>,
    pub bssid: Seq<char>,
    pub signal_quality: u32,
    pub frequency: u32,
    pub channel: u32,
    pub security: Seq<char>,
    pub last_seen: u64,
    pub beacon_count: u32,
    pub avg_signal: i32,
}

impl View for WiFiNetwork {
    type V = NetworkView;

    open spec fn view(&self) -> NetworkView {
        NetworkView {
            ssid: self.ssid@,
            bssid: self.bssid@,
            signal_quality: self.signal_quality,
            frequency: self.frequency,
            channel: self.channel,
            security: self.security@,
            last_seen: self.last_seen,
            beacon_count: self.beacon_count,
            avg_signal: self.avg_signal,
        }
    }
}

impl WiFiNetwork {
    /// A field-by-field copy.
    pub fn copied(&self) -> (r: Self)
        ensures
            r@ == self@,
    {
        WiFiNetwork {
            ssid: self.ssid.clone(),
            bssid: self.bssid.clone(),
            signal_quality: self.signal_quality,
            frequency: self.frequency,
            channel: self.channel,
            security: self.security.clone(),
            last_seen: self.last_seen,
            beacon_count: self.beacon_count,
            avg_signal: self.avg_signal,
        }
    }
}

/// A snapshot of the live networks during or at the end of a scan.
#[derive(Clone, Debug)]
pub struct ScanProgress {
    pub networks: Vec<WiFiNetwork>,
    pub is_complete: bool,
}

/// Signal quality: the dBm range -100..0 mapped linearly onto 0..100,
/// clamped at both ends.
pub open spec fn quality_of(signal: int) -> int {
    let scaled = if signal + 100 > 0 { (signal + 100) * 2 } else { 0 };
    if scaled < 100 { scaled } else { 100 }
}

/// Division rounding toward zero.
pub open spec fn trunc_div(n: int, d: int) -> int {
    if n >= 0 { n / d } else { -((-n) / d) }
}

/// The running mean after the `count`-th sample: the sample itself for the
/// first, else the previous mean weighted by the earlier samples.
pub open spec fn next_avg(avg: int, count: int, signal: int) -> int {
    if count <= 1 { signal } else { trunc_div(avg * (count - 1) + signal, count) }
}

/// The security label: the privacy bit of the frame-control word.
pub open spec fn security_of(fc: u16) -> Seq<char> {
    if fc & 0x0010 != 0 { "WPA/WPA2"@ } else { "Open"@ }
}

/// Maps a signal in dBm to a quality between 0 and 100.
pub fn signal_quality(signal: i8) -> (r: u32)
    ensures
        r as int == quality_of(signal as int),
        r <= 100,
{
    let shifted: i32 = signal as i32 + 100;
    let normalized: u32 = if shifted > 0 { shifted as u32 } else { 0 };
    let scaled: u32 = normalized * 2;
    if scaled < 100 { scaled } else { 100 }
}

/// The running mean after another sample; `count` counts that sample.
pub fn running_average(avg: i32, count: u32, signal: i8) -> (r: i32)
    requires
        -128 <= avg <= 127,
    ensures
        r as int == next_avg(avg as int, count as int, signal as int),
        -128 <= r <= 127,
{
    if count <= 1 {
        return signal as i32;
    }
    let c: i64 = count as i64;
    assert(-128 * (c - 1) <= avg * (c - 1) <= 127 * (c - 1)) by (nonlinear_arith)
        requires -128 <= avg <= 127, c >= 2;
    let total: i64 = avg as i64 * (c - 1) + signal as i64;
    let q: i64 = if total >= 0 {
        let p: i64 = total / c;
        assert(p <= 127) by (nonlinear_arith)
            requires total <= 127 * c, c >= 2, p == total / c, total >= 0;
        p
    } else {
        let m: i64 = -total;
        let p: i64 = m / c;
        assert(p <= 128) by (nonlinear_arith)
            requires m <= 128 * c, c >= 2, p == m / c, m >= 0;
        -p
    };
    q as i32
}

/// Names the security of a beacon from the privacy bit of its
/// frame-control word.
pub fn parse_security_info(frame_control: u16) -> (r: String)
    ensures
        r@ == security_of(frame_control),
{
    if frame_control & 0x0010 != 0 {
        "WPA/WPA2".to_string()
    } else {
        "Open".to_string()
    }
}

/// The entry's state after one more beacon at `now`.
pub open spec fn sighted(n: NetworkView, signal: Option<i8>, now: u64) -> NetworkView {
    let count = if n.beacon_count < u32::MAX { (n.beacon_count + 1) as u32 } else { n.beacon_count };
    match signal {
        Some(s) => NetworkView {
            last_seen: now,
            beacon_count: count,
            signal_quality: quality_of(s as int) as u32,
            avg_signal: next_avg(n.avg_signal as int, count as int, s as int) as i32,
            ..n
        },
        None => NetworkView { last_seen: now, beacon_count: count, ..n },
    }
}

/// The entry a network gets on its first beacon, before that beacon counts.
pub open spec fn first_sight(f: WiFiFrame, ssid: Seq<char>, now: u64) -> NetworkView {
    NetworkView {
        ssid: ssid,
        bssid: mac_text(f.addr3@),
        signal_quality: 0,
        frequency: match f.radiotap.channel_freq { Some(q) => q as u32, None => 0 },
        channel: match f.channel { Some(c) => c as u32, None => 0 },
        security: security_of(f.frame_control),
        last_seen: now,
        beacon_count: 0,
        avg_signal: 0,
    }
}

/// A beacon (type 0, subtype 8).
pub open spec fn is_beacon(fc: u16) -> bool {
    frame_type(fc) == 0 && frame_subtype(fc) == 8
}

/// The SSID a frame adds to the table: a beacon's non-empty SSID.
pub open spec fn listed_ssid(f: WiFiFrame) -> Option<Seq<char>> {
    match f.ssid {
        Some(s) => if is_beacon(f.frame_control) && s@.len() > 0 { Some(s@) } else { None },
        None => None,
    }
}

/// The table holds an entry for `key`.
pub open spec fn has_key(t: Seq<NetworkView>, key: Seq<char>) -> bool {
    exists|i: int| 0 <= i < t.len() && t[i].bssid == key
}

/// The table after one beacon for `key`: its entry updated, or a new one
/// added at the end.
pub open spec fn upsert(t: Seq<NetworkView>, key: Seq<char>, fresh: NetworkView, signal: Option<i8>, now: u64) -> Seq<NetworkView> {
    if has_key(t, key) {
        let i = choose|i: int| 0 <= i < t.len() && t[i].bssid == key;
        t.update(i, sighted(t[i], signal, now))
    } else {
        t.push(sighted(fresh, signal, now))
    }
}

/// The table after a decoded frame.
pub open spec fn after_frame(t: Seq<NetworkView>, f: WiFiFrame, now: u64) -> Seq<NetworkView> {
    match listed_ssid(f) {
        Some(ssid) => upsert(t, mac_text(f.addr3@), first_sight(f, ssid, now), f.radiotap.antenna_signal, now),
        None => t,
    }
}

/// An entry is live at `now` when seen less than the staleness bound ago
/// (or, on a clock that went back, after `now`).
pub open spec fn is_live(n: NetworkView, now: u64) -> bool {
    now <= n.last_seen || now - n.last_seen < STALE_AFTER_MS
}

/// The live entries, in table order.
pub open spec fn live_entries(t: Seq<NetworkView>, now: u64) -> Seq<NetworkView> {
    t.filter(|n: NetworkView| is_live(n, now))
}

/// Table invariant: one entry per BSSID, no hidden network, averages of
/// byte-sized signals.
pub open spec fn table_wf(t: Seq<NetworkView>) -> bool {
    &&& forall|i: int, j: int| 0 <= i < j < t.len() ==> t[i].bssid != t[j].bssid
    &&& forall|i: int| 0 <= i < t.len() ==> t[i].ssid.len() > 0
    &&& forall|i: int| 0 <= i < t.len() ==> -128 <= #[trigger] t[i].avg_signal <= 127
}

/// An entry that has gone stale is missing from the live view, yet stays in
/// the table: when its BSSID is seen again the same entry is updated, its
/// beacon count and average carried on, and it is live again.
pub proof fn lemma_stale_entry_kept(
    t: Seq<NetworkView>,
    i: int,
    now: u64,
    later: u64,
    fresh: NetworkView,
    signal: Option<i8>,
)
    requires
        table_wf(t),
        0 <= i < t.len(),
        !is_live(t[i], now),
    ensures
        !live_entries(t, now).contains(t[i]),
        upsert(t, t[i].bssid, fresh, signal, later) == t.update(i, sighted(t[i], signal, later)),
        live_entries(upsert(t, t[i].bssid, fresh, signal, later), later).contains(
            sighted(t[i], signal, later),
        ),
{
    let pred = |n: NetworkView| is_live(n, now);
    #[allow(deprecated)]
    t.filter_lemma(pred);
    if live_entries(t, now).contains(t[i]) {
        let j = choose|j: int| 0 <= j < live_entries(t, now).len() && live_entries(t, now)[j] == t[i];
        assert(pred(live_entries(t, now)[j]));
    }
    let k = choose|k: int| 0 <= k < t.len() && t[k].bssid == t[i].bssid;
    assert(k == i);
    let u = t.update(i, sighted(t[i], signal, later));
    let later_pred = |n: NetworkView| is_live(n, later);
    #[allow(deprecated)]
    u.filter_lemma(later_pred);
    assert(later_pred(u[i]));
}

/// A frame whose SSID is missing or empty neither adds nor changes an entry.
pub proof fn lemma_hidden_network_ignored(t: Seq<NetworkView>, f: WiFiFrame, now: u64)
    requires
        match f.ssid {
            Some(s) => s@.len() == 0,
            None => true,
        },
    ensures
        after_frame(t, f, now) == t,
{
}

/// What one read of the capture handle gave.
pub enum ScanEvent {
    /// A captured frame's bytes.
    Frame(Vec<u8>),
    /// The read timed out with nothing captured.
    Timeout,
    /// The capture failed for good.
    Failed,
}

/// What the scan loop does next.
pub enum ScanAction {
    /// Read again.
    Continue,
    /// Send this snapshot, then read again.
    Publish(ScanProgress),
    /// Send this final snapshot and stop.
    Finish(ScanProgress),
}

/// A snapshot is due once the interval has passed since the last one.
pub open spec fn publish_due(last_update: u64, now: u64) -> bool {
    now >= last_update && now - last_update >= UPDATE_INTERVAL_MS
}

/// Whether a snapshot is due at `now`.
pub fn should_publish(last_update: u64, now: u64) -> (r: bool)
    ensures
        r == publish_due(last_update, now),
{
    now >= last_update && now - last_update >= UPDATE_INTERVAL_MS
}

/// Aggregates beacons into a table of networks.
pub struct WiFiScanner {
    networks: Vec<WiFiNetwork>,
    stop_flag: bool,
}

impl WiFiScanner {
    /// The table's entries in insertion order.
    pub closed spec fn table(&self) -> Seq<NetworkView> {
        self.networks@.map_values(|n: WiFiNetwork| n@)
    }

    pub closed spec fn stop_requested(&self) -> bool {
        self.stop_flag
    }

    pub open spec fn wf(&self) -> bool {
        table_wf(self.table())
    }

    pub fn new() -> (r: Self)
        ensures
            r.wf(),
            r.table().len() == 0,
            !r.stop_requested(),
    {
        let r = WiFiScanner { networks: Vec::new(), stop_flag: false };
        assert(r.table() =~= Seq::empty());
        r
    }

    /// Clears the stop request before a scan starts.
    pub fn start_scanning(&mut self)
        ensures
            final(self).table() == old(self).table(),
            !final(self).stop_requested(),
    {
        self.stop_flag = false;
    }

    /// Asks a running scan to stop; the scan loop sees it on its next turn.
    pub fn stop_scanning(&mut self)
        ensures
            final(self).table() == old(self).table(),
            final(self).stop_requested(),
    {
        self.stop_flag = true;
    }

    /// Counts one more beacon on an entry.
    fn sight(n: &mut WiFiNetwork, signal: Option<i8>, now: u64)
        requires
            -128 <= old(n).avg_signal <= 127,
        ensures
            final(n)@ == sighted(old(n)@, signal, now),
            -128 <= final(n).avg_signal <= 127,
    {
        n.last_seen = now;
        if n.beacon_count < u32::MAX {
            n.beacon_count = n.beacon_count + 1;
        }
        if let Some(s) = signal {
            n.signal_quality = signal_quality(s);
            n.avg_signal = running_average(n.avg_signal, n.beacon_count, s);
        }
    }

    /// Position of the entry for `key`, if any.
    fn find(&self, key: &String) -> (r: Option<usize>)
        requires
            self.wf(),
        ensures
            match r {
                Some(i) => i < self.table().len() && self.table()[i as int].bssid == key@,
                None => !has_key(self.table(), key@),
            },
    {
        let mut i: usize = 0;
        while i < self.networks.len()
            invariant
                i <= self.networks@.len(),
                forall|j: int| 0 <= j < i ==> self.table()[j].bssid != key@,
            decreases self.networks@.len() - i,
        {
            if self.networks[i].bssid == *key {
                return Some(i);
            }
            i = i + 1;
        }
        None
    }

    /// Counts a decoded frame into the table: a beacon with a non-empty
    /// SSID updates the entry of its BSSID (the third address), creating it
    /// on first sight; any other frame leaves the table alone.
    pub fn record_beacon(&mut self, frame: &WiFiFrame, now: u64)
        requires
            old(self).wf(),
        ensures
            final(self).wf(),
            final(self).table() == after_frame(old(self).table(), *frame, now),
            final(self).stop_requested() == old(self).stop_requested(),
    {
        let fc = frame.frame_control;
        let frame_type = (fc & 0x000C) >> 2;
        let frame_subtype = (fc & 0x00F0) >> 4;
        if !(frame_type == 0 && frame_subtype == 8) {
            return;
        }
        let ssid = match &frame.ssid {
            Some(s) => s,
            None => {
                return;
            },
        };
        if ssid.as_str().is_empty() {
            return;
        }
        let bssid = parse_mac_address(frame.addr3.as_slice());
        let ghost t = self.table();
        let signal = frame.radiotap.antenna_signal;
        match self.find(&bssid) {
            Some(i) => {
                assert(t[i as int] == self.networks@[i as int]@);
                assert(-128 <= t[i as int].avg_signal <= 127);
                let mut entry = self.networks[i].copied();
                Self::sight(&mut entry, signal, now);
                self.networks.set(i, entry);
                proof {
                    let k = choose|k: int| 0 <= k < t.len() && t[k].bssid == bssid@;
                    assert(k == i);
                    assert(self.table() =~= t.update(i as int, sighted(t[i as int], signal, now)));
                }
            },
            None => {
                let mut entry = WiFiNetwork {
                    ssid: ssid.clone(),
                    bssid,
                    signal_quality: 0,
                    frequency: match frame.radiotap.channel_freq {
                        Some(q) => q as u32,
                        None => 0,
                    },
                    channel: match frame.channel {
                        Some(c) => c as u32,
                        None => 0,
                    },
                    security: parse_security_info(fc),
                    last_seen: now,
                    beacon_count: 0,
                    avg_signal: 0,
                };
                assert(entry@ == first_sight(*frame, ssid@, now));
                Self::sight(&mut entry, signal, now);
                self.networks.push(entry);
                assert(self.table() =~= t.push(entry@));
            },
        }
    }

    /// Decodes a captured buffer and counts it. Buffers under eight bytes
    /// are refused; one that does not decode leaves the table alone.
    pub fn process_packet(&mut self, data: &[u8], now: u64) -> (r: Result<(), String>)
        requires
            old(self).wf(),
        ensures
            final(self).wf(),
            final(self).stop_requested() == old(self).stop_requested(),
            r is Err <==> data@.len() < 8,
            !frame_ok(data@) ==> final(self).table() == old(self).table(),
            frame_ok(data@) ==> exists|f: WiFiFrame|
                frame_matches(f, data@) && final(self).table() == after_frame(
                    old(self).table(),
                    f,
                    now,
                ),
    {
        if data.len() < 8 {
            return Err("Packet too small".to_string());
        }
        let mut parser = RadiotapParser::new(data);
        match parser.parse_wifi_frame() {
            Ok(frame) => {
                self.record_beacon(&frame, now);
                Ok(())
            },
            Err(_) => Ok(()),
        }
    }

    /// The entries seen less than ten seconds before `now`, in table order.
    /// Older entries stay in the table.
    pub fn get_networks(&self, now: u64) -> (r: Vec<WiFiNetwork>)
        ensures
            r@.map_values(|n: WiFiNetwork| n@) == live_entries(self.table(), now),
    {
        let mut out: Vec<WiFiNetwork> = Vec::new();
        let mut i: usize = 0;
        while i < self.networks.len()
            invariant
                i <= self.networks@.len(),
                out@.map_values(|n: WiFiNetwork| n@) == live_entries(
                    self.table().subrange(0, i as int),
                    now,
                ),
            decreases self.networks@.len() - i,
        {
            let ghost prefix = self.table().subrange(0, i + 1);
            assert(prefix.drop_last() =~= self.table().subrange(0, i as int));
            let n = &self.networks[i];
            assert(prefix.last() == n@);
            proof {
                reveal(Seq::filter);
            }
            assert(live_entries(prefix, now) == (if is_live(n@, now) {
                live_entries(prefix.drop_last(), now).push(n@)
            } else {
                live_entries(prefix.drop_last(), now)
            }));
            if now <= n.last_seen || now - n.last_seen < STALE_AFTER_MS {
                let ghost before = out@;
                out.push(n.copied());
                assert(out@.map_values(|n: WiFiNetwork| n@) =~= before.map_values(
                    |n: WiFiNetwork| n@,
                ).push(n@));
            }
            i = i + 1;
        }
        assert(self.table().subrange(0, self.networks@.len() as int) =~= self.table());
        out
    }

    /// A snapshot of the live entries.
    pub fn progress(&self, now: u64, is_complete: bool) -> (r: ScanProgress)
        ensures
            r.networks@.map_values(|n: WiFiNetwork| n@) == live_entries(self.table(), now),
            r.is_complete == is_complete,
    {
        ScanProgress { networks: self.get_networks(now), is_complete }
    }

    /// Whether a stop was asked for.
    pub fn is_stopped(&self) -> (r: bool)
        ensures
            r == self.stop_requested(),
    {
        self.stop_flag
    }
}


impl WiFiScanner {
    /// One turn of the scan loop at `now`, after a read gave `event` and
    /// the last snapshot went out at `last_update`. A stop request or a
    /// failed capture ends the scan with a final snapshot; a frame is
    /// counted; a snapshot goes out when one is due.
    pub fn scan_step(&mut self, event: ScanEvent, now: u64, last_update: u64) -> (r: ScanAction)
        requires
            old(self).wf(),
        ensures
            final(self).wf(),
            final(self).stop_requested() == old(self).stop_requested(),
            old(self).stop_requested() ==> final(self).table() == old(self).table(),
            !old(self).stop_requested() ==> match event {
                ScanEvent::Frame(d) => (!frame_ok(d@) ==> final(self).table() == old(self).table())
                    && (frame_ok(d@) ==> exists|f: WiFiFrame|
                    frame_matches(f, d@) && final(self).table() == after_frame(old(self).table(), f, now)),
                _ => final(self).table() == old(self).table(),
            },
            match r {
                ScanAction::Finish(p) => (old(self).stop_requested() || event is Failed)
                    && p.is_complete && p.networks@.map_values(|n: WiFiNetwork| n@) == live_entries(final(self).table(), now),
                ScanAction::Publish(p) => !old(self).stop_requested() && !(event is Failed)
                    && publish_due(last_update, now) && !p.is_complete
                    && p.networks@.map_values(|n: WiFiNetwork| n@) == live_entries(final(self).table(), now),
                ScanAction::Continue => !old(self).stop_requested() && !(event is Failed)
                    && !publish_due(last_update, now),
            },
    {
        if self.stop_flag {
            return ScanAction::Finish(self.progress(now, true));
        }
        match event {
            ScanEvent::Failed => {
                return ScanAction::Finish(self.progress(now, true));
            },
            ScanEvent::Frame(data) => {
                let _ = self.process_packet(data.as_slice(), now);
            },
            ScanEvent::Timeout => {},
        }
        if should_publish(last_update, now) {
            ScanAction::Publish(self.progress(now, false))
        } else {
            ScanAction::Continue
        }
    }
}

/// Networks on a channel and the sum of their signal qualities.
#[derive(Clone, Copy, Debug, PartialEq, Eq)]
pub struct ChannelLoad {
    pub channel: u32,
    pub count: u64,
    pub signal_sum: u64,
}

/// How many entries are on `channel`.
pub open spec fn count_on(s: Seq<NetworkView>, channel: u32) -> nat
    decreases s.len(),
{
    if s.len() == 0 {
        0
    } else {
        count_on(s.drop_last(), channel) + if s.last().channel == channel { 1nat } else { 0nat }
    }
}

/// The summed signal quality of the entries on `channel`.
pub open spec fn quality_on(s: Seq<NetworkView>, channel: u32) -> nat
    decreases s.len(),
{
    if s.len() == 0 {
        0
    } else {
        quality_on(s.drop_last(), channel) + if s.last().channel == channel {
            s.last().signal_quality as nat
        } else {
            0nat
        }
    }
}

/// The 2.4 GHz channels 1 to 13.
pub const FIRST_CHANNEL: u32 = 1;
pub const LAST_CHANNEL: u32 = 13;

proof fn lemma_tally_bounds(s: Seq<NetworkView>, channel: u32)
    ensures
        count_on(s, channel) <= s.len(),
        quality_on(s, channel) <= s.len() * 0xFFFF_FFFF,
    decreases s.len(),
{
    if s.len() > 0 {
        lemma_tally_bounds(s.drop_last(), channel);
    }
}

/// Counts the networks on one channel and sums their signal qualities.
pub fn channel_load(networks: &Vec<WiFiNetwork>, channel: u32) -> (r: ChannelLoad)
    requires
        networks@.len() <= 0xFFFF_FFFF,
    ensures
        r.channel == channel,
        r.count as nat == count_on(networks@.map_values(|n: WiFiNetwork| n@), channel),
        r.signal_sum as nat == quality_on(networks@.map_values(|n: WiFiNetwork| n@), channel),
{
    let ghost all = networks@.map_values(|n: WiFiNetwork| n@);
    let mut count: u64 = 0;
    let mut sum: u64 = 0;
    let mut i: usize = 0;
    while i < networks.len()
        invariant
            i <= networks@.len() <= 0xFFFF_FFFF,
            all == networks@.map_values(|n: WiFiNetwork| n@),
            count as nat == count_on(all.subrange(0, i as int), channel),
            sum as nat == quality_on(all.subrange(0, i as int), channel),
        decreases networks@.len() - i,
    {
        let ghost prefix = all.subrange(0, i + 1);
        assert(prefix.drop_last() =~= all.subrange(0, i as int));
        proof {
            lemma_tally_bounds(all.subrange(0, i as int), channel);
            assert(i * 0xFFFF_FFFF <= 0xFFFF_FFFF * 0xFFFF_FFFF) by (nonlinear_arith)
                requires i <= 0xFFFF_FFFF;
        }
        let n = &networks[i];
        assert(prefix.last() == n@);
        if n.channel == channel {
            count = count + 1;
            sum = sum + n.signal_quality as u64;
        }
        i = i + 1;
    }
    assert(all.subrange(0, networks@.len() as int) =~= all);
    ChannelLoad { channel, count, signal_sum: sum }
}

/// The load of each channel from 1 to 13, in channel order. The share of
/// a channel is `count / total * (signal_sum / count) / 100`, or 0 when it
/// has no network.
pub fn channel_loads(networks: &Vec<WiFiNetwork>) -> (r: Vec<ChannelLoad>)
    requires
        networks@.len() <= 0xFFFF_FFFF,
    ensures
        r@.len() == 13,
        forall|k: int| 0 <= k < 13 ==> (#[trigger] r@[k]).channel == k + 1
            && r@[k].count as nat == count_on(networks@.map_values(|n: WiFiNetwork| n@), (k + 1) as u32)
            && r@[k].signal_sum as nat == quality_on(networks@.map_values(|n: WiFiNetwork| n@), (k + 1) as u32),
{
    let mut out: Vec<ChannelLoad> = Vec::new();
    let mut c: u32 = FIRST_CHANNEL;
    while c <= LAST_CHANNEL
        invariant
            1 <= c <= 14,
            out@.len() == c - 1,
            networks@.len() <= 0xFFFF_FFFF,
            forall|k: int| 0 <= k < c - 1 ==> (#[trigger] out@[k]).channel == k + 1
                && out@[k].count as nat == count_on(networks@.map_values(|n: WiFiNetwork| n@), (k + 1) as u32)
                && out@[k].signal_sum as nat == quality_on(networks@.map_values(|n: WiFiNetwork| n@), (k + 1) as u32),
        decreases 14 - c,
    {
        out.push(channel_load(networks, c));
        c = c + 1;
    }
    out
}

} // verus!
