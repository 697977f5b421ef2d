//! Textual forms of IP addresses: dotted decimal for IPv4, and for IPv6
//! lower-case hex groups with the longest run of two or more zero groups
//! written `::`, and IPv4-mapped addresses as `::ffff:a.b.c.d`.

use vstd::prelude::*;
use crate::text::{dec_text, lower_hex_text, push_char, push_dec_byte, push_lower_hex};

verus! {

/// Four bytes as `a.b.c.d`.
pub open spec fn ipv4_text(b: Seq<u8>) -> Seq<char> {
    dec_text(b[0] as nat).push('.') + dec_text(b[1] as nat).push('.') + dec_text(b[2] as nat).push(
        '.',
    ) + dec_text(b[3] as nat)
}

/// The eight 16-bit groups of a 16-byte address.
pub open spec fn groups(b: Seq<u8>) -> Seq<u16> {
    Seq::new(8, |k: int| (256 * b[2 * k] as int + b[2 * k + 1] as int) as u16)
}

/// Groups in lower-case hex, separated by colons.
pub open spec fn hex_groups(s: Seq<u16>) -> Seq<char>
    decreases s.len(),
{
    if s.len() == 0 {
        Seq::empty()
    } else if s.len() == 1 {
        lower_hex_text(s[0] as nat)
    } else {
        hex_groups(s.drop_last()).push(':') + lower_hex_text(s.last() as nat)
    }
}

/// Zero runs over the first `n` groups: the current run (start, length)
/// and the first longest one (start, length).
pub open spec fn zero_runs(s: Seq<u16>, n: int) -> (int, int, int, int)
    decreases n,
{
    if n <= 0 {
        (0, 0, 0, 0)
    } else {
        let (cs, cl, bs, bl) = zero_runs(s, n - 1);
        let i = n - 1;
        if s[i] == 0 {
            let start = if cl == 0 { i } else { cs };
            if cl + 1 > bl {
                (start, cl + 1, start, cl + 1)
            } else {
                (start, cl + 1, bs, bl)
            }
        } else {
            (0, 0, bs, bl)
        }
    }
}

/// An IPv4-mapped address: five zero groups, then `ffff`.
pub open spec fn is_v4_mapped(s: Seq<u16>) -> bool {
    s[0] == 0 && s[1] == 0 && s[2] == 0 && s[3] == 0 && s[4] == 0 && s[5] == 0xffff
}

/// The text of a 16-byte IPv6 address.
pub open spec fn ipv6_text(b: Seq<u8>) -> Seq<char> {
    let s = groups(b);
    if is_v4_mapped(s) {
        seq![':', ':', 'f', 'f', 'f', 'f', ':'] + ipv4_text(b.subrange(12, 16))
    } else {
        let (cs, cl, bs, bl) = zero_runs(s, 8);
        if bl > 1 {
            hex_groups(s.subrange(0, bs)) + seq![':', ':'] + hex_groups(s.subrange(bs + bl, 8))
        } else {
            hex_groups(s)
        }
    }
}

fn push_ipv4(s: &mut String, b: &[u8], at: usize)
    requires
        at + 4 <= b@.len(),
    ensures
        final(s)@ == old(s)@ + ipv4_text(b@.subrange(at as int, at + 4)),
{
    let ghost q = b@.subrange(at as int, at + 4);
    push_dec_byte(s, b[at]);
    push_char(s, '.');
    push_dec_byte(s, b[at + 1]);
    push_char(s, '.');
    push_dec_byte(s, b[at + 2]);
    push_char(s, '.');
    push_dec_byte(s, b[at + 3]);
    assert(final(s)@ =~= old(s)@ + ipv4_text(q));
}

/// The dotted-decimal text of the four bytes at `at`.
pub fn ipv4_string(b: &[u8], at: usize) -> (r: String)
    requires
        at + 4 <= b@.len(),
    ensures
        r@ == ipv4_text(b@.subrange(at as int, at + 4)),
{
    let mut s = String::new();
    push_ipv4(&mut s, b, at);
    s
}

/// Appends the groups `from..to` in hex, separated by colons.
fn push_groups(s: &mut String, g: &Vec<u16>, from: usize, to: usize)
    requires
        from <= to <= g@.len(),
    ensures
        final(s)@ == old(s)@ + hex_groups(g@.subrange(from as int, to as int)),
{
    let mut i: usize = from;
    while i < to
        invariant
            from <= i <= to <= g@.len(),
            s@ == old(s)@ + hex_groups(g@.subrange(from as int, i as int)),
        decreases to - i,
    {
        let ghost before = s@;
        let ghost t = g@.subrange(from as int, i + 1);
        assert(t.drop_last() =~= g@.subrange(from as int, i as int));
        if i > from {
            push_char(s, ':');
        }
        push_lower_hex(s, g[i]);
        assert(s@ =~= old(s)@ + hex_groups(t));
        i = i + 1;
    }
}

/// The text of the sixteen bytes at `at` as an IPv6 address.
pub fn ipv6_string(b: &[u8], at: usize) -> (r: String)
    requires
        at + 16 <= b@.len(),
    ensures
        r@ == ipv6_text(b@.subrange(at as int, at + 16)),
{
    let ghost a = b@.subrange(at as int, at + 16);
    let n = b.len();
    let mut g: Vec<u16> = Vec::new();
    let mut k: usize = 0;
    while k < 8
        invariant
            k <= 8,
            at + 16 <= b@.len(),
            n == b@.len(),
            a == b@.subrange(at as int, at + 16),
            g@ == groups(a).subrange(0, k as int),
        decreases 8 - k,
    {
        let v: u16 = 256 * b[at + 2 * k] as u16 + b[at + 2 * k + 1] as u16;
        g.push(v);
        assert(g@ =~= groups(a).subrange(0, k + 1));
        k = k + 1;
    }
    assert(g@ =~= groups(a));
    let mut s = String::new();
    if g[0] == 0 && g[1] == 0 && g[2] == 0 && g[3] == 0 && g[4] == 0 && g[5] == 0xffff {
        push_char(&mut s, ':');
        push_char(&mut s, ':');
        push_char(&mut s, 'f');
        push_char(&mut s, 'f');
        push_char(&mut s, 'f');
        push_char(&mut s, 'f');
        push_char(&mut s, ':');
        push_ipv4(&mut s, b, at + 12);
        assert(b@.subrange(at + 12, at + 16) =~= a.subrange(12, 16));
        assert(s@ =~= ipv6_text(a));
        return s;
    }
    let mut cs: usize = 0;
    let mut cl: usize = 0;
    let mut bs: usize = 0;
    let mut bl: usize = 0;
    let mut i: usize = 0;
    while i < 8
        invariant
            i <= 8,
            g@ == groups(a),
            (cs as int, cl as int, bs as int, bl as int) == zero_runs(g@, i as int),
            cs + cl <= i,
            bs + bl <= i,
        decreases 8 - i,
    {
        if g[i] == 0 {
            if cl == 0 {
                cs = i;
            }
            cl = cl + 1;
            if cl > bl {
                bs = cs;
                bl = cl;
            }
        } else {
            cs = 0;
            cl = 0;
        }
        i = i + 1;
    }
    if bl > 1 {
        push_groups(&mut s, &g, 0, bs);
        push_char(&mut s, ':');
        push_char(&mut s, ':');
        push_groups(&mut s, &g, bs + bl, 8);
    } else {
        push_groups(&mut s, &g, 0, 8);
        assert(g@.subrange(0, 8) =~= g@);
    }
    assert(s@ =~= ipv6_text(a));
    s
}

} // verus!
