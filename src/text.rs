//! Textual renderings of bytes and small integers: upper-case hex, decimal,
//! colon-separated hardware addresses.

use vstd::prelude::*;

verus! {

/// The upper-case hexadecimal digit for a value below sixteen.
pub open spec fn hex_digit(n: nat) -> char {
    if n < 10 {
        ((n + 48) as u8) as char
    } else {
        ((n + 55) as u8) as char
    }
}

/// The lower-case hexadecimal digit for a value below sixteen.
pub open spec fn lower_hex_digit(n: nat) -> char {
    if n < 10 {
        ((n + 48) as u8) as char
    } else {
        ((n + 87) as u8) as char
    }
}

/// The decimal digit for a value below ten.
pub open spec fn dec_digit(n: nat) -> char {
    ((n + 48) as u8) as char
}

/// A byte as two upper-case hexadecimal digits.
pub open spec fn hex_byte(b: u8) -> Seq<char> {
    seq![hex_digit(b as nat / 16), hex_digit(b as nat % 16)]
}

/// A 16-bit value as four upper-case hexadecimal digits.
pub open spec fn hex_word(w: u16) -> Seq<char> {
    seq![
        hex_digit(w as nat / 4096),
        hex_digit(w as nat / 256 % 16),
        hex_digit(w as nat / 16 % 16),
        hex_digit(w as nat % 16),
    ]
}

/// A number in decimal, without leading zeros.
pub open spec fn dec_text(n: nat) -> Seq<char>
    decreases n,
{
    if n < 10 {
        seq![dec_digit(n)]
    } else {
        dec_text(n / 10).push(dec_digit(n % 10))
    }
}

/// A number in lower-case hexadecimal, without leading zeros.
pub open spec fn lower_hex_text(n: nat) -> Seq<char>
    decreases n,
{
    if n < 16 {
        seq![lower_hex_digit(n)]
    } else {
        lower_hex_text(n / 16).push(lower_hex_digit(n % 16))
    }
}

/// Bytes as upper-case hex pairs separated by colons (`00:1A:2B`).
pub open spec fn mac_text(b: Seq<u8>) -> Seq<char>
    decreases b.len(),
{
    if b.len() == 0 {
        Seq::empty()
    } else if b.len() == 1 {
        hex_byte(b[0])
    } else {
        mac_text(b.drop_last()).push(':') + hex_byte(b.last())
    }
}

/// Relies on `String::push`: appends one character at the end.
#[verifier::external_body]
pub(crate) fn push_char(s: &mut String, c: char)
    ensures
        final(s)@ == old(s)@.push(c),
{
    s.push(c)
}

fn hex_char(n: u8) -> (c: char)
    requires
        n < 16,
    ensures
        c == hex_digit(n as nat),
{
    if n < 10 {
        (n + 48) as char
    } else {
        (n + 55) as char
    }
}

fn lower_hex_char(n: u16) -> (c: char)
    requires
        n < 16,
    ensures
        c == lower_hex_digit(n as nat),
{
    let b: u8 = n as u8;
    if b < 10 {
        (b + 48) as char
    } else {
        (b + 87) as char
    }
}

fn dec_char(n: u8) -> (c: char)
    requires
        n < 10,
    ensures
        c == dec_digit(n as nat),
{
    (n + 48) as char
}

/// Appends the two hex digits of a byte.
pub(crate) fn push_hex_byte(s: &mut String, b: u8)
    ensures
        final(s)@ == old(s)@ + hex_byte(b),
{
    push_char(s, hex_char(b / 16));
    push_char(s, hex_char(b % 16));
    assert(final(s)@ =~= old(s)@ + hex_byte(b));
}

/// Appends the four hex digits of a 16-bit value.
pub(crate) fn push_hex_word(s: &mut String, w: u16)
    ensures
        final(s)@ == old(s)@ + hex_word(w),
{
    push_char(s, hex_char((w / 4096) as u8));
    push_char(s, hex_char((w / 256 % 16) as u8));
    push_char(s, hex_char((w / 16 % 16) as u8));
    push_char(s, hex_char((w % 16) as u8));
    assert(final(s)@ =~= old(s)@ + hex_word(w));
}

/// Appends a byte in decimal.
pub(crate) fn push_dec_byte(s: &mut String, n: u8)
    ensures
        final(s)@ == old(s)@ + dec_text(n as nat),
{
    proof {
        reveal_with_fuel(dec_text, 3);
    }
    if n >= 100 {
        push_char(s, dec_char(n / 100));
    }
    if n >= 10 {
        push_char(s, dec_char(n / 10 % 10));
    }
    push_char(s, dec_char(n % 10));
    assert(final(s)@ =~= old(s)@ + dec_text(n as nat));
}

/// Appends a 16-bit value in lower-case hex without leading zeros.
pub(crate) fn push_lower_hex(s: &mut String, w: u16)
    ensures
        final(s)@ == old(s)@ + lower_hex_text(w as nat),
{
    proof {
        reveal_with_fuel(lower_hex_text, 4);
    }
    if w >= 4096 {
        push_char(s, lower_hex_char(w / 4096));
    }
    if w >= 256 {
        push_char(s, lower_hex_char(w / 256 % 16));
    }
    if w >= 16 {
        push_char(s, lower_hex_char(w / 16 % 16));
    }
    push_char(s, lower_hex_char(w % 16));
    assert(final(s)@ =~= old(s)@ + lower_hex_text(w as nat));
}

/// Renders bytes as colon-separated upper-case hex pairs.
pub fn parse_mac_address(bytes: &[u8]) -> (r: String)
    ensures
        r@ == mac_text(bytes@),
{
    let mut s = String::new();
    let mut i: usize = 0;
    while i < bytes.len()
        invariant
            i <= bytes@.len(),
            s@ == mac_text(bytes@.subrange(0, i as int)),
        decreases bytes@.len() - i,
    {
        if i > 0 {
            push_char(&mut s, ':');
        }
        push_hex_byte(&mut s, bytes[i]);
        proof {
            let t = bytes@.subrange(0, i + 1);
            assert(t.drop_last() =~= bytes@.subrange(0, i as int));
            assert(s@ =~= mac_text(t));
        }
        i = i + 1;
    }
    assert(bytes@.subrange(0, bytes@.len() as int) =~= bytes@);
    s
}

} // verus!
