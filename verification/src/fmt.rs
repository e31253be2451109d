//! Plain-text rendering of values the program echoes: stop sequences as
//! comma-separated lowercase hex triples, and decimal digits for timestamp
//! file names.  Everything works on ASCII bytes.

use vstd::prelude::*;

use crate::color::Rgb8;

verus! {

/// The lowercase hex digit for `n` in `[0, 16)`.
pub open spec fn spec_hex_digit(n: int) -> u8 {
    if n < 10 {
        (48 + n) as u8
    } else {
        (87 + n) as u8
    }
}

/// The two lowercase hex digits of one byte, high nibble first.
pub open spec fn spec_byte_hex(b: int) -> Seq<u8> {
    seq![spec_hex_digit(b / 16), spec_hex_digit(b % 16)]
}

/// The six-digit lowercase hex triple of one color, `rrggbb`.
pub open spec fn spec_color_hex(c: Rgb8) -> Seq<u8> {
    spec_byte_hex(c.red as int) + spec_byte_hex(c.green as int) + spec_byte_hex(c.blue as int)
}

/// The leading colors of an echoed line: each hex triple followed by a
/// comma.
pub open spec fn spec_hex_body(cs: Seq<Rgb8>) -> Seq<u8>
    decreases cs.len(),
{
    if cs.len() == 0 {
        Seq::empty()
    } else {
        spec_hex_body(cs.drop_last()) + spec_color_hex(cs.last()) + seq![44u8]
    }
}

/// A full echoed line: the hex triples comma-separated, the last followed
/// by a newline instead, and nothing at all for an empty sequence.
pub open spec fn spec_hex_line(cs: Seq<Rgb8>) -> Seq<u8> {
    if cs.len() == 0 {
        Seq::empty()
    } else {
        spec_hex_body(cs.drop_last()) + spec_color_hex(cs.last()) + seq![10u8]
    }
}

/// The decimal digits of a nonnegative number, most significant first.
pub open spec fn spec_decimal(n: nat) -> Seq<u8>
    decreases n,
{
    if n < 10 {
        seq![(48 + n) as u8]
    } else {
        spec_decimal(n / 10) + seq![(48 + n % 10) as u8]
    }
}

/// A millisecond count zero-padded to exactly three decimal digits.
pub open spec fn spec_millis(m: int) -> Seq<u8> {
    seq![(48 + m / 100) as u8, (48 + (m / 10) % 10) as u8, (48 + m % 10) as u8]
}

/// Appends the two lowercase hex digits of `b`.
fn push_byte_hex(out: &mut Vec<u8>, b: u8)
    ensures
        final(out)@ == old(out)@ + spec_byte_hex(b as int),
{
    let hi: u8 = b / 16;
    let lo: u8 = b % 16;
    let hi_digit: u8 = if hi < 10 {
        48 + hi
    } else {
        87 + hi
    };
    let lo_digit: u8 = if lo < 10 {
        48 + lo
    } else {
        87 + lo
    };
    out.push(hi_digit);
    out.push(lo_digit);
    assert(out@ =~= old(out)@ + spec_byte_hex(b as int));
}

/// Appends the six-digit hex triple of one color.
fn push_color_hex(out: &mut Vec<u8>, c: Rgb8)
    ensures
        final(out)@ == old(out)@ + spec_color_hex(c),
{
    push_byte_hex(out, c.red);
    push_byte_hex(out, c.green);
    push_byte_hex(out, c.blue);
    assert(out@ =~= old(out)@ + spec_color_hex(c));
}

/// Renders a stop sequence the way it is echoed to the console: lowercase
/// hex triples, comma-separated, the line closed by a newline; an empty
/// sequence renders as nothing.
pub fn hex_line(colors: &Vec<Rgb8>) -> (out: Vec<u8>)
    ensures
        out@ == spec_hex_line(colors@),
{
    let mut out: Vec<u8> = Vec::new();
    let n = colors.len();
    if n == 0 {
        return out;
    }
    for i in 0..n - 1
        invariant
            n == colors@.len(),
            1 <= n,
            out@ == spec_hex_body(colors@.take(i as int)),
    {
        push_color_hex(&mut out, colors[i]);
        out.push(44);
        proof {
            assert(colors@.take(i + 1).drop_last() =~= colors@.take(i as int));
            assert(colors@.take(i + 1).last() == colors@[i as int]);
            assert(out@ =~= spec_hex_body(colors@.take(i + 1)));
        }
    }
    push_color_hex(&mut out, colors[n - 1]);
    out.push(10);
    proof {
        assert(colors@.take(n - 1) =~= colors@.drop_last());
        assert(out@ =~= spec_hex_line(colors@));
    }
    out
}

/// Appends the decimal digits of `n`, most significant first.
pub fn push_decimal(out: &mut Vec<u8>, n: u64)
    ensures
        final(out)@ == old(out)@ + spec_decimal(n as nat),
    decreases n,
{
    if n < 10 {
        out.push(48 + n as u8);
        assert(out@ =~= old(out)@ + spec_decimal(n as nat));
    } else {
        push_decimal(out, n / 10);
        out.push(48 + (n % 10) as u8);
        assert(out@ =~= old(out)@ + spec_decimal(n as nat));
    }
}

/// Appends a millisecond count zero-padded to three digits.
pub fn push_millis(out: &mut Vec<u8>, m: u32)
    requires
        m < 1000,
    ensures
        final(out)@ == old(out)@ + spec_millis(m as int),
{
    out.push(48 + (m / 100) as u8);
    out.push(48 + ((m / 10) % 10) as u8);
    out.push(48 + (m % 10) as u8);
    assert(out@ =~= old(out)@ + spec_millis(m as int));
}

} // verus!
