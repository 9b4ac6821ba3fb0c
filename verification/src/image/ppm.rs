//! Framing of a pixel buffer as a binary portable pixmap: a short text header
//! followed by the raw bytes.

use vstd::prelude::*;

verus! {

/// Largest value of a colour channel.
pub const MAX_PIXEL_VALUE: u16 = 255;

/// The decimal digits of `n` in ASCII, most significant first, without
/// leading zeros.
pub open spec fn decimal(n: nat) -> Seq<u8>
    decreases n,
{
    if n < 10 {
        seq![(48 + n) as u8]
    } else {
        decimal(n / 10).push((48 + n % 10) as u8)
    }
}

/// The header of a pixmap of the given size: the magic token of the binary
/// format, a capital P and the digit 6, then a line with the width and the
/// height, and a line with the largest channel value.
pub open spec fn header(width: u32, height: u32) -> Seq<u8> {
    seq![80u8, 54u8, 10u8] + decimal(width as nat) + seq![32u8] + decimal(height as nat)
        + seq![10u8] + decimal(MAX_PIXEL_VALUE as nat) + seq![10u8]
}

/// Appends the decimal digits of `n` to `out`.
fn push_decimal(out: &mut Vec<u8>, n: u32)
    ensures
        final(out)@ == old(out)@ + decimal(n as nat),
    decreases n,
{
    if n >= 10 {
        push_decimal(out, n / 10);
    }
    let digit: u8 = (n % 10) as u8;
    out.push(48 + digit);
    assert(out@ =~= old(out)@ + decimal(n as nat));
}

/// Appends to `writer` the pixmap of `pixels`, an image of `width` by
/// `height` pixels of three bytes each: the header, then the bytes as they
/// are.
pub fn write(writer: &mut Vec<u8>, pixels: &[u8], width: u32, height: u32)
    requires
        width * height * 3 <= u32::MAX,
        pixels@.len() == width * height * 3,
    ensures
        final(writer)@ == old(writer)@ + header(width, height) + pixels@,
{
    writer.push(80);
    writer.push(54);
    writer.push(10);
    push_decimal(writer, width);
    writer.push(32);
    push_decimal(writer, height);
    writer.push(10);
    push_decimal(writer, MAX_PIXEL_VALUE as u32);
    writer.push(10);
    writer.extend_from_slice(pixels);
    assert(writer@ =~= old(writer)@ + header(width, height) + pixels@);
}

} // verus!
