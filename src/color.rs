use vstd::prelude::*;
use vstd::utf8::encode_utf8;

verus! {

/// An RGB color with 8-bit channels.
#[derive(Clone, Copy, Debug, PartialEq, Eq, Structural)]
pub struct Color {
    pub r: u8,
    pub g: u8,
    pub b: u8,
}

/// Squared Euclidean distance between two colors, over the integers.
pub open spec fn dist_sq(a: Color, b: Color) -> int {
    let dr = a.r as int - b.r as int;
    let dg = a.g as int - b.g as int;
    let db = a.b as int - b.b as int;
    dr * dr + dg * dg + db * db
}

/// Squared Euclidean distance between the red, green and blue channels of `a` and `b`.
pub fn distance_sq(a: Color, b: Color) -> (r: u32)
    ensures
        r as int == dist_sq(a, b),
{
    let dr: i32 = a.r as i32 - b.r as i32;
    let dg: i32 = a.g as i32 - b.g as i32;
    let db: i32 = a.b as i32 - b.b as i32;
    assert(0 <= dr * dr <= 65025) by (nonlinear_arith)
        requires -255 <= dr <= 255;
    assert(0 <= dg * dg <= 65025) by (nonlinear_arith)
        requires -255 <= dg <= 255;
    assert(0 <= db * db <= 65025) by (nonlinear_arith)
        requires -255 <= db <= 255;
    (dr * dr + dg * dg + db * db) as u32
}


/// Why a color record could not be read.
#[derive(Clone, Copy, Debug, PartialEq, Eq, Structural)]
pub enum ColorError {
    /// The record ends before the last channel: it has `len` bytes, and `#RRGGBB` needs 7.
    OutOfRange { len: usize },
    /// The byte at `offset` is not a hexadecimal digit.
    InvalidDigit { offset: usize },
}

/// Number of bytes in a `#RRGGBB` record.
pub const RECORD_LEN: usize = 7;

/// The value of an ASCII hexadecimal digit, either case.
pub open spec fn hex_val(c: u8) -> Option<u8> {
    if 48 <= c <= 57 {
        Some((c - 48) as u8)
    } else if 65 <= c <= 70 {
        Some((c - 55) as u8)
    } else if 97 <= c <= 102 {
        Some((c - 87) as u8)
    } else {
        None
    }
}

/// The first offset in `from .. to` whose byte is not a hexadecimal digit.
pub open spec fn first_non_hex(b: Seq<u8>, from: int, to: int) -> Option<int>
    decreases to - from,
{
    if from >= to {
        None
    } else if hex_val(b[from]) is None {
        Some(from)
    } else {
        first_non_hex(b, from + 1, to)
    }
}

/// The channel written by the two hexadecimal digits at `at` and `at + 1`.
pub open spec fn channel_at(b: Seq<u8>, at: int) -> u8 {
    (hex_val(b[at])->0 * 16 + hex_val(b[at + 1])->0) as u8
}

/// What a record reads as: the digits after the first byte, at fixed offsets.
pub open spec fn record_color(b: Seq<u8>) -> Result<Color, ColorError> {
    if b.len() < 7 {
        Err(ColorError::OutOfRange { len: b.len() as usize })
    } else if first_non_hex(b, 1, 7) is Some {
        Err(ColorError::InvalidDigit { offset: first_non_hex(b, 1, 7)->0 as usize })
    } else {
        Ok(Color { r: channel_at(b, 1), g: channel_at(b, 3), b: channel_at(b, 5) })
    }
}

/// The value of a hexadecimal digit, or `None` for any other byte.
pub fn hex_digit(c: u8) -> (r: Option<u8>)
    ensures
        r == hex_val(c),
{
    if 48 <= c && c <= 57 {
        Some(c - 48)
    } else if 65 <= c && c <= 70 {
        Some(c - 55)
    } else if 97 <= c && c <= 102 {
        Some(c - 87)
    } else {
        None
    }
}

proof fn lemma_first_non_hex_none(b: Seq<u8>, from: int, to: int, k: int)
    requires
        first_non_hex(b, from, to) is None,
        from <= k < to,
    ensures
        hex_val(b[k]) is Some,
    decreases to - from,
{
    if from < k {
        lemma_first_non_hex_none(b, from + 1, to, k);
    }
}

/// Reads a `#RRGGBB` record: the byte at offset 0 is skipped, and the three
/// pairs of hexadecimal digits after it give red, green and blue. Bytes after
/// the seventh are not read.
pub fn from_str(hex_code: &str) -> (r: Result<Color, ColorError>)
    ensures
        r == record_color(encode_utf8(hex_code@)),
{
    let b = hex_code.as_bytes();
    let ghost bs = encode_utf8(hex_code@);
    assert(b@ == bs);
    if b.len() < RECORD_LEN {
        return Err(ColorError::OutOfRange { len: b.len() });
    }
    let mut i: usize = 1;
    while i < RECORD_LEN
        invariant
            1 <= i <= 7,
            b@ == bs,
            bs == encode_utf8(hex_code@),
            bs.len() >= 7,
            first_non_hex(bs, 1, 7) == first_non_hex(bs, i as int, 7),
        decreases 7 - i,
    {
        if hex_digit(b[i]).is_none() {
            assert(first_non_hex(bs, i as int, 7) == Some(i as int));
            return Err(ColorError::InvalidDigit { offset: i });
        }
        i = i + 1;
    }
    proof {
        lemma_first_non_hex_none(bs, 1, 7, 1);
        lemma_first_non_hex_none(bs, 1, 7, 2);
        lemma_first_non_hex_none(bs, 1, 7, 3);
        lemma_first_non_hex_none(bs, 1, 7, 4);
        lemma_first_non_hex_none(bs, 1, 7, 5);
        lemma_first_non_hex_none(bs, 1, 7, 6);
    }
    let r = pair(b[1], b[2]);
    let g = pair(b[3], b[4]);
    let bl = pair(b[5], b[6]);
    Ok(Color { r, g, b: bl })
}

/// The byte written by the hexadecimal digits `hi` and `lo`.
fn pair(hi: u8, lo: u8) -> (r: u8)
    requires
        hex_val(hi) is Some,
        hex_val(lo) is Some,
    ensures
        r == (hex_val(hi)->0 * 16 + hex_val(lo)->0) as u8,
{
    let h = hex_digit(hi).unwrap();
    let l = hex_digit(lo).unwrap();
    h * 16 + l
}

} // verus!
