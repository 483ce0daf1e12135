use vstd::prelude::*;

use crate::endian::{be16, u16_at};
use crate::error::DecodeError;

verus! {

/// A colour with eight bits for each channel.
#[derive(Clone, Copy, Debug, PartialEq, Eq, Structural)]
pub struct Rgba {
    pub r: u8,
    pub g: u8,
    pub b: u8,
    pub a: u8,
}

/// A five-bit channel stretched to eight bits, rounded to the nearest value.
pub open spec fn channel8(channel5: int) -> int {
    (channel5 * 255 + 15) / 31
}

/// The colour that a packed 16-bit entry stands for. From the most
/// significant bit down, the entry holds five bits each of red, green and
/// blue, and one bit of alpha.
pub open spec fn unpacked(packed: u16) -> Rgba {
    Rgba {
        r: channel8(packed as int / 2048) as u8,
        g: channel8(packed as int / 64 % 32) as u8,
        b: channel8(packed as int / 2 % 32) as u8,
        a: ((packed as int % 2) * 255) as u8,
    }
}

/// The colours of the first `count` entries of a table of packed big-endian
/// 16-bit colours.
pub open spec fn unpacked_table(table: Seq<u8>, count: nat) -> Seq<Rgba> {
    Seq::new(count, |i: int| unpacked(be16(table, 2 * i) as u16))
}

impl Rgba {
    /// The colour of a pixel that nothing was drawn on.
    pub fn transparent() -> (c: Rgba)
        ensures
            c == (Rgba { r: 0, g: 0, b: 0, a: 0 }),
    {
        Rgba { r: 0, g: 0, b: 0, a: 0 }
    }

    /// Converts a packed 16-bit colour to eight bits per channel.
    pub fn from_packed(packed: u16) -> (c: Rgba)
        ensures
            c == unpacked(packed),
            c.r == channel8(packed as int / 2048),
            c.g == channel8(packed as int / 64 % 32),
            c.b == channel8(packed as int / 2 % 32),
            c.a == (packed as int % 2) * 255,
    {
        let red: u16 = (packed >> 11) & 0x1F;
        let green: u16 = (packed >> 6) & 0x1F;
        let blue: u16 = (packed >> 1) & 0x1F;
        let alpha: u16 = packed & 0x0001;
        assert(red == packed / 2048 && red < 32) by (bit_vector)
            requires
                red == (packed >> 11) & 0x1F,
        ;
        assert(green == packed / 64 % 32 && green < 32) by (bit_vector)
            requires
                green == (packed >> 6) & 0x1F,
        ;
        assert(blue == packed / 2 % 32 && blue < 32) by (bit_vector)
            requires
                blue == (packed >> 1) & 0x1F,
        ;
        assert(alpha == packed % 2 && alpha < 2) by (bit_vector)
            requires
                alpha == packed & 0x0001,
        ;
        let r = (red * 255 + 15) / 31;
        let g = (green * 255 + 15) / 31;
        let b = (blue * 255 + 15) / 31;
        let a = alpha * 255;
        Rgba { r: r as u8, g: g as u8, b: b as u8, a: a as u8 }
    }
}

/// Converts the first `count` entries of a table of packed colours, or
/// reports that the table is shorter than that.
pub fn unpack_colors(table: &[u8], count: usize) -> (r: Result<Vec<Rgba>, DecodeError>)
    ensures
        2 * count <= table@.len() ==> r is Ok && r->Ok_0@ == unpacked_table(table@, count as nat),
        2 * count > table@.len() ==> r == Err::<Vec<Rgba>, DecodeError>(DecodeError::Truncated),
{
    let len = table.len();
    if count > len / 2 {
        return Err(DecodeError::Truncated);
    }
    let mut colors: Vec<Rgba> = Vec::new();
    let mut i: usize = 0;
    while i < count
        invariant
            i <= count,
            2 * count <= table@.len(),
            len == table@.len(),
            colors@ == unpacked_table(table@, i as nat),
        decreases count - i,
    {
        let packed = u16_at(table, 2 * i)?;
        colors.push(Rgba::from_packed(packed));
        i = i + 1;
        assert(colors@ =~= unpacked_table(table@, i as nat));
    }
    Ok(colors)
}

} // verus!
