//! Display colours, held as one 24-bit integer per colour.

use vstd::prelude::*;

verus! {

/// The integer that holds the channels `(r, g, b)`: red in bits 16..24,
/// green in bits 8..16, blue in bits 0..8.
pub open spec fn packed(color: (u8, u8, u8)) -> int {
    color.0 as int * 65536 + color.1 as int * 256 + color.2 as int
}

/// The channels read out of the low 24 bits of `color`; the bits above
/// them are ignored.
pub open spec fn unpacked(color: int) -> (u8, u8, u8) {
    (((color / 65536) % 256) as u8, ((color / 256) % 256) as u8, (color % 256) as u8)
}

/// Packs three 8-bit channels into one integer.
pub fn pack(color: (u8, u8, u8)) -> (p: i32)
    ensures
        p as int == packed(color),
        0 <= p < 0x100_0000,
{
    let r: u8 = color.0;
    let g: u8 = color.1;
    let b: u8 = color.2;
    assert((((r as i32) << 16) | ((g as i32) << 8) | (b as i32)) == r as i32 * 65536 + g as i32
        * 256 + b as i32) by (bit_vector);
    ((r as i32) << 16) | ((g as i32) << 8) | (b as i32)
}

/// Reads the three channels back out of a packed colour.
pub fn unpack(color: i32) -> (rgb: (u8, u8, u8))
    ensures
        rgb == unpacked(color as int),
{
    assert((((color >> 16) & 0xFF) as u8) as int == ((color as int) / 65536) % 256) by (bit_vector);
    assert((((color >> 8) & 0xFF) as u8) as int == ((color as int) / 256) % 256) by (bit_vector);
    assert(((color & 0xFF) as u8) as int == (color as int) % 256) by (bit_vector);
    (((color >> 16) & 0xFF) as u8, ((color >> 8) & 0xFF) as u8, (color & 0xFF) as u8)
}

/// Unpacking what was packed gives the channels back.
pub proof fn lemma_unpack_pack(color: (u8, u8, u8))
    ensures
        unpacked(packed(color)) == color,
{
    let r = color.0 as int;
    let g = color.1 as int;
    let b = color.2 as int;
    assert((r * 65536 + g * 256 + b) / 65536 == r);
    assert((r * 65536 + g * 256 + b) / 256 == r * 256 + g);
    assert((r * 256 + g) % 256 == g);
    assert((r * 65536 + g * 256 + b) % 256 == b);
}

/// Packing what was unpacked gives the low 24 bits back.
pub proof fn lemma_pack_unpack(color: int)
    ensures
        packed(unpacked(color)) == color % 0x100_0000,
{
    let r = (color / 65536) % 256;
    let g = (color / 256) % 256;
    let b = color % 256;
    assert(r * 65536 + g * 256 + b == color % 0x100_0000) by (nonlinear_arith)
        requires
            r == (color / 65536) % 256,
            g == (color / 256) % 256,
            b == color % 256,
    ;
}

} // verus!
