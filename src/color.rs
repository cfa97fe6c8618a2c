use vstd::prelude::*;

verus! {

/// The packed 24-bit encoding of three 8-bit channels: `0x00RRGGBB`.
pub open spec fn pack_spec(r: u8, g: u8, b: u8) -> u32 {
    (r as int * 0x10000 + g as int * 0x100 + b as int) as u32
}

/// The red channel of a packed value (bits 16 to 23).
pub open spec fn red_of(v: u32) -> u8 {
    ((v as int / 0x10000) % 256) as u8
}

/// The green channel of a packed value (bits 8 to 15).
pub open spec fn green_of(v: u32) -> u8 {
    ((v as int / 0x100) % 256) as u8
}

/// The blue channel of a packed value (bits 0 to 7).
pub open spec fn blue_of(v: u32) -> u8 {
    (v as int % 256) as u8
}

/// Saturating sum of two channels.
pub open spec fn sat_add(a: u8, b: u8) -> u8 {
    if a as int + b as int > 255 {
        255u8
    } else {
        (a + b) as u8
    }
}

/// An 8-bit-per-channel RGB color, as stored in the color buffer.
#[derive(Clone, Copy, Debug, PartialEq, Eq, Structural)]
pub struct Rgb8 {
    pub r: u8,
    pub g: u8,
    pub b: u8,
}

impl Rgb8 {
    /// The color with channels `r`, `g`, `b`.
    pub fn new(r: u8, g: u8, b: u8) -> (c: Rgb8)
        ensures
            c == (Rgb8 { r, g, b }),
    {
        Rgb8 { r, g, b }
    }

    /// Packs the color as `0x00RRGGBB`.
    pub fn to_u32(&self) -> (v: u32)
        ensures
            v == pack_spec(self.r, self.g, self.b),
            v < 0x100_0000,
    {
        let r = self.r;
        let g = self.g;
        let b = self.b;
        let v = ((r as u32) << 16u32) | ((g as u32) << 8u32) | (b as u32);
        assert(((r as u32) << 16u32) | ((g as u32) << 8u32) | (b as u32) == (r as u32) * 0x10000
            + (g as u32) * 0x100 + (b as u32)) by (bit_vector)
            requires
                r < 256,
                g < 256,
                b < 256,
        ;
        v
    }

    /// Unpacks `0x??RRGGBB`; the top byte is ignored.
    pub fn from_u32(v: u32) -> (c: Rgb8)
        ensures
            c.r == red_of(v),
            c.g == green_of(v),
            c.b == blue_of(v),
    {
        let r32 = (v >> 16u32) & 0xFFu32;
        let g32 = (v >> 8u32) & 0xFFu32;
        let b32 = v & 0xFFu32;
        assert((v >> 16u32) & 0xFFu32 == (v / 0x10000) % 256) by (bit_vector);
        assert((v >> 8u32) & 0xFFu32 == (v / 0x100) % 256) by (bit_vector);
        assert(v & 0xFFu32 == v % 256) by (bit_vector);
        Rgb8 { r: r32 as u8, g: g32 as u8, b: b32 as u8 }
    }

    /// Channel-wise saturating sum: each channel is `min(a + b, 255)`.
    pub fn blend_additive(self, other: Rgb8) -> (c: Rgb8)
        ensures
            c.r == sat_add(self.r, other.r),
            c.g == sat_add(self.g, other.g),
            c.b == sat_add(self.b, other.b),
    {
        Rgb8 {
            r: self.r.saturating_add(other.r),
            g: self.g.saturating_add(other.g),
            b: self.b.saturating_add(other.b),
        }
    }
}

/// Unpacking a packed color gives back the color.
pub proof fn lemma_unpack_pack(r: u8, g: u8, b: u8)
    ensures
        red_of(pack_spec(r, g, b)) == r,
        green_of(pack_spec(r, g, b)) == g,
        blue_of(pack_spec(r, g, b)) == b,
{
    let v = pack_spec(r, g, b);
    assert(v as int == r as int * 0x10000 + g as int * 0x100 + b as int);
    assert((r as int * 0x10000 + g as int * 0x100 + b as int) / 0x10000 == r as int) by (nonlinear_arith)
        requires r < 256, g < 256, b < 256;
    assert((r as int * 0x10000 + g as int * 0x100 + b as int) / 0x100 == r as int * 256 + g as int) by (nonlinear_arith)
        requires r < 256, g < 256, b < 256;
    assert((r as int * 256 + g as int) % 256 == g as int) by (nonlinear_arith)
        requires g < 256;
    assert((r as int * 0x10000 + g as int * 0x100 + b as int) % 256 == b as int) by (nonlinear_arith)
        requires r < 256, g < 256, b < 256;
    assert(v as int % 256 == b as int);
}

/// Packing the channels of a value gives back its low 24 bits.
pub proof fn lemma_pack_unpack(v: u32)
    ensures
        pack_spec(red_of(v), green_of(v), blue_of(v)) as int == v as int % 0x100_0000,
{
    let x = v as int;
    assert(((x / 0x10000) % 256) * 0x10000 + ((x / 0x100) % 256) * 0x100 + x % 256 == x % 0x100_0000) by (nonlinear_arith)
        requires x >= 0;
}

} // verus!
