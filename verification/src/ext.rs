//! Scaling the one-bit framebuffer into the 32-bit color buffer that the
//! display sink consumes: each pixel becomes an 8x8 block of one color.

use vstd::prelude::*;

use vstd::arithmetic::div_mod::lemma_fundamental_div_mod_converse;

verus! {

/// Conversion of a pixel value into a 32-bit ARGB color.
pub trait ToARGB {
    /// The color this value stands for.
    spec fn argb_spec(&self) -> u32;

    /// Convert to an ARGB color.
    fn to_argb(&self) -> (c: u32)
        ensures
            c == self.argb_spec(),
    ;
}

impl ToARGB for u8 {
    /// A lit pixel is white; everything else is black.
    open spec fn argb_spec(&self) -> u32 {
        if *self == 1 {
            0xffff_ffffu32
        } else {
            0u32
        }
    }

    #[inline]
    fn to_argb(&self) -> (c: u32) {
        if *self == 1 {
            u32::MAX
        } else {
            0u32
        }
    }
}

/// The color of the scaled cell at column `sx`, row `sy`: the color of the
/// framebuffer pixel whose 8x8 block it falls in.
pub open spec fn scaled_pix(db: Seq<u8>, sx: int, sy: int) -> u32 {
    db[(sy / 8) * 64 + sx / 8].argb_spec()
}

/// Scale the 64x32 framebuffer eightfold into a 512x256 row-major color
/// buffer for the display sink.
pub fn scale_d_buffer(d_buffer: &Vec<u8>, scaled_buffer: &mut Vec<u32>)
    requires
        d_buffer@.len() == 2048,
        old(scaled_buffer)@.len() == 131072,
    ensures
        final(scaled_buffer)@.len() == 131072,
        forall|sx: int, sy: int|
            0 <= sx < 512 && 0 <= sy < 256 ==> final(scaled_buffer)@[sy * 512 + sx] == scaled_pix(
                d_buffer@,
                sx,
                sy,
            ),
{
    let mut si: usize = 0;
    while si < 131072
        invariant
            si <= 131072,
            d_buffer@.len() == 2048,
            scaled_buffer@.len() == 131072,
            forall|j: int|
                0 <= j < si ==> #[trigger] scaled_buffer@[j] == scaled_pix(
                    d_buffer@,
                    j % 512,
                    j / 512,
                ),
        decreases 131072 - si,
    {
        let sy = si / 512;
        let sx = si % 512;
        let v = d_buffer[(sy / 8) * 64 + sx / 8];
        scaled_buffer[si] = v.to_argb();
        si += 1;
    }
    proof {
        assert forall|sx: int, sy: int| 0 <= sx < 512 && 0 <= sy < 256 implies scaled_buffer@[sy
            * 512 + sx] == scaled_pix(d_buffer@, sx, sy) by {
            lemma_fundamental_div_mod_converse(sy * 512 + sx, 512, sy, sx);
        }
    }
}

} // verus!
