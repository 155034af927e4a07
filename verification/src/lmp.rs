//! Decoding of LMP bitmap resources: an 8-byte header holding an unsigned
//! 32-bit little-endian width and height, then `width * height` single-byte
//! palette indices in row-major order.

use vstd::prelude::*;

use crate::bytes::{le_u32_at, spec_le_u32};
use crate::packfile::{PackError, PackResult};

verus! {

/// A decoded indexed-colour image: its dimensions and one palette index per
/// pixel, row by row (`y * width + x`).
pub struct LmpImage {
    width: u32,
    height: u32,
    data: Vec<u8>,
}

impl LmpImage {
    #[verifier::type_invariant]
    spec fn inv(self) -> bool {
        self.data@.len() == self.width * self.height
    }

    pub closed spec fn spec_width(self) -> u32 {
        self.width
    }

    pub closed spec fn spec_height(self) -> u32 {
        self.height
    }

    /// The pixel plane: palette indices in row-major order.
    pub closed spec fn spec_data(self) -> Seq<u8> {
        self.data@
    }

    /// The palette index at `(x, y)`.
    pub open spec fn spec_pixel(self, x: int, y: int) -> u8 {
        self.spec_data()[y * self.spec_width() + x]
    }

    /// Decodes an image from a resource's bytes: width and height out of
    /// the first 8 bytes, then exactly `width * height` index bytes.
    /// Fails with `FormatError` when the byte count does not match.
    pub fn from_bytes(bytes: &[u8]) -> (r: PackResult<LmpImage>)
        ensures
            r is Ok <==> bytes@.len() >= 8 && bytes@.len() - 8 == spec_le_u32(bytes@, 0)
                * spec_le_u32(bytes@, 4),
            r matches Ok(img) ==> {
                &&& img.spec_width() == spec_le_u32(bytes@, 0)
                &&& img.spec_height() == spec_le_u32(bytes@, 4)
                &&& img.spec_data() == bytes@.skip(8)
            },
            r matches Err(e) ==> e == PackError::FormatError,
    {
        if bytes.len() < 8 {
            return Err(PackError::FormatError);
        }
        let width = le_u32_at(bytes, 0);
        let height = le_u32_at(bytes, 4);
        proof {
            assert((width as int) * (height as int) <= 0xffff_ffffu64 * 0xffff_ffffu64)
                by (nonlinear_arith)
                requires
                    0 <= width as int <= 0xffff_ffffu64,
                    0 <= height as int <= 0xffff_ffffu64,
            ;
        }
        let expected = (width as u64) * (height as u64);
        if (bytes.len() - 8) as u64 != expected {
            return Err(PackError::FormatError);
        }
        let data = vstd::slice::slice_to_vec(vstd::slice::slice_subrange(bytes, 8, bytes.len()));
        proof {
            assert(data@ =~= bytes@.skip(8));
        }
        Ok(LmpImage { width, height, data })
    }

    /// The palette index at `(x, y)`. Coordinates must lie inside the
    /// image; there is no bounds check beyond this contract.
    pub fn get(&self, x: u32, y: u32) -> (p: u8)
        requires
            x < self.spec_width(),
            y < self.spec_height(),
        ensures
            p == self.spec_pixel(x as int, y as int),
    {
        proof {
            use_type_invariant(self);
        }
        let len = self.data.len();
        proof {
            let w = self.width as int;
            let h = self.height as int;
            assert((y as int) * w + (x as int) < w * h) by (nonlinear_arith)
                requires
                    (y as int) < h,
                    (x as int) < w,
                    0 <= x as int,
                    0 <= y as int,
            ;
            assert(w * h == len);
        }
        let i = (y as u64) * (self.width as u64) + (x as u64);
        self.data[i as usize]
    }

    pub fn width(&self) -> (w: u32)
        ensures
            w == self.spec_width(),
    {
        self.width
    }

    pub fn height(&self) -> (h: u32)
        ensures
            h == self.spec_height(),
    {
        self.height
    }

    /// The raw pixel plane, row-major.
    pub fn pixels(&self) -> (p: &[u8])
        ensures
            p@ == self.spec_data(),
    {
        self.data.as_slice()
    }
}

} // verus!
