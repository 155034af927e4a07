//! The 256-entry colour table that turns palette indices into RGB colours,
//! decoded from a 768-byte palette resource.

use vstd::prelude::*;

use crate::packfile::{PackError, PackResult};

verus! {

/// One palette colour. The fourth byte only pads the entry to 4 bytes and
/// is always zero.
#[derive(Debug, Clone, Copy, PartialEq, Eq, Structural)]
pub struct Color {
    pub r: u8,
    pub g: u8,
    pub b: u8,
    pub reserved: u8,
}

impl Color {
    pub fn new(r: u8, g: u8, b: u8) -> (c: Color)
        ensures
            c == (Color { r, g, b, reserved: 0u8 }),
    {
        Color { r, g, b, reserved: 0 }
    }
}

/// The colour a palette image's bytes give to index `i`: the `i`-th
/// consecutive 3-byte triple, read in source order as red, green, blue.
pub open spec fn spec_palette_color(bytes: Seq<u8>, i: int) -> Color {
    Color { r: bytes[3 * i], g: bytes[3 * i + 1], b: bytes[3 * i + 2], reserved: 0u8 }
}

/// A fixed table of exactly 256 colours, indexed by the 8-bit values of an
/// indexed pixel plane. Immutable after construction.
///
/// The stored triples are taken as red, green, blue in source order; the
/// reference palette's index 0 is black and its low greys hold three equal
/// bytes, on which the two conceivable orders agree.
pub struct Palette {
    colors: Vec<Color>,
}

impl Palette {
    #[verifier::type_invariant]
    spec fn inv(self) -> bool {
        self.colors@.len() == 256
    }

    /// The colour stored for index `i`.
    pub closed spec fn spec_color(self, i: int) -> Color {
        self.colors@[i]
    }

    /// Decodes a palette from a resource's bytes, which must be exactly
    /// 768 bytes: 256 triples of red, green and blue. Any other length
    /// fails with `FormatError`.
    pub fn new(bytes: &[u8]) -> (r: PackResult<Palette>)
        ensures
            r is Ok <==> bytes@.len() == 768,
            r matches Ok(p) ==> forall|i: int| 0 <= i < 256 ==> p.spec_color(i)
                == spec_palette_color(bytes@, i),
            r matches Err(e) ==> e == PackError::FormatError,
    {
        if bytes.len() != 768 {
            return Err(PackError::FormatError);
        }
        let mut colors: Vec<Color> = Vec::new();
        let mut i: usize = 0;
        while i < 256
            invariant
                i <= 256,
                bytes@.len() == 768,
                colors@.len() == i,
                forall|k: int| 0 <= k < i ==> colors@[k] == spec_palette_color(bytes@, k),
            decreases 256 - i,
        {
            colors.push(Color::new(bytes[3 * i], bytes[3 * i + 1], bytes[3 * i + 2]));
            i += 1;
        }
        Ok(Palette { colors })
    }

    /// The colour for palette index `c`. Every 8-bit index is in range, so
    /// a lookup cannot fail.
    pub fn get(&self, c: u8) -> (col: Color)
        ensures
            col == self.spec_color(c as int),
    {
        proof {
            use_type_invariant(self);
        }
        self.colors[c as usize]
    }
}

} // verus!
