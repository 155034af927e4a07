//! The software framebuffer: an indexed pixel plane of one palette index
//! per pixel, and the presentation plane of 4 bytes per pixel (red, green,
//! blue, reserved) that `swap_buffers` derives from it through the palette.

use vstd::prelude::*;

use crate::palette::{Color, Palette};

verus! {

/// The palette index that plane `p` of row width `w` holds at `(x, y)`.
pub open spec fn pixel_at(p: Seq<u8>, w: int, x: int, y: int) -> u8 {
    p[y * w + x]
}

/// How one `set` call changes the indexed plane, seen pixel by pixel: the
/// written pixel holds the new index and every other pixel of the plane is
/// untouched.
pub proof fn lemma_pixel_update(pre: Seq<u8>, post: Seq<u8>, w: int, h: int, x0: int, y0: int, c: u8)
    requires
        pre.len() == w * h,
        0 <= x0 < w,
        0 <= y0 < h,
        post == pre.update(y0 * w + x0, c),
    ensures
        post.len() == pre.len(),
        pixel_at(post, w, x0, y0) == c,
        forall|px: int, py: int|
            0 <= px < w && 0 <= py < h && !(px == x0 && py == y0) ==> pixel_at(post, w, px, py)
                == pixel_at(pre, w, px, py),
{
    assert(0 <= y0 * w + x0 < w * h) by (nonlinear_arith)
        requires
            0 <= x0 < w,
            0 <= y0 < h,
    ;
    assert forall|px: int, py: int|
        0 <= px < w && 0 <= py < h && !(px == x0 && py == y0) implies pixel_at(post, w, px, py)
        == pixel_at(pre, w, px, py) by {
        assert(0 <= py * w + px < w * h) by (nonlinear_arith)
            requires
                0 <= px < w,
                0 <= py < h,
        ;
        assert(py * w + px != y0 * w + x0) by (nonlinear_arith)
            requires
                0 <= px < w,
                0 <= x0 < w,
                !(px == x0 && py == y0),
        ;
    }
}

/// How one painting step extends a partly painted plane. When `pre` paints
/// region `painted` of a base plane with `value` and `post` is `pre` with
/// `value(x0, y0)` written at `(x0, y0)`, then `post` paints the region
/// grown by that pixel and still leaves the rest of the base untouched.
pub proof fn lemma_paint_step(
    pre: Seq<u8>,
    post: Seq<u8>,
    base: Seq<u8>,
    w: int,
    h: int,
    x0: int,
    y0: int,
    painted: spec_fn(int, int) -> bool,
    value: spec_fn(int, int) -> u8,
)
    requires
        pre.len() == w * h,
        0 <= x0 < w,
        0 <= y0 < h,
        post == pre.update(y0 * w + x0, value(x0, y0)),
        forall|px: int, py: int|
            0 <= px < w && 0 <= py < h ==> #[trigger] pixel_at(pre, w, px, py) == (if painted(
                px,
                py,
            ) {
                value(px, py)
            } else {
                pixel_at(base, w, px, py)
            }),
    ensures
        post.len() == pre.len(),
        forall|px: int, py: int|
            0 <= px < w && 0 <= py < h ==> #[trigger] pixel_at(post, w, px, py) == (if painted(
                px,
                py,
            ) || (px == x0 && py == y0) {
                value(px, py)
            } else {
                pixel_at(base, w, px, py)
            }),
{
    lemma_pixel_update(pre, post, w, h, x0, y0, value(x0, y0));
    assert forall|px: int, py: int| 0 <= px < w && 0 <= py < h implies #[trigger] pixel_at(
        post,
        w,
        px,
        py,
    ) == (if painted(px, py) || (px == x0 && py == y0) {
        value(px, py)
    } else {
        pixel_at(base, w, px, py)
    }) by {
        if !(px == x0 && py == y0) {
            assert(pixel_at(post, w, px, py) == pixel_at(pre, w, px, py));
        }
    }
}

/// The presentation byte at offset `j` of a pixel's 4-byte group.
pub open spec fn spec_color_byte(c: Color, j: int) -> u8 {
    if j == 0 {
        c.r
    } else if j == 1 {
        c.g
    } else if j == 2 {
        c.b
    } else {
        0u8
    }
}

/// The presentation plane that an indexed plane translates to: for every
/// pixel its palette colour as red, green, blue and a zero reserved byte.
pub open spec fn spec_translated(pixels: Seq<u8>, pal: Palette) -> Seq<u8> {
    Seq::new(pixels.len() * 4, |i: int| spec_color_byte(pal.spec_color(pixels[i / 4] as int), i % 4))
}

/// Law: translation through the palette is a function of the indexed plane
/// and the palette alone, so running `swap_buffers` twice over an unchanged
/// indexed plane yields the identical presentation plane both times.
pub proof fn lemma_swap_buffers_idempotent(pixels1: Seq<u8>, pal1: Palette, pixels2: Seq<u8>, pal2: Palette)
    requires
        pixels1 == pixels2,
        pal1 == pal2,
    ensures
        spec_translated(pixels1, pal1) == spec_translated(pixels2, pal2),
{
}

/// Builds a byte buffer of `len` copies of `value`.
fn byte_vec(len: usize, value: u8) -> (r: Vec<u8>)
    ensures
        r@ == Seq::new(len as nat, |i: int| value),
{
    let mut v: Vec<u8> = Vec::new();
    let mut i: usize = 0;
    while i < len
        invariant
            i <= len,
            v@.len() == i,
            forall|k: int| 0 <= k < i ==> v@[k] == value,
        decreases len - i,
    {
        v.push(value);
        i += 1;
    }
    proof {
        assert(v@ =~= Seq::new(len as nat, |i: int| value));
    }
    v
}

/// An indexed pixel plane of `width * height` palette indices in row-major
/// order, a presentation plane of four bytes per pixel, and the palette
/// that translates between them.
///
/// Pixel writes and reads do no bounds checking beyond their contracts:
/// callers clip coordinates to the plane before drawing.
pub struct Framebuffer {
    pixels: Vec<u8>,
    width: usize,
    height: usize,
    color_buffer: Vec<u8>,
    pub palette: Palette,
}

impl Framebuffer {
    pub closed spec fn spec_width(self) -> int {
        self.width as int
    }

    /// The palette the presentation plane is translated through.
    pub closed spec fn spec_palette(self) -> Palette {
        self.palette
    }

    pub closed spec fn spec_height(self) -> int {
        self.height as int
    }

    /// The indexed plane, row-major: the index of pixel `(x, y)` lives at
    /// `y * width + x`.
    pub closed spec fn spec_pixels(self) -> Seq<u8> {
        self.pixels@
    }

    /// The presentation plane, 4 bytes per pixel.
    pub closed spec fn spec_colors(self) -> Seq<u8> {
        self.color_buffer@
    }

    /// Both planes have the size the dimensions call for, and that size
    /// fits the machine.
    pub open spec fn wf(self) -> bool {
        &&& 0 <= self.spec_width() <= usize::MAX
        &&& 0 <= self.spec_height() <= usize::MAX
        &&& self.spec_width() * self.spec_height() * 4 <= usize::MAX
        &&& self.spec_pixels().len() == self.spec_width() * self.spec_height()
        &&& self.spec_colors().len() == self.spec_width() * self.spec_height() * 4
    }

    /// The palette index of pixel `(x, y)`.
    pub open spec fn spec_pixel(self, x: int, y: int) -> u8 {
        pixel_at(self.spec_pixels(), self.spec_width(), x, y)
    }

    /// Creates a framebuffer of the given size with both planes zeroed.
    /// The presentation plane needs 4 bytes per pixel, which bounds the
    /// dimensions the machine can hold.
    pub fn new(width: usize, height: usize, palette: Palette) -> (fb: Framebuffer)
        requires
            width * height * 4 <= usize::MAX,
        ensures
            fb.wf(),
            fb.spec_width() == width,
            fb.spec_height() == height,
            fb.spec_pixels() == Seq::new((width * height) as nat, |i: int| 0u8),
            fb.spec_colors() == Seq::new((width * height * 4) as nat, |i: int| 0u8),
            fb.spec_palette() == palette,
    {
        proof {
            assert(width * height >= 0 && width * height * 4 >= 0) by (nonlinear_arith);
        }
        let area = width * height;
        Framebuffer {
            pixels: byte_vec(area, 0),
            width,
            height,
            color_buffer: byte_vec(area * 4, 0),
            palette,
        }
    }

    /// The row-major offset of `(x, y)` in the indexed plane.
    fn index(&self, x: usize, y: usize) -> (i: usize)
        requires
            self.wf(),
            x < self.spec_width(),
            y < self.spec_height(),
        ensures
            i == y * self.spec_width() + x,
            i < self.spec_pixels().len(),
    {
        let len = self.pixels.len();
        proof {
            let w = self.spec_width();
            let h = self.spec_height();
            assert((y as int) * w + (x as int) < w * h) by (nonlinear_arith)
                requires
                    0 <= (x as int) && (x as int) < w,
                    0 <= (y as int) && (y as int) < h,
            ;
            assert(w * h == len);
        }
        y * self.width + x
    }

    /// Writes one palette index at `(x, y)`. The coordinates must be on
    /// the plane; clipping is the caller's duty.
    pub fn set(&mut self, x: usize, y: usize, color: u8)
        requires
            old(self).wf(),
            x < old(self).spec_width(),
            y < old(self).spec_height(),
        ensures
            final(self).wf(),
            final(self).spec_width() == old(self).spec_width(),
            final(self).spec_height() == old(self).spec_height(),
            final(self).spec_colors() == old(self).spec_colors(),
            final(self).spec_palette() == old(self).spec_palette(),
            final(self).spec_pixels() == old(self).spec_pixels().update(
                y * old(self).spec_width() + x,
                color,
            ),
    {
        let i = self.index(x, y);
        self.pixels[i] = color;
    }

    /// Reads the palette index at `(x, y)`.
    pub fn get(&self, x: usize, y: usize) -> (c: u8)
        requires
            self.wf(),
            x < self.spec_width(),
            y < self.spec_height(),
        ensures
            c == self.spec_pixel(x as int, y as int),
    {
        let i = self.index(x, y);
        self.pixels[i]
    }

    /// Overwrites every element of the indexed plane with one index.
    pub fn fill(&mut self, color: u8)
        requires
            old(self).wf(),
        ensures
            final(self).wf(),
            final(self).spec_width() == old(self).spec_width(),
            final(self).spec_height() == old(self).spec_height(),
            final(self).spec_colors() == old(self).spec_colors(),
            final(self).spec_palette() == old(self).spec_palette(),
            final(self).spec_pixels() == Seq::new(old(self).spec_pixels().len(), |i: int| color),
    {
        let n = self.pixels.len();
        let mut i: usize = 0;
        while i < n
            invariant
                i <= n,
                n == self.pixels@.len(),
                self.width == old(self).width,
                self.height == old(self).height,
                self.color_buffer@ == old(self).color_buffer@,
                self.palette == old(self).palette,
                forall|k: int| 0 <= k < i ==> self.pixels@[k] == color,
                forall|k: int| i <= k < n ==> self.pixels@[k] == old(self).pixels@[k],
            decreases n - i,
        {
            self.pixels[i] = color;
            i += 1;
        }
        proof {
            assert(self.pixels@ =~= Seq::new(old(self).spec_pixels().len(), |i: int| color));
        }
    }

    pub fn width(&self) -> (w: usize)
        ensures
            w == self.spec_width(),
    {
        self.width
    }

    pub fn height(&self) -> (h: usize)
        ensures
            h == self.spec_height(),
    {
        self.height
    }

    /// Translates the indexed plane into the presentation plane: for every
    /// pixel, its palette colour is written as red, green, blue and a zero
    /// reserved byte at the pixel's 4-byte offset. Must run after drawing
    /// and before a consumer reads the presentation plane.
    pub fn swap_buffers(&mut self)
        requires
            old(self).wf(),
        ensures
            final(self).wf(),
            final(self).spec_width() == old(self).spec_width(),
            final(self).spec_height() == old(self).spec_height(),
            final(self).spec_pixels() == old(self).spec_pixels(),
            final(self).spec_palette() == old(self).spec_palette(),
            final(self).spec_colors() == spec_translated(
                old(self).spec_pixels(),
                old(self).spec_palette(),
            ),
    {
        let n = self.pixels.len();
        proof {
            assert(self.color_buffer@.len() == n * 4) by (nonlinear_arith)
                requires
                    self.color_buffer@.len() == self.width * self.height * 4,
                    n == self.width * self.height,
            ;
        }
        let cb_len = self.color_buffer.len();
        let mut p: usize = 0;
        while p < n
            invariant
                p <= n,
                n == self.pixels@.len(),
                cb_len == 4 * n,
                self.pixels@ == old(self).pixels@,
                self.width == old(self).width,
                self.height == old(self).height,
                self.palette == old(self).palette,
                self.color_buffer@.len() == n * 4,
                forall|k: int| 0 <= k < 4 * p ==> self.color_buffer@[k] == spec_translated(
                    self.pixels@,
                    self.palette,
                )[k],
            decreases n - p,
        {
            let color = self.palette.get(self.pixels[p]);
            let i = 4 * p;
            self.color_buffer[i] = color.r;
            self.color_buffer[i + 1] = color.g;
            self.color_buffer[i + 2] = color.b;
            self.color_buffer[i + 3] = 0;
            proof {
                let t = spec_translated(self.pixels@, self.palette);
                let ii = i as int;
                assert(ii / 4 == p && ii % 4 == 0);
                assert((ii + 1) / 4 == p && (ii + 1) % 4 == 1);
                assert((ii + 2) / 4 == p && (ii + 2) % 4 == 2);
                assert((ii + 3) / 4 == p && (ii + 3) % 4 == 3);
                assert(self.color_buffer@[ii] == t[ii]);
                assert(self.color_buffer@[ii + 1] == t[ii + 1]);
                assert(self.color_buffer@[ii + 2] == t[ii + 2]);
                assert(self.color_buffer@[ii + 3] == t[ii + 3]);
            }
            p += 1;
        }
        proof {
            assert(self.color_buffer@ =~= spec_translated(old(self).spec_pixels(), old(self).palette));
        }
    }

    /// The indexed plane, row-major.
    pub fn pixels(&self) -> (p: &[u8])
        ensures
            p@ == self.spec_pixels(),
    {
        self.pixels.as_slice()
    }

    /// The presentation plane as last produced by `swap_buffers`.
    pub fn color_buffer(&self) -> (c: &[u8])
        ensures
            c@ == self.spec_colors(),
    {
        self.color_buffer.as_slice()
    }
}

} // verus!
