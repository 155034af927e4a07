//! Rasterization primitives of the framebuffer: axis-aligned rectangles,
//! bitmap blits and horizontal gradients, each painting palette indices
//! into the indexed plane pixel by pixel.

use vstd::prelude::*;

use crate::bezier::BezierCurve;
use crate::framebuffer::{Framebuffer, lemma_paint_step, pixel_at};
use crate::lmp::LmpImage;
use crate::vertex::Vertex;

verus! {

/// Twice the signed area of the triangle `(a, b, c)`: the cross product of
/// the edge vectors `b - a` and `c - a`. Zero exactly for degenerate
/// triangles.
pub open spec fn spec_edge_cross(a: Vertex, b: Vertex, c: Vertex) -> int {
    (b.x - a.x) * (c.y - a.y) - (b.y - a.y) * (c.x - a.x)
}

/// The barycentric inside test at point `(px, py)`: with `s` and `t` the
/// coordinates of the point along the edge vectors `v2 - v1` and
/// `v3 - v1`, the point is inside when `s >= 0`, `t >= 0` and
/// `s + t <= 1`. Stated over the integer numerators, with the sign of the
/// denominator folded in; a degenerate triangle contains no point.
pub open spec fn spec_tri_contains(v1: Vertex, v2: Vertex, v3: Vertex, px: int, py: int) -> bool {
    let den = spec_edge_cross(v1, v2, v3);
    let sn = (px - v1.x) * (v3.y - v1.y) - (py - v1.y) * (v3.x - v1.x);
    let tn = (v2.x - v1.x) * (py - v1.y) - (v2.y - v1.y) * (px - v1.x);
    if den > 0 {
        sn >= 0 && tn >= 0 && sn + tn <= den
    } else if den < 0 {
        sn <= 0 && tn <= 0 && sn + tn >= den
    } else {
        false
    }
}

pub open spec fn spec_min3(a: int, b: int, c: int) -> int {
    if a <= b && a <= c {
        a
    } else if b <= c {
        b
    } else {
        c
    }
}

pub open spec fn spec_max3(a: int, b: int, c: int) -> int {
    if a >= b && a >= c {
        a
    } else if b >= c {
        b
    } else {
        c
    }
}

/// Whether `triangle` paints `(px, py)`: the point lies in the triangle's
/// bounding box clamped to the plane, and passes the inside test.
pub open spec fn spec_tri_painted(
    v1: Vertex,
    v2: Vertex,
    v3: Vertex,
    w: int,
    h: int,
    px: int,
    py: int,
) -> bool {
    &&& spec_min3(v1.x as int, v2.x as int, v3.x as int) <= px
    &&& px <= spec_max3(v1.x as int, v2.x as int, v3.x as int)
    &&& px < w
    &&& spec_min3(v1.y as int, v2.y as int, v3.y as int) <= py
    &&& py <= spec_max3(v1.y as int, v2.y as int, v3.y as int)
    &&& py < h
    &&& spec_tri_contains(v1, v2, v3, px, py)
}

/// Whether `bezier` paints `(px, py)`: some sample of the curve's
/// `n + 1` parameter steps lands on that pixel.
pub open spec fn spec_bez_painted(curve: BezierCurve, n: int, px: int, py: int) -> bool {
    exists|i: int| 0 <= i <= n && #[trigger] curve.spec_point(i, n) == (px, py)
}

/// The pixels painted after the first `m` samples of the curve.
pub open spec fn spec_bez_painted_upto(curve: BezierCurve, n: int, m: int, px: int, py: int) -> bool {
    exists|i: int| 0 <= i < m && #[trigger] curve.spec_point(i, n) == (px, py)
}

/// The vertical offset that the Bresenham error accumulator has reached
/// at column offset `k` of a line with slope `dy / dx`: in closed form,
/// `dy * k / dx` rounded to the nearest row with exact halves rounded
/// down.
pub open spec fn spec_bres_off(dx: int, dy: int, k: int) -> int {
    (2 * dy * k + dx - 1) / (2 * dx)
}

/// At the line's first column the Bresenham offset is zero.
pub proof fn lemma_bres_off_zero(dx: int, dy: int)
    requires
        1 <= dx,
    ensures
        spec_bres_off(dx, dy, 0) == 0,
{
    assert(2 * dy * 0 == 0) by (nonlinear_arith);
    vstd::arithmetic::div_mod::lemma_basic_div(dx - 1, 2 * dx);
}

/// On a shallow line the offset at any column up to the end stays between
/// zero and the line's total rise, so every painted pixel lies between
/// the endpoints' rows.
pub proof fn lemma_bres_off_bounds(dx: int, dy: int, k: int)
    requires
        1 <= dx,
        0 <= dy <= dx,
        0 <= k <= dx,
    ensures
        0 <= spec_bres_off(dx, dy, k) <= dy,
{
    let n = 2 * dy * k + dx - 1;
    assert(0 <= 2 * dy * k) by (nonlinear_arith)
        requires
            0 <= dy,
            0 <= k,
    ;
    vstd::arithmetic::div_mod::lemma_div_pos_is_pos(n, 2 * dx);
    assert(2 * dy * k + dx - 1 < (2 * dx) * (dy + 1)) by (nonlinear_arith)
        requires
            0 <= dy,
            0 <= k <= dx,
            1 <= dx,
            dy <= dx,
    ;
    vstd::arithmetic::div_mod::lemma_multiply_divide_lt(n, 2 * dx, dy + 1);
}

/// One step of the Bresenham recurrence matches the closed form: the
/// offset at column `k + 1` grows by one exactly when the error value at
/// column `k` has turned positive.
pub proof fn lemma_bres_step(dx: int, dy: int, k: int)
    requires
        1 <= dx,
        0 <= dy <= dx,
        0 <= k,
    ensures
        spec_bres_off(dx, dy, k + 1) == (if 2 * dy * (k + 1) - dx - 2 * dx * spec_bres_off(
            dx,
            dy,
            k,
        ) > 0 {
            spec_bres_off(dx, dy, k) + 1
        } else {
            spec_bres_off(dx, dy, k)
        }),
{
    let n = 2 * dy * k + dx - 1;
    let c = spec_bres_off(dx, dy, k);
    let n2 = 2 * dy * (k + 1) + dx - 1;
    assert(2 * dy * (k + 1) == 2 * dy * k + 2 * dy) by (nonlinear_arith);
    vstd::arithmetic::div_mod::lemma_fundamental_div_mod(n, 2 * dx);
    assert(0 <= 2 * dy * k) by (nonlinear_arith)
        requires
            0 <= dy,
            0 <= k,
    ;
    vstd::arithmetic::div_mod::lemma_mod_pos_bound(n, 2 * dx);
    let r = n % (2 * dx);
    assert(n == (2 * dx) * c + r);
    assert((c + 1) * (2 * dx) == c * (2 * dx) + 2 * dx) by (nonlinear_arith);
    assert(c * (2 * dx) == (2 * dx) * c) by (nonlinear_arith);
    if 2 * dy * (k + 1) - dx - 2 * dx * c > 0 {
        assert(2 * dx * c == (2 * dx) * c) by (nonlinear_arith);
        vstd::arithmetic::div_mod::lemma_fundamental_div_mod_converse(
            n2,
            2 * dx,
            c + 1,
            n2 - (c + 1) * (2 * dx),
        );
    } else {
        assert(2 * dx * c == (2 * dx) * c) by (nonlinear_arith);
        vstd::arithmetic::div_mod::lemma_fundamental_div_mod_converse(
            n2,
            2 * dx,
            c,
            n2 - c * (2 * dx),
        );
    }
}

/// The cross product `(b - a) x (c - a)` of two edge vectors, computed
/// exactly in 128-bit integers. The 32-bit coordinate bound keeps every
/// intermediate product far from overflow.
fn edge_cross(ax: usize, ay: usize, bx: usize, by: usize, cx: usize, cy: usize) -> (r: i128)
    requires
        ax <= u32::MAX,
        ay <= u32::MAX,
        bx <= u32::MAX,
        by <= u32::MAX,
        cx <= u32::MAX,
        cy <= u32::MAX,
    ensures
        r == (bx - ax) * (cy - ay) - (by - ay) * (cx - ax),
        -0x2_0000_0000_0000_0000 <= r <= 0x2_0000_0000_0000_0000,
{
    let e1x = bx as i128 - ax as i128;
    let e1y = by as i128 - ay as i128;
    let e2x = cx as i128 - ax as i128;
    let e2y = cy as i128 - ay as i128;
    proof {
        let bound: int = 0x1_0000_0000;
        assert(-(bound * bound) <= (e1x as int) * (e2y as int) <= bound * bound) by (
        nonlinear_arith)
            requires
                -bound <= (e1x as int) <= bound,
                -bound <= (e2y as int) <= bound,
        ;
        assert(-(bound * bound) <= (e1y as int) * (e2x as int) <= bound * bound) by (
        nonlinear_arith)
            requires
                -bound <= (e1y as int) <= bound,
                -bound <= (e2x as int) <= bound,
        ;
    }
    e1x * e2y - e1y * e2x
}

/// The smaller of two values.
fn min_usize(a: usize, b: usize) -> (r: usize)
    ensures
        r == if a <= b { a as int } else { b as int },
{
    if a <= b {
        a
    } else {
        b
    }
}

/// The smallest of three values.
fn min3_usize(a: usize, b: usize, c: usize) -> (r: usize)
    ensures
        r == spec_min3(a as int, b as int, c as int),
{
    if a <= b && a <= c {
        a
    } else if b <= c {
        b
    } else {
        c
    }
}

/// The largest of three values.
fn max3_usize(a: usize, b: usize, c: usize) -> (r: usize)
    ensures
        r == spec_max3(a as int, b as int, c as int),
{
    if a >= b && a >= c {
        a
    } else if b >= c {
        b
    } else {
        c
    }
}

impl Framebuffer {
    /// Paints every plane pixel inside the triangle `(v1, v2, v3)`: the
    /// triangle's bounding box is clamped to the plane and each point in
    /// it passes the barycentric inside test. A degenerate triangle of
    /// zero area paints nothing.
    pub fn triangle(&mut self, v1: Vertex, v2: Vertex, v3: Vertex, color: u8)
        requires
            old(self).wf(),
            v1.bounded(),
            v2.bounded(),
            v3.bounded(),
        ensures
            final(self).wf(),
            final(self).spec_width() == old(self).spec_width(),
            final(self).spec_height() == old(self).spec_height(),
            final(self).spec_colors() == old(self).spec_colors(),
            final(self).spec_palette() == old(self).spec_palette(),
            forall|px: int, py: int|
                0 <= px < old(self).spec_width() && 0 <= py < old(self).spec_height()
                    ==> final(self).spec_pixel(px, py) == (if spec_tri_painted(
                    v1,
                    v2,
                    v3,
                    old(self).spec_width(),
                    old(self).spec_height(),
                    px,
                    py,
                ) {
                    color
                } else {
                    old(self).spec_pixel(px, py)
                }),
    {
        let ghost w = self.spec_width();
        let ghost h = self.spec_height();
        let den = edge_cross(v1.x, v1.y, v2.x, v2.y, v3.x, v3.y);
        if den == 0 {
            return ;
        }
        if self.width() == 0 || self.height() == 0 {
            return ;
        }
        let xlo = min3_usize(v1.x, v2.x, v3.x);
        let xhi = min_usize(max3_usize(v1.x, v2.x, v3.x), self.width() - 1);
        let ylo = min3_usize(v1.y, v2.y, v3.y);
        let yhi = min_usize(max3_usize(v1.y, v2.y, v3.y), self.height() - 1);
        if xhi < xlo || yhi < ylo {
            proof {
                assert(forall|px: int, py: int|
                    0 <= px < w && 0 <= py < h ==> !spec_tri_painted(v1, v2, v3, w, h, px, py));
            }
            return ;
        }
        let mut row = ylo;
        while row < yhi + 1
            invariant
                ylo <= row <= yhi + 1,
                self.wf(),
                w == self.spec_width(),
                h == self.spec_height(),
                den == spec_edge_cross(v1, v2, v3),
                den != 0,
                v1.bounded(),
                v2.bounded(),
                v3.bounded(),
                xlo == spec_min3(v1.x as int, v2.x as int, v3.x as int),
                ylo == spec_min3(v1.y as int, v2.y as int, v3.y as int),
                xlo <= xhi < w,
                ylo <= yhi < h,
                xhi == if spec_max3(v1.x as int, v2.x as int, v3.x as int) <= w - 1 {
                    spec_max3(v1.x as int, v2.x as int, v3.x as int)
                } else {
                    w - 1
                },
                yhi == if spec_max3(v1.y as int, v2.y as int, v3.y as int) <= h - 1 {
                    spec_max3(v1.y as int, v2.y as int, v3.y as int)
                } else {
                    h - 1
                },
                self.spec_width() == old(self).spec_width(),
                self.spec_height() == old(self).spec_height(),
                self.spec_colors() == old(self).spec_colors(),
                self.spec_palette() == old(self).spec_palette(),
                forall|px: int, py: int|
                    0 <= px < w && 0 <= py < h ==> #[trigger] pixel_at(
                        self.spec_pixels(),
                        self.spec_width(),
                        px,
                        py,
                    ) == (if spec_tri_painted(v1, v2, v3, w, h, px, py) && py < row {
                        color
                    } else {
                        pixel_at(old(self).spec_pixels(), old(self).spec_width(), px, py)
                    }),
            decreases yhi + 1 - row,
        {
            let mut col = xlo;
            while col < xhi + 1
                invariant
                    xlo <= col <= xhi + 1,
                    ylo <= row <= yhi,
                    self.wf(),
                    w == self.spec_width(),
                    h == self.spec_height(),
                    den == spec_edge_cross(v1, v2, v3),
                    den != 0,
                    v1.bounded(),
                    v2.bounded(),
                    v3.bounded(),
                    xlo == spec_min3(v1.x as int, v2.x as int, v3.x as int),
                    ylo == spec_min3(v1.y as int, v2.y as int, v3.y as int),
                    xlo <= xhi < w,
                    ylo <= yhi < h,
                    xhi == if spec_max3(v1.x as int, v2.x as int, v3.x as int) <= w - 1 {
                        spec_max3(v1.x as int, v2.x as int, v3.x as int)
                    } else {
                        w - 1
                    },
                    yhi == if spec_max3(v1.y as int, v2.y as int, v3.y as int) <= h - 1 {
                        spec_max3(v1.y as int, v2.y as int, v3.y as int)
                    } else {
                        h - 1
                    },
                    self.spec_width() == old(self).spec_width(),
                    self.spec_height() == old(self).spec_height(),
                    self.spec_colors() == old(self).spec_colors(),
                    self.spec_palette() == old(self).spec_palette(),
                    forall|px: int, py: int|
                        0 <= px < w && 0 <= py < h ==> #[trigger] pixel_at(
                            self.spec_pixels(),
                            self.spec_width(),
                            px,
                            py,
                        ) == (if spec_tri_painted(v1, v2, v3, w, h, px, py) && ((py < row) || ((py
                            == row) && (px < col))) {
                            color
                        } else {
                            pixel_at(old(self).spec_pixels(), old(self).spec_width(), px, py)
                        }),
                decreases xhi + 1 - col,
            {
                let sn = edge_cross(v1.x, v1.y, col, row, v3.x, v3.y);
                let tn = edge_cross(v1.x, v1.y, v2.x, v2.y, col, row);
                let inside = if den > 0 {
                    sn >= 0 && tn >= 0 && sn <= den - tn
                } else {
                    sn <= 0 && tn <= 0 && sn >= den - tn
                };
                proof {
                    assert(inside == spec_tri_contains(v1, v2, v3, col as int, row as int));
                }
                if inside {
                    let ghost pre = self.spec_pixels();
                    self.set(col, row, color);
                    proof {
                        lemma_paint_step(
                            pre,
                            self.spec_pixels(),
                            old(self).spec_pixels(),
                            w,
                            h,
                            col as int,
                            row as int,
                            |px: int, py: int|
                                spec_tri_painted(v1, v2, v3, w, h, px, py) && ((py < row) || ((py
                                    == row) && (px < col))),
                            |px: int, py: int| color,
                        );
                    }
                }
                col += 1;
            }
            row += 1;
        }
    }

    /// Paints the axis-aligned rectangle whose corners are `(x, y)` and
    /// `(x + width, y + height)`, both edges included: `width + 1` columns
    /// and `height + 1` rows. The off-by-one-inclusive extent is the
    /// format's own convention and is kept deliberately.
    pub fn rect(&mut self, x: usize, y: usize, width: usize, height: usize, color: u8)
        requires
            old(self).wf(),
            x + width < old(self).spec_width(),
            y + height < old(self).spec_height(),
        ensures
            final(self).wf(),
            final(self).spec_width() == old(self).spec_width(),
            final(self).spec_height() == old(self).spec_height(),
            final(self).spec_colors() == old(self).spec_colors(),
            final(self).spec_palette() == old(self).spec_palette(),
            forall|px: int, py: int|
                0 <= px < old(self).spec_width() && 0 <= py < old(self).spec_height()
                    ==> final(self).spec_pixel(px, py) == (if x <= px <= x + width && y <= py <= y
                    + height {
                    color
                } else {
                    old(self).spec_pixel(px, py)
                }),
    {
        let xm = x + width + 1;
        let ym = y + height + 1;
        let mut row = y;
        while row < ym
            invariant
                y <= row <= ym,
                self.wf(),
                xm == x + width + 1,
                ym == y + height + 1,
                xm <= self.spec_width(),
                ym <= self.spec_height(),
                self.spec_width() == old(self).spec_width(),
                self.spec_height() == old(self).spec_height(),
                self.spec_colors() == old(self).spec_colors(),
                self.spec_palette() == old(self).spec_palette(),
                forall|px: int, py: int|
                    0 <= px < self.spec_width() && 0 <= py < self.spec_height()
                        ==> #[trigger] pixel_at(self.spec_pixels(), self.spec_width(), px, py) == (
                    if (x <= px < xm) && (y <= py < row) {
                        color
                    } else {
                        pixel_at(old(self).spec_pixels(), old(self).spec_width(), px, py)
                    }),
            decreases ym - row,
        {
            let mut col = x;
            while col < xm
                invariant
                    x <= col <= xm,
                    y <= row < ym,
                    self.wf(),
                    xm == x + width + 1,
                    ym == y + height + 1,
                    xm <= self.spec_width(),
                    ym <= self.spec_height(),
                    self.spec_width() == old(self).spec_width(),
                    self.spec_height() == old(self).spec_height(),
                    self.spec_colors() == old(self).spec_colors(),
                    self.spec_palette() == old(self).spec_palette(),
                    forall|px: int, py: int|
                        0 <= px < self.spec_width() && 0 <= py < self.spec_height()
                            ==> #[trigger] pixel_at(self.spec_pixels(), self.spec_width(), px, py)
                            == (if ((x <= px < xm) && (y <= py < row)) || ((py == row) && (x <= px
                            < col)) {
                            color
                        } else {
                            pixel_at(old(self).spec_pixels(), old(self).spec_width(), px, py)
                        }),
                decreases xm - col,
            {
                let ghost pre = self.spec_pixels();
                self.set(col, row, color);
                proof {
                    lemma_paint_step(
                        pre,
                        self.spec_pixels(),
                        old(self).spec_pixels(),
                        self.spec_width(),
                        self.spec_height(),
                        col as int,
                        row as int,
                        |px: int, py: int|
                            ((x <= px < xm) && (y <= py < row)) || ((py == row) && (x <= px < col)),
                        |px: int, py: int| color,
                    );
                }
                col += 1;
            }
            row += 1;
        }
    }

    /// Copies a bitmap's palette indices into the plane with its top-left
    /// corner at `(x_pos, y_pos)`: a direct, unblended copy. The image must
    /// fit the plane; clipping is the caller's duty.
    pub fn draw_pic(&mut self, x_pos: usize, y_pos: usize, image: &LmpImage)
        requires
            old(self).wf(),
            x_pos + image.spec_width() <= old(self).spec_width(),
            y_pos + image.spec_height() <= old(self).spec_height(),
        ensures
            final(self).wf(),
            final(self).spec_width() == old(self).spec_width(),
            final(self).spec_height() == old(self).spec_height(),
            final(self).spec_colors() == old(self).spec_colors(),
            final(self).spec_palette() == old(self).spec_palette(),
            forall|px: int, py: int|
                0 <= px < old(self).spec_width() && 0 <= py < old(self).spec_height()
                    ==> final(self).spec_pixel(px, py) == (if x_pos <= px < x_pos
                    + image.spec_width() && y_pos <= py < y_pos + image.spec_height() {
                    image.spec_pixel(px - x_pos, py - y_pos)
                } else {
                    old(self).spec_pixel(px, py)
                }),
    {
        let ih = image.height();
        let iw = image.width();
        let mut j: u32 = 0;
        while j < ih
            invariant
                j <= ih,
                iw == image.spec_width(),
                ih == image.spec_height(),
                self.wf(),
                x_pos + iw <= self.spec_width(),
                y_pos + ih <= self.spec_height(),
                self.spec_width() == old(self).spec_width(),
                self.spec_height() == old(self).spec_height(),
                self.spec_colors() == old(self).spec_colors(),
                self.spec_palette() == old(self).spec_palette(),
                forall|px: int, py: int|
                    0 <= px < self.spec_width() && 0 <= py < self.spec_height()
                        ==> #[trigger] pixel_at(self.spec_pixels(), self.spec_width(), px, py) == (
                    if (x_pos <= px < x_pos + iw) && (y_pos <= py < y_pos + j) {
                        image.spec_pixel(px - x_pos, py - y_pos)
                    } else {
                        pixel_at(old(self).spec_pixels(), old(self).spec_width(), px, py)
                    }),
            decreases ih - j,
        {
            let mut i: u32 = 0;
            while i < iw
                invariant
                    i <= iw,
                    j < ih,
                    iw == image.spec_width(),
                    ih == image.spec_height(),
                    self.wf(),
                    x_pos + iw <= self.spec_width(),
                    y_pos + ih <= self.spec_height(),
                    self.spec_width() == old(self).spec_width(),
                    self.spec_height() == old(self).spec_height(),
                    self.spec_colors() == old(self).spec_colors(),
                    self.spec_palette() == old(self).spec_palette(),
                    forall|px: int, py: int|
                        0 <= px < self.spec_width() && 0 <= py < self.spec_height()
                            ==> #[trigger] pixel_at(self.spec_pixels(), self.spec_width(), px, py)
                            == (if ((x_pos <= px < x_pos + iw) && (y_pos <= py < y_pos + j)) || ((
                        py == y_pos + j) && (x_pos <= px < x_pos + i)) {
                            image.spec_pixel(px - x_pos, py - y_pos)
                        } else {
                            pixel_at(old(self).spec_pixels(), old(self).spec_width(), px, py)
                        }),
                decreases iw - i,
            {
                let x = i as usize + x_pos;
                let y = j as usize + y_pos;
                let ghost pre = self.spec_pixels();
                self.set(x, y, image.get(i, j));
                proof {
                    lemma_paint_step(
                        pre,
                        self.spec_pixels(),
                        old(self).spec_pixels(),
                        self.spec_width(),
                        self.spec_height(),
                        x as int,
                        y as int,
                        |px: int, py: int|
                            ((x_pos <= px < x_pos + iw) && (y_pos <= py < y_pos + j)) || ((py
                                == y_pos + j) && (x_pos <= px < x_pos + i)),
                        |px: int, py: int| image.spec_pixel(px - x_pos, py - y_pos),
                    );
                }
                i += 1;
            }
            j += 1;
        }
    }

    /// Paints one pixel per curve sample: the sampled point with its
    /// coordinates already on the pixel grid.
    pub fn bezier(&mut self, curve: BezierCurve, n: usize, color: u8)
        requires
            old(self).wf(),
            curve.bounded(),
            1 <= n <= u32::MAX,
            spec_max3(curve.start.x as int, curve.control.x as int, curve.end.x as int) < old(
                self,
            ).spec_width(),
            spec_max3(curve.start.y as int, curve.control.y as int, curve.end.y as int) < old(
                self,
            ).spec_height(),
        ensures
            final(self).wf(),
            final(self).spec_width() == old(self).spec_width(),
            final(self).spec_height() == old(self).spec_height(),
            final(self).spec_colors() == old(self).spec_colors(),
            final(self).spec_palette() == old(self).spec_palette(),
            forall|px: int, py: int|
                0 <= px < old(self).spec_width() && 0 <= py < old(self).spec_height()
                    ==> final(self).spec_pixel(px, py) == (if spec_bez_painted(
                    curve,
                    n as int,
                    px,
                    py,
                ) {
                    color
                } else {
                    old(self).spec_pixel(px, py)
                }),
    {
        let ghost w = self.spec_width();
        let ghost h = self.spec_height();
        let pts = curve.approximate(n);
        let m = pts.len();
        let mut k: usize = 0;
        while k < m
            invariant
                k <= m,
                m == n + 1,
                1 <= n <= u32::MAX,
                curve.bounded(),
                self.wf(),
                w == self.spec_width(),
                h == self.spec_height(),
                spec_max3(curve.start.x as int, curve.control.x as int, curve.end.x as int) < w,
                spec_max3(curve.start.y as int, curve.control.y as int, curve.end.y as int) < h,
                pts@.len() == m,
                forall|i: int|
                    0 <= i <= n ==> ((#[trigger] pts@[i]).x as int, pts@[i].y as int)
                        == curve.spec_point(i, n as int),
                forall|i: int|
                    0 <= i <= n ==> (#[trigger] pts@[i]).x as int <= spec_max3(
                        curve.start.x as int,
                        curve.control.x as int,
                        curve.end.x as int,
                    ) && pts@[i].y as int <= spec_max3(
                        curve.start.y as int,
                        curve.control.y as int,
                        curve.end.y as int,
                    ),
                self.spec_width() == old(self).spec_width(),
                self.spec_height() == old(self).spec_height(),
                self.spec_colors() == old(self).spec_colors(),
                self.spec_palette() == old(self).spec_palette(),
                forall|px: int, py: int|
                    0 <= px < w && 0 <= py < h ==> #[trigger] pixel_at(
                        self.spec_pixels(),
                        self.spec_width(),
                        px,
                        py,
                    ) == (if spec_bez_painted_upto(curve, n as int, k as int, px, py) {
                        color
                    } else {
                        pixel_at(old(self).spec_pixels(), old(self).spec_width(), px, py)
                    }),
            decreases m - k,
        {
            let p = pts[k];
            let ghost pre = self.spec_pixels();
            self.set(p.x, p.y, color);
            proof {
                lemma_paint_step(
                    pre,
                    self.spec_pixels(),
                    old(self).spec_pixels(),
                    w,
                    h,
                    p.x as int,
                    p.y as int,
                    |px: int, py: int| spec_bez_painted_upto(curve, n as int, k as int, px, py),
                    |px: int, py: int| color,
                );
                assert forall|px: int, py: int|
                    spec_bez_painted_upto(curve, n as int, k + 1, px, py) == (
                    spec_bez_painted_upto(curve, n as int, k as int, px, py) || (px == p.x && py
                        == p.y)) by {
                    if spec_bez_painted_upto(curve, n as int, k + 1, px, py) {
                        let i = choose|i: int|
                            0 <= i < k + 1 && #[trigger] curve.spec_point(i, n as int) == (px, py);
                        if i < k {
                            assert(spec_bez_painted_upto(curve, n as int, k as int, px, py));
                        } else {
                            assert(curve.spec_point(k as int, n as int) == (px, py));
                        }
                    }
                    if spec_bez_painted_upto(curve, n as int, k as int, px, py) {
                        let i = choose|i: int|
                            0 <= i < k && #[trigger] curve.spec_point(i, n as int) == (px, py);
                        assert(0 <= i < k + 1 && curve.spec_point(i, n as int) == (px, py));
                        assert(spec_bez_painted_upto(curve, n as int, k + 1, px, py));
                    }
                    if px == p.x && py == p.y {
                        assert(curve.spec_point(k as int, n as int) == (px, py));
                        assert(spec_bez_painted_upto(curve, n as int, k + 1, px, py));
                    }
                }
            }
            k += 1;
        }
        proof {
            assert forall|px: int, py: int|
                spec_bez_painted(curve, n as int, px, py) == spec_bez_painted_upto(
                    curve,
                    n as int,
                    n + 1,
                    px,
                    py,
                ) by {
                if spec_bez_painted(curve, n as int, px, py) {
                    let i = choose|i: int|
                        0 <= i <= n && #[trigger] curve.spec_point(i, n as int) == (px, py);
                    assert(0 <= i < n + 1 && curve.spec_point(i, n as int) == (px, py));
                    assert(spec_bez_painted_upto(curve, n as int, n + 1, px, py));
                }
                if spec_bez_painted_upto(curve, n as int, n + 1, px, py) {
                    let i = choose|i: int|
                        0 <= i < n + 1 && #[trigger] curve.spec_point(i, n as int) == (px, py);
                    assert(0 <= i <= n && curve.spec_point(i, n as int) == (px, py));
                    assert(spec_bez_painted(curve, n as int, px, py));
                }
            }
        }
    }

    /// Draws the Bresenham line from `(x0, y0)` to `(x1, y1)`: one pixel
    /// per column `x0 <= x < x1`, at the row the error accumulator picks.
    ///
    /// Only one octant is supported: the line must run rightward
    /// (`x0 < x1`), downward or flat (`y0 <= y1`), and shallowly
    /// (`y1 - y0 <= x1 - x0`). That limitation is deliberate and part of
    /// the routine's contract, not silently generalized away.
    pub fn line(&mut self, x0: usize, y0: usize, x1: usize, y1: usize, color: u8)
        requires
            old(self).wf(),
            x0 < x1,
            y0 <= y1,
            y1 - y0 <= x1 - x0,
            x1 <= old(self).spec_width(),
            y1 < old(self).spec_height(),
        ensures
            final(self).wf(),
            final(self).spec_width() == old(self).spec_width(),
            final(self).spec_height() == old(self).spec_height(),
            final(self).spec_colors() == old(self).spec_colors(),
            final(self).spec_palette() == old(self).spec_palette(),
            forall|px: int, py: int|
                0 <= px < old(self).spec_width() && 0 <= py < old(self).spec_height()
                    ==> final(self).spec_pixel(px, py) == (if x0 <= px < x1 && py == y0
                    + spec_bres_off(x1 - x0, y1 - y0, px - x0) {
                    color
                } else {
                    old(self).spec_pixel(px, py)
                }),
    {
        let ghost w = self.spec_width();
        let ghost h = self.spec_height();
        let dx = x1 - x0;
        let dy = y1 - y0;
        let ghost dxi = dx as int;
        let ghost dyi = dy as int;
        let mut d: i128 = 2 * (dy as i128) - (dx as i128);
        proof {
            lemma_bres_off_zero(dxi, dyi);
        }
        let ghost pre0 = self.spec_pixels();
        self.set(x0, y0, color);
        proof {
            lemma_paint_step(
                pre0,
                self.spec_pixels(),
                old(self).spec_pixels(),
                w,
                h,
                x0 as int,
                y0 as int,
                |px: int, py: int| false,
                |px: int, py: int| color,
            );
        }
        let mut yy = y0;
        proof {
            lemma_bres_step(dxi, dyi, 0);
        }
        if d > 0 {
            yy = yy + 1;
            d = d - 2 * (dx as i128);
        }
        let mut xx = x0 + 1;
        while xx < x1
            invariant
                x0 + 1 <= xx <= x1,
                self.wf(),
                w == self.spec_width(),
                h == self.spec_height(),
                dxi == dx == x1 - x0,
                dyi == dy == y1 - y0,
                x0 < x1,
                y0 <= y1,
                dyi <= dxi,
                x1 <= w,
                y1 < h,
                yy - y0 == spec_bres_off(dxi, dyi, xx - x0),
                d == 2 * dyi * (xx - x0) - dxi - 2 * dxi * (yy - y0),
                -2 * dxi < d <= 2 * dyi,
                self.spec_width() == old(self).spec_width(),
                self.spec_height() == old(self).spec_height(),
                self.spec_colors() == old(self).spec_colors(),
                self.spec_palette() == old(self).spec_palette(),
                forall|px: int, py: int|
                    0 <= px < w && 0 <= py < h ==> #[trigger] pixel_at(
                        self.spec_pixels(),
                        self.spec_width(),
                        px,
                        py,
                    ) == (if x0 <= px < xx && py == y0 + spec_bres_off(dxi, dyi, px - x0) {
                        color
                    } else {
                        pixel_at(old(self).spec_pixels(), old(self).spec_width(), px, py)
                    }),
            decreases x1 - xx,
        {
            let ghost k = xx - x0;
            let ghost ck = yy - y0;
            proof {
                lemma_bres_off_bounds(dxi, dyi, k);
            }
            let ghost pre = self.spec_pixels();
            self.set(xx, yy, color);
            proof {
                lemma_paint_step(
                    pre,
                    self.spec_pixels(),
                    old(self).spec_pixels(),
                    w,
                    h,
                    xx as int,
                    yy as int,
                    |px: int, py: int|
                        x0 <= px < xx && py == y0 + spec_bres_off(dxi, dyi, px - x0),
                    |px: int, py: int| color,
                );
                lemma_bres_step(dxi, dyi, k);
                assert(2 * dyi * (k + 1) == 2 * dyi * k + 2 * dyi) by (nonlinear_arith);
                assert(2 * dxi * (ck + 1) == 2 * dxi * ck + 2 * dxi) by (nonlinear_arith);
            }
            d = d + 2 * (dy as i128);
            if d > 0 {
                yy = yy + 1;
                d = d - 2 * (dx as i128);
            }
            xx += 1;
        }
    }

    /// The Bresenham line routine under its older name; `line` is the
    /// same algorithm.
    pub fn bre_line(&mut self, x0: usize, y0: usize, x1: usize, y1: usize, color: u8)
        requires
            old(self).wf(),
            x0 < x1,
            y0 <= y1,
            y1 - y0 <= x1 - x0,
            x1 <= old(self).spec_width(),
            y1 < old(self).spec_height(),
        ensures
            final(self).wf(),
            final(self).spec_width() == old(self).spec_width(),
            final(self).spec_height() == old(self).spec_height(),
            final(self).spec_colors() == old(self).spec_colors(),
            final(self).spec_palette() == old(self).spec_palette(),
            forall|px: int, py: int|
                0 <= px < old(self).spec_width() && 0 <= py < old(self).spec_height()
                    ==> final(self).spec_pixel(px, py) == (if x0 <= px < x1 && py == y0
                    + spec_bres_off(x1 - x0, y1 - y0, px - x0) {
                    color
                } else {
                    old(self).spec_pixel(px, py)
                }),
    {
        self.line(x0, y0, x1, y1, color)
    }

    /// The palette index a horizontal gradient from `start` to `end` gives
    /// to column `x` of a plane `w` columns wide.
    pub open spec fn spec_gradient_index(start: u8, end: u8, w: int, x: int) -> int {
        start + (x * (end - start)) / w
    }

    /// Every gradient index of an on-plane column lies between `start` and
    /// just below `end`, so in particular it fits a palette index.
    pub proof fn lemma_gradient_bounds(start: u8, end: u8, w: int)
        requires
            start < end,
            w > 0,
        ensures
            forall|x: int|
                0 <= x < w ==> start <= #[trigger] Self::spec_gradient_index(start, end, w, x)
                    < end,
    {
        assert forall|x: int| 0 <= x < w implies start <= #[trigger] Self::spec_gradient_index(
            start,
            end,
            w,
            x,
        ) < end by {
            let d = end - start;
            assert(x * d < w * d) by (nonlinear_arith)
                requires
                    0 <= x < w,
                    0 < d,
            ;
            vstd::arithmetic::div_mod::lemma_multiply_divide_lt(x * d, w, d);
            vstd::arithmetic::div_mod::lemma_div_pos_is_pos(x * d, w);
        }
    }

    /// Paints a horizontal gradient: every column gets the palette index
    /// that linear interpolation from `start` at the left edge toward `end`
    /// at the right edge gives it, rounded down. `end` itself is never
    /// reached.
    pub fn draw_gradient(&mut self, start: u8, end: u8)
        requires
            old(self).wf(),
            end > start,
            old(self).spec_width() > 0,
        ensures
            final(self).wf(),
            final(self).spec_width() == old(self).spec_width(),
            final(self).spec_height() == old(self).spec_height(),
            final(self).spec_colors() == old(self).spec_colors(),
            final(self).spec_palette() == old(self).spec_palette(),
            forall|px: int, py: int|
                0 <= px < old(self).spec_width() && 0 <= py < old(self).spec_height()
                    ==> final(self).spec_pixel(px, py) == Self::spec_gradient_index(
                    start,
                    end,
                    old(self).spec_width(),
                    px,
                ),
    {
        let w = self.width();
        let h = self.height();
        let d = end - start;
        let mut y: usize = 0;
        while y < h
            invariant
                y <= h,
                self.wf(),
                d == end - start,
                end > start,
                w == self.spec_width(),
                h == self.spec_height(),
                w > 0,
                self.spec_width() == old(self).spec_width(),
                self.spec_height() == old(self).spec_height(),
                self.spec_colors() == old(self).spec_colors(),
                self.spec_palette() == old(self).spec_palette(),
                forall|px: int, py: int|
                    0 <= px < self.spec_width() && 0 <= py < self.spec_height()
                        ==> #[trigger] pixel_at(self.spec_pixels(), self.spec_width(), px, py) == (
                    if py < y {
                        Self::spec_gradient_index(start, end, w as int, px) as u8
                    } else {
                        pixel_at(old(self).spec_pixels(), old(self).spec_width(), px, py)
                    }),
            decreases h - y,
        {
            let mut x: usize = 0;
            while x < w
                invariant
                    x <= w,
                    y < h,
                    self.wf(),
                    d == end - start,
                    end > start,
                    w == self.spec_width(),
                    h == self.spec_height(),
                    w > 0,
                    self.spec_width() == old(self).spec_width(),
                    self.spec_height() == old(self).spec_height(),
                    self.spec_colors() == old(self).spec_colors(),
                    self.spec_palette() == old(self).spec_palette(),
                    forall|px: int, py: int|
                        0 <= px < self.spec_width() && 0 <= py < self.spec_height()
                            ==> #[trigger] pixel_at(self.spec_pixels(), self.spec_width(), px, py)
                            == (if (py < y) || ((py == y) && (px < x)) {
                            Self::spec_gradient_index(start, end, w as int, px) as u8
                        } else {
                            pixel_at(old(self).spec_pixels(), old(self).spec_width(), px, py)
                        }),
                decreases w - x,
            {
                proof {
                    assert((x as int) * (d as int) < (w as int) * (d as int)) by (nonlinear_arith)
                        requires
                            0 <= (x as int) < (w as int),
                            0 < (d as int),
                    ;
                    assert((x as int) * (d as int) <= (usize::MAX as int) * 255) by (
                    nonlinear_arith)
                        requires
                            0 <= (x as int) <= usize::MAX,
                            0 <= (d as int) <= 255,
                    ;
                    vstd::arithmetic::div_mod::lemma_multiply_divide_lt(
                        (x as int) * (d as int),
                        (w as int),
                        (d as int),
                    );
                    vstd::arithmetic::div_mod::lemma_div_pos_is_pos(
                        (x as int) * (d as int),
                        (w as int),
                    );
                }
                let step = ((x as u128) * (d as u128) / (w as u128)) as u8;
                let c = start + step;
                proof {
                    assert(c == Self::spec_gradient_index(start, end, w as int, x as int) as u8);
                }
                let ghost pre = self.spec_pixels();
                self.set(x, y, c);
                proof {
                    lemma_paint_step(
                        pre,
                        self.spec_pixels(),
                        old(self).spec_pixels(),
                        self.spec_width(),
                        self.spec_height(),
                        x as int,
                        y as int,
                        |px: int, py: int| (py < y) || ((py == y) && (px < x)),
                        |px: int, py: int| Self::spec_gradient_index(start, end, w as int, px) as u8,
                    );
                }
                x += 1;
            }
            y += 1;
        }
        proof {
            Self::lemma_gradient_bounds(start, end, w as int);
        }
    }
}

} // verus!
