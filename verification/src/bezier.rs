//! A quadratic curve over three control points, sampled at exact rational
//! parameters. The classic evaluator walks `t` from 0 to 1 by repeated
//! addition of `1 / n`, which lets accumulated rounding decide whether the
//! endpoint is ever reached; here the curve is evaluated at the exact
//! fractions `i / n` for `i = 0 ..= n`, so the sample set is deterministic
//! and always includes both endpoints.

use vstd::prelude::*;

use crate::drawing::{spec_max3, spec_min3};
use crate::vertex::Vertex;

verus! {

/// The numerator of the Bernstein combination of one coordinate at
/// parameter `i / n`, scaled by `n * n`: with `s = n - i`,
/// `a * s^2 + 2 * c * i * s + b * i^2`.
pub open spec fn spec_bez_num(a: int, c: int, b: int, i: int, n: int) -> int {
    a * (n - i) * (n - i) + 2 * c * i * (n - i) + b * i * i
}

/// One coordinate of the curve at parameter `i / n`, rounded to the
/// nearest integer with halves rounded up.
pub open spec fn spec_bez_coord(a: int, c: int, b: int, i: int, n: int) -> int {
    (spec_bez_num(a, c, b, i, n) + (n * n) / 2) / (n * n)
}

/// Evaluates one coordinate of the curve at parameter `i / n`, exactly.
/// The result is a convex combination of the three control coordinates,
/// so it stays between their smallest and largest.
fn bez_coord(a: usize, c: usize, b: usize, i: usize, n: usize) -> (r: usize)
    requires
        a <= u32::MAX,
        c <= u32::MAX,
        b <= u32::MAX,
        1 <= n <= u32::MAX,
        i <= n,
    ensures
        r == spec_bez_coord(a as int, c as int, b as int, i as int, n as int),
        spec_min3(a as int, c as int, b as int) <= r <= spec_max3(a as int, c as int, b as int),
{
    let s = n - i;
    proof {
        lemma_bez_num_bounds(a as int, c as int, b as int, i as int, n as int);
        let den = (n as int) * (n as int);
        let lo = spec_min3(a as int, c as int, b as int);
        let hi = spec_max3(a as int, c as int, b as int);
        let num = spec_bez_num(a as int, c as int, b as int, i as int, n as int);
        let big: int = 0x1_0000_0000;
        assert(0 <= lo <= hi < big);
        assert((a as int) * (s as int) <= big * big && (a as int) * (s as int) * (s as int) <= big
            * big * big && 2 * (c as int) <= 2 * big && 2 * (c as int) * (i as int) <= 2 * big
            * big && 2 * (c as int) * (i as int) * (s as int) <= 2 * big * big * big && (b as int)
            * (i as int) <= big * big && (b as int) * (i as int) * (i as int) <= big * big * big
            && 0 < den <= big * big && hi * den <= big * big * big && 0 <= (a as int) * (s as int)
            && 0 <= 2 * (c as int) * (i as int) && 0 <= (b as int) * (i as int)) by (
        nonlinear_arith)
            requires
                0 <= (a as int) < big,
                0 <= (c as int) < big,
                0 <= (b as int) < big,
                0 <= (s as int) <= big,
                0 <= (i as int) <= big,
                1 <= (n as int) <= big,
                den == (n as int) * (n as int),
                0 <= hi < big,
        ;
        vstd::arithmetic::div_mod::lemma_div_pos_is_pos(den, 2);
        // the rounded numerator stays below (hi + 1) * den, so the
        // quotient stays at most hi
        assert(num + den / 2 < den * (hi + 1)) by {
            assert(den / 2 + den / 2 <= den) by {
                vstd::arithmetic::div_mod::lemma_fundamental_div_mod(den, 2);
                vstd::arithmetic::div_mod::lemma_mod_pos_bound(den, 2);
            }
            assert(den * (hi + 1) == hi * den + den) by (nonlinear_arith);
        }
        vstd::arithmetic::div_mod::lemma_multiply_divide_lt(num + den / 2, den, hi + 1);
        // the rounded numerator is at least lo * den, so the quotient is
        // at least lo
        assert(den * lo <= num + den / 2) by {
            assert(den * lo == lo * den) by (nonlinear_arith);
        }
        vstd::arithmetic::div_mod::lemma_div_is_ordered(den * lo, num + den / 2, den);
        vstd::arithmetic::div_mod::lemma_div_multiples_vanish(lo, den);
    }
    let den = (n as u128) * (n as u128);
    let num = (a as u128) * (s as u128) * (s as u128) + 2 * (c as u128) * (i as u128) * (s
        as u128) + (b as u128) * (i as u128) * (i as u128);
    ((num + den / 2) / den) as usize
}

/// The Bernstein weights at `i / n` are non-negative and sum to `n * n`,
/// so the numerator lies between `min * n^2` and `max * n^2` of the three
/// control coordinates.
proof fn lemma_bez_num_bounds(a: int, c: int, b: int, i: int, n: int)
    requires
        0 <= a,
        0 <= c,
        0 <= b,
        1 <= n,
        0 <= i <= n,
    ensures
        spec_min3(a, c, b) * (n * n) <= spec_bez_num(a, c, b, i, n) <= spec_max3(a, c, b) * (n
            * n),
{
    let lo = spec_min3(a, c, b);
    let hi = spec_max3(a, c, b);
    assert(lo * (n * n) <= spec_bez_num(a, c, b, i, n)) by (nonlinear_arith)
        requires
            lo <= a,
            lo <= c,
            lo <= b,
            0 <= lo,
            0 <= i <= n,
    ;
    assert(spec_bez_num(a, c, b, i, n) <= hi * (n * n)) by (nonlinear_arith)
        requires
            a <= hi,
            c <= hi,
            b <= hi,
            0 <= a,
            0 <= c,
            0 <= b,
            0 <= i <= n,
    ;
}

/// A quadratic curve: a start point, one control point and an end point.
/// An immutable value, consumed by sampling.
pub struct BezierCurve {
    pub start: Vertex,
    pub control: Vertex,
    pub end: Vertex,
}

impl BezierCurve {
    /// All three control points have 32-bit coordinates.
    pub open spec fn bounded(self) -> bool {
        self.start.bounded() && self.control.bounded() && self.end.bounded()
    }

    /// The point of the curve at parameter `i / n`, coordinate by
    /// coordinate.
    pub open spec fn spec_point(self, i: int, n: int) -> (int, int) {
        (
            spec_bez_coord(self.start.x as int, self.control.x as int, self.end.x as int, i, n),
            spec_bez_coord(self.start.y as int, self.control.y as int, self.end.y as int, i, n),
        )
    }

    pub fn new(s: Vertex, c: Vertex, e: Vertex) -> (r: BezierCurve)
        ensures
            r.start == s,
            r.control == c,
            r.end == e,
    {
        BezierCurve { start: s, control: c, end: e }
    }

    /// The curve point at parameter `i / n`: the quadratic Bernstein
    /// combination `start * (1-t)^2 + control * 2t(1-t) + end * t^2` at
    /// `t = i / n`, evaluated exactly and rounded to the nearest pixel.
    pub fn evaluate(&self, i: usize, n: usize) -> (p: Vertex)
        requires
            self.bounded(),
            1 <= n <= u32::MAX,
            i <= n,
        ensures
            (p.x as int, p.y as int) == self.spec_point(i as int, n as int),
            p.bounded(),
            spec_min3(self.start.x as int, self.control.x as int, self.end.x as int) <= p.x as int
                <= spec_max3(self.start.x as int, self.control.x as int, self.end.x as int),
            spec_min3(self.start.y as int, self.control.y as int, self.end.y as int) <= p.y as int
                <= spec_max3(self.start.y as int, self.control.y as int, self.end.y as int),
    {
        Vertex {
            x: bez_coord(self.start.x, self.control.x, self.end.x, i, n),
            y: bez_coord(self.start.y, self.control.y, self.end.y, i, n),
        }
    }

    /// Samples the curve at the `num_points + 1` exact parameter steps
    /// `i / num_points` for `i = 0 ..= num_points`, endpoints included.
    pub fn approximate(&self, num_points: usize) -> (r: Vec<Vertex>)
        requires
            self.bounded(),
            1 <= num_points <= u32::MAX,
        ensures
            r@.len() == num_points + 1,
            forall|i: int|
                0 <= i <= num_points ==> ((#[trigger] r@[i]).x as int, r@[i].y as int)
                    == self.spec_point(i, num_points as int),
            forall|i: int| 0 <= i <= num_points ==> (#[trigger] r@[i]).bounded(),
            forall|i: int|
                0 <= i <= num_points ==> spec_min3(
                    self.start.x as int,
                    self.control.x as int,
                    self.end.x as int,
                ) <= (#[trigger] r@[i]).x as int <= spec_max3(
                    self.start.x as int,
                    self.control.x as int,
                    self.end.x as int,
                ) && spec_min3(self.start.y as int, self.control.y as int, self.end.y as int)
                    <= r@[i].y as int <= spec_max3(
                    self.start.y as int,
                    self.control.y as int,
                    self.end.y as int,
                ),
    {
        let mut pts: Vec<Vertex> = Vec::new();
        pts.push(self.evaluate(0, num_points));
        let mut i: usize = 0;
        while i < num_points
            invariant
                i <= num_points,
                num_points <= u32::MAX,
                1 <= num_points,
                self.bounded(),
                pts@.len() == i + 1,
                forall|k: int|
                    0 <= k <= i ==> ((#[trigger] pts@[k]).x as int, pts@[k].y as int)
                        == self.spec_point(k, num_points as int),
                forall|k: int| 0 <= k <= i ==> (#[trigger] pts@[k]).bounded(),
                forall|k: int|
                    0 <= k <= i ==> spec_min3(
                        self.start.x as int,
                        self.control.x as int,
                        self.end.x as int,
                    ) <= (#[trigger] pts@[k]).x as int <= spec_max3(
                        self.start.x as int,
                        self.control.x as int,
                        self.end.x as int,
                    ) && spec_min3(self.start.y as int, self.control.y as int, self.end.y as int)
                        <= pts@[k].y as int <= spec_max3(
                        self.start.y as int,
                        self.control.y as int,
                        self.end.y as int,
                    ),
            decreases num_points - i,
        {
            i += 1;
            pts.push(self.evaluate(i, num_points));
        }
        pts
    }
}

/// Law: the sampled curve pins its endpoints exactly: the first parameter
/// step yields the start point and the last yields the end point, for any
/// control triple.
pub proof fn lemma_curve_endpoints(curve: BezierCurve, n: int)
    requires
        1 <= n,
    ensures
        curve.spec_point(0, n) == (curve.start.x as int, curve.start.y as int),
        curve.spec_point(n, n) == (curve.end.x as int, curve.end.y as int),
{
    lemma_bez_endpoint_low(curve.start.x as int, curve.control.x as int, curve.end.x as int, n);
    lemma_bez_endpoint_low(curve.start.y as int, curve.control.y as int, curve.end.y as int, n);
    lemma_bez_endpoint_high(curve.start.x as int, curve.control.x as int, curve.end.x as int, n);
    lemma_bez_endpoint_high(curve.start.y as int, curve.control.y as int, curve.end.y as int, n);
}

/// At parameter 0 the Bernstein combination collapses to the start
/// coordinate.
proof fn lemma_bez_endpoint_low(a: int, c: int, b: int, n: int)
    requires
        1 <= n,
        0 <= a,
    ensures
        spec_bez_coord(a, c, b, 0, n) == a,
{
    let den = n * n;
    assert(0 < den && a * (n - 0) * (n - 0) == a * den && 2 * c * 0 * (n - 0) == 0 && b * 0 * 0
        == 0 && a * den == den * a) by (nonlinear_arith)
        requires
            1 <= n,
            den == n * n,
    ;
    assert(spec_bez_num(a, c, b, 0, n) == a * den);
    vstd::arithmetic::div_mod::lemma_div_pos_is_pos(den, 2);
    vstd::arithmetic::div_mod::lemma_div_decreases(den, 2);
    vstd::arithmetic::div_mod::lemma_fundamental_div_mod_converse(
        a * den + den / 2,
        den,
        a,
        den / 2,
    );
}

/// At parameter 1 the Bernstein combination collapses to the end
/// coordinate.
proof fn lemma_bez_endpoint_high(a: int, c: int, b: int, n: int)
    requires
        1 <= n,
        0 <= b,
    ensures
        spec_bez_coord(a, c, b, n, n) == b,
{
    let den = n * n;
    assert(0 < den && a * (n - n) * (n - n) == 0 && 2 * c * n * (n - n) == 0 && b * n * n == b
        * den && b * den == den * b) by (nonlinear_arith)
        requires
            1 <= n,
            den == n * n,
    ;
    assert(spec_bez_num(a, c, b, n, n) == b * den);
    vstd::arithmetic::div_mod::lemma_div_pos_is_pos(den, 2);
    vstd::arithmetic::div_mod::lemma_div_decreases(den, 2);
    vstd::arithmetic::div_mod::lemma_fundamental_div_mod_converse(
        b * den + den / 2,
        den,
        b,
        den / 2,
    );
}

} // verus!
