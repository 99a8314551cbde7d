//! Antialiased line drawing on the grayscale canvas.
//!
//! Coverage is computed in fixed point with 256 units to one pixel of
//! distance.  For a pixel at perpendicular distance `d` (in 1/256 pixel
//! units, rounded down) from the nearest point of the closed segment, the
//! coverage is `(thickness + 1) * 128 - d`, clamped to `[0, 256]`: full
//! inside the line core, falling linearly to zero across the one-pixel band
//! centered on the line edge.  The pixel is then blended toward the line
//! color by that coverage, rounding to nearest.

use vstd::arithmetic::div_mod::lemma_div_multiples_vanish;
use vstd::prelude::*;

use crate::bitmap::lemma_row_major_index_in_range;
use crate::bitmap::lemma_row_major_unique;
use crate::bitmap::Bitmap;
use crate::consts::MAX_DIM;

verus! {

/// `r` is the integer square root of `n`, rounded down.
pub open spec fn is_sqrt(n: int, r: int) -> bool {
    0 <= r && r * r <= n && n < (r + 1) * (r + 1)
}

/// The integer square root of `n`, rounded down.
pub open spec fn sqrt_floor(n: int) -> int {
    choose|r: int| is_sqrt(n, r)
}

/// Distance from the point `(px, py)` to the nearest point of the closed
/// segment `(x0, y0)-(x1, y1)`, in 1/256 pixel units rounded down.  The
/// nearest point is found by clamping the projection onto the segment; the
/// segment must not be degenerate.
pub open spec fn dist256(px: int, py: int, x0: int, y0: int, x1: int, y1: int) -> int {
    let dx = x1 - x0;
    let dy = y1 - y0;
    let dd = dx * dx + dy * dy;
    let tnum = (px - x0) * dx + (py - y0) * dy;
    if tnum <= 0 {
        sqrt_floor(65536 * ((px - x0) * (px - x0) + (py - y0) * (py - y0)))
    } else if tnum >= dd {
        sqrt_floor(65536 * ((px - x1) * (px - x1) + (py - y1) * (py - y1)))
    } else {
        let cross = (px - x0) * dy - (py - y0) * dx;
        sqrt_floor(65536 * cross * cross / dd)
    }
}

/// Clamps a raw coverage value into the representable range `[0, 256]`.
pub open spec fn clamp_alpha(v: int) -> int {
    if v < 0 {
        0
    } else if v > 256 {
        256
    } else {
        v
    }
}

/// Coverage of the pixel `(px, py)` by a line of the given thickness along
/// the segment, in 1/256 units: 256 inside the core, zero beyond the
/// antialiasing band.
pub open spec fn line_alpha(
    px: int,
    py: int,
    x0: int,
    y0: int,
    x1: int,
    y1: int,
    thickness: int,
) -> int {
    clamp_alpha((thickness + 1) * 128 - dist256(px, py, x0, y0, x1, y1))
}

/// The value of a pixel holding `old_px` after blending toward `color` with
/// coverage `a` (in 1/256 units), rounded to nearest.
pub open spec fn blend256(old_px: u8, color: u8, a: int) -> int {
    (old_px * (256 - a) + color * a + 128) / 256
}

/// Relates a canvas before and after drawing one line segment: dimensions are
/// kept; a degenerate segment draws nothing; otherwise every pixel is blended
/// toward the line color by its coverage.
pub open spec fn line_pixels(
    pre: Bitmap,
    post: Bitmap,
    x0: int,
    y0: int,
    x1: int,
    y1: int,
    thickness: int,
    color: u8,
) -> bool {
    &&& post.width == pre.width
    &&& post.height == pre.height
    &&& if x0 == x1 && y0 == y1 {
        post.data@ == pre.data@
    } else {
        forall|x: int, y: int|
            0 <= x < pre.width && 0 <= y < pre.height ==> post.pixel(x, y) as int == blend256(
                pre.pixel(x, y),
                color,
                line_alpha(x, y, x0, y0, x1, y1, thickness),
            )
    }
}

proof fn lemma_sqrt_unique(n: int, r1: int, r2: int)
    requires
        is_sqrt(n, r1),
        is_sqrt(n, r2),
    ensures
        r1 == r2,
{
    assert(r1 == r2) by (nonlinear_arith)
        requires
            0 <= r1,
            0 <= r2,
            r1 * r1 <= n,
            n < (r1 + 1) * (r1 + 1),
            r2 * r2 <= n,
            n < (r2 + 1) * (r2 + 1),
    ;
}

/// Any witness of `is_sqrt` is the `sqrt_floor`.
pub proof fn lemma_sqrt_floor_eq(n: int, r: int)
    requires
        is_sqrt(n, r),
    ensures
        sqrt_floor(n) == r,
{
    let w = choose|w: int| is_sqrt(n, w);
    assert(is_sqrt(n, w));
    lemma_sqrt_unique(n, w, r);
}

/// Every nonnegative integer has a rounded-down square root.
pub proof fn lemma_sqrt_exists(n: int)
    requires
        0 <= n,
    ensures
        is_sqrt(n, sqrt_floor(n)),
    decreases n,
{
    if n == 0 {
        assert(is_sqrt(0, 0));
        lemma_sqrt_floor_eq(0, 0);
    } else {
        lemma_sqrt_exists(n - 1);
        let r = sqrt_floor(n - 1);
        if n < (r + 1) * (r + 1) {
            assert(is_sqrt(n, r));
            lemma_sqrt_floor_eq(n, r);
        } else {
            assert(n == (r + 1) * (r + 1));
            assert(n < (r + 2) * (r + 2)) by (nonlinear_arith)
                requires
                    0 <= r,
                    n == (r + 1) * (r + 1),
            ;
            assert(is_sqrt(n, r + 1));
            lemma_sqrt_floor_eq(n, r + 1);
        }
    }
}

/// A square root stays below any bound whose square exceeds the radicand.
proof fn lemma_sqrt_lt(n: int, r: int, b: int)
    requires
        is_sqrt(n, r),
        0 <= b,
        n < b * b,
    ensures
        r < b,
{
    assert(r < b) by (nonlinear_arith)
        requires
            0 <= r,
            r * r <= n,
            0 <= b,
            n < b * b,
    ;
}

/// A square root stays at or above any bound whose square the radicand
/// reaches.
proof fn lemma_sqrt_ge(n: int, r: int, b: int)
    requires
        is_sqrt(n, r),
        0 <= b,
        b * b <= n,
    ensures
        b <= r,
{
    assert(b <= r) by (nonlinear_arith)
        requires
            0 <= r,
            n < (r + 1) * (r + 1),
            0 <= b,
            b * b <= n,
    ;
}

/// The magnitude of a product is bounded by the product of the magnitudes.
proof fn lemma_mul_le(a: int, b: int, ca: int, cb: int)
    requires
        -ca <= a <= ca,
        -cb <= b <= cb,
        0 <= ca,
        0 <= cb,
    ensures
        -(ca * cb) <= a * b <= ca * cb,
{
    assert(-(ca * cb) <= a * b <= ca * cb) by (nonlinear_arith)
        requires
            -ca <= a <= ca,
            -cb <= b <= cb,
            0 <= ca,
            0 <= cb,
    ;
}

/// Integer square root, rounded down, by bisection.
fn isqrt(n: u128) -> (r: u128)
    requires
        n < 0x1000000000000000000000000000000u128,
    ensures
        is_sqrt(n as int, r as int),
        r as int == sqrt_floor(n as int),
{
    let mut lo: u128 = 0;
    let mut hi: u128 = 0x2000000000000000u128;
    proof {
        assert((0x2000000000000000 as int) * (0x2000000000000000 as int)
            == 0x4000000000000000000000000000000) by (nonlinear_arith);
    }
    while lo + 1 < hi
        invariant
            lo < hi <= 0x2000000000000000u128,
            (lo as int) * (lo as int) <= n as int,
            (n as int) < (hi as int) * (hi as int),
        decreases hi - lo,
    {
        let mid: u128 = lo + (hi - lo) / 2;
        proof {
            assert((mid as int) * (mid as int) < 0x4000000000000000000000000000000)
                by (nonlinear_arith)
                requires
                    mid < 0x2000000000000000u128,
            ;
        }
        if mid * mid <= n {
            lo = mid;
        } else {
            hi = mid;
        }
    }
    proof {
        assert(is_sqrt(n as int, lo as int));
        lemma_sqrt_floor_eq(n as int, lo as int);
    }
    lo
}

/// Distance from a grid point to the nearest point of a non-degenerate
/// segment, in 1/256 pixel units rounded down.
fn segment_dist256(px: usize, py: usize, x0: usize, y0: usize, x1: usize, y1: usize) -> (d: u64)
    requires
        px <= MAX_DIM,
        py <= MAX_DIM,
        x0 <= MAX_DIM,
        y0 <= MAX_DIM,
        x1 <= MAX_DIM,
        y1 <= MAX_DIM,
        !(x0 == x1 && y0 == y1),
    ensures
        d as int == dist256(px as int, py as int, x0 as int, y0 as int, x1 as int, y1 as int),
{
    let pxi: i64 = px as i64;
    let pyi: i64 = py as i64;
    let x0i: i64 = x0 as i64;
    let y0i: i64 = y0 as i64;
    let x1i: i64 = x1 as i64;
    let y1i: i64 = y1 as i64;
    let dx: i64 = x1i - x0i;
    let dy: i64 = y1i - y0i;
    proof {
        lemma_mul_le(dx as int, dx as int, 32768, 32768);
        lemma_mul_le(dy as int, dy as int, 32768, 32768);
    }
    let dd: i64 = dx * dx + dy * dy;
    proof {
        assert(dd > 0) by (nonlinear_arith)
            requires
                dd == (dx as int) * (dx as int) + (dy as int) * (dy as int),
                !(dx == 0i64 && dy == 0i64),
        ;
    }
    let u: i64 = pxi - x0i;
    let v: i64 = pyi - y0i;
    proof {
        lemma_mul_le(u as int, dx as int, 65536, 32768);
        lemma_mul_le(v as int, dy as int, 65536, 32768);
    }
    let tnum: i64 = u * dx + v * dy;
    if tnum <= 0 {
        proof {
            lemma_mul_le(u as int, u as int, 65536, 65536);
            lemma_mul_le(v as int, v as int, 65536, 65536);
            assert((u as int) * (u as int) >= 0) by (nonlinear_arith);
            assert((v as int) * (v as int) >= 0) by (nonlinear_arith);
        }
        let q: i64 = u * u + v * v;
        let n: u128 = (q as u128) * 65536;
        let r = isqrt(n);
        proof {
            lemma_sqrt_lt(n as int, r as int, 0x10000000000);
        }
        r as u64
    } else if tnum >= dd {
        let u1: i64 = pxi - x1i;
        let v1: i64 = pyi - y1i;
        proof {
            lemma_mul_le(u1 as int, u1 as int, 65536, 65536);
            lemma_mul_le(v1 as int, v1 as int, 65536, 65536);
            assert((u1 as int) * (u1 as int) >= 0) by (nonlinear_arith);
            assert((v1 as int) * (v1 as int) >= 0) by (nonlinear_arith);
        }
        let q: i64 = u1 * u1 + v1 * v1;
        let n: u128 = (q as u128) * 65536;
        let r = isqrt(n);
        proof {
            lemma_sqrt_lt(n as int, r as int, 0x10000000000);
        }
        r as u64
    } else {
        proof {
            lemma_mul_le(u as int, dy as int, 65536, 32768);
            lemma_mul_le(v as int, dx as int, 65536, 32768);
        }
        let cross: i64 = u * dy - v * dx;
        let c: i128 = cross as i128;
        proof {
            lemma_mul_le(c as int, c as int, 0x100000000, 0x100000000);
            assert((c as int) * (c as int) >= 0) by (nonlinear_arith);
        }
        let sq: i128 = c * c;
        let num: i128 = 65536 * sq;
        let qq: i128 = num / (dd as i128);
        proof {
            assert(0 <= qq <= num) by (nonlinear_arith)
                requires
                    qq == (num as int) / (dd as int),
                    num >= 0,
                    dd >= 1,
            ;
            assert(65536 * (cross as int) * (cross as int) == num) by (nonlinear_arith)
                requires
                    num == 65536 * ((cross as int) * (cross as int)),
            ;
        }
        let r = isqrt(qq as u128);
        proof {
            lemma_sqrt_lt(qq as int, r as int, 0x10000000000000);
        }
        r as u64
    }
}

/// Coverage of a pixel at the given fixed-point distance from a line of the
/// given thickness.
fn coverage256(thickness: u32, d256: u64) -> (a: u32)
    ensures
        a as int == clamp_alpha((thickness as int + 1) * 128 - d256 as int),
        a <= 256,
{
    let reach: u64 = (thickness as u64 + 1) * 128;
    if d256 >= reach {
        0
    } else {
        let raw: u64 = reach - d256;
        if raw > 256 {
            256
        } else {
            raw as u32
        }
    }
}

impl Bitmap {
    /// Blends one pixel toward `color` by coverage `alpha` (1/256 units),
    /// rounding to nearest; coordinates outside the surface are ignored.
    pub fn blend_pixel(&mut self, x: usize, y: usize, color: u8, alpha: u32)
        requires
            old(self).wf(),
            alpha <= 256,
        ensures
            final(self).wf(),
            final(self).width == old(self).width,
            final(self).height == old(self).height,
            x < old(self).width && y < old(self).height ==> final(self).data@ == old(
                self,
            ).data@.update(
                y * old(self).width + x,
                blend256(old(self).pixel(x as int, y as int), color, alpha as int) as u8,
            ),
            !(x < old(self).width && y < old(self).height) ==> final(self).data@ == old(
                self,
            ).data@,
    {
        if x < self.width && y < self.height {
            let existing: u8 = self.get_pixel(x, y);
            proof {
                assert((existing as int) * (256 - alpha) + (color as int) * (alpha as int)
                    <= 65280) by (nonlinear_arith)
                    requires
                        existing <= 255,
                        color <= 255,
                        0 <= alpha <= 256,
                ;
            }
            let num: u32 = (existing as u32) * (256 - alpha) + (color as u32) * alpha + 128;
            let nv: u32 = num / 256;
            let new_value: u8 = nv as u8;
            self.set_pixel(x, y, new_value);
        }
    }

    /// Draws an antialiased line segment of the given thickness (in pixels)
    /// and color.  A degenerate (zero-length) segment is a no-op.  Every
    /// pixel of the canvas is blended toward the color by its coverage, as
    /// `line_pixels` states.
    pub fn draw_line(&mut self, x0: usize, y0: usize, x1: usize, y1: usize, thickness: u32, color: u8)
        requires
            old(self).wf(),
            old(self).width <= MAX_DIM,
            old(self).height <= MAX_DIM,
            x0 <= MAX_DIM,
            y0 <= MAX_DIM,
            x1 <= MAX_DIM,
            y1 <= MAX_DIM,
        ensures
            final(self).wf(),
            final(self).width == old(self).width,
            final(self).height == old(self).height,
            line_pixels(
                *old(self),
                *final(self),
                x0 as int,
                y0 as int,
                x1 as int,
                y1 as int,
                thickness as int,
                color,
            ),
    {
        if x0 == x1 && y0 == y1 {
            return ;
        }
        let ghost base = *self;
        let mut y: usize = 0;
        while y < self.height
            invariant
                base.wf(),
                base.width <= MAX_DIM,
                base.height <= MAX_DIM,
                x0 <= MAX_DIM,
                y0 <= MAX_DIM,
                x1 <= MAX_DIM,
                y1 <= MAX_DIM,
                !(x0 == x1 && y0 == y1),
                y <= base.height,
                self.wf(),
                self.width == base.width,
                self.height == base.height,
                forall|xx: int, yy: int|
                    0 <= xx < base.width && 0 <= yy < base.height ==> self.pixel(xx, yy) as int
                        == (if yy < y {
                        blend256(
                            base.pixel(xx, yy),
                            color,
                            line_alpha(
                                xx,
                                yy,
                                x0 as int,
                                y0 as int,
                                x1 as int,
                                y1 as int,
                                thickness as int,
                            ),
                        )
                    } else {
                        base.pixel(xx, yy) as int
                    }),
            decreases base.height - y,
        {
            let mut x: usize = 0;
            while x < self.width
                invariant
                    base.wf(),
                    base.width <= MAX_DIM,
                    base.height <= MAX_DIM,
                    x0 <= MAX_DIM,
                    y0 <= MAX_DIM,
                    x1 <= MAX_DIM,
                    y1 <= MAX_DIM,
                    !(x0 == x1 && y0 == y1),
                    y < base.height,
                    x <= base.width,
                    self.wf(),
                    self.width == base.width,
                    self.height == base.height,
                    forall|xx: int, yy: int|
                        0 <= xx < base.width && 0 <= yy < base.height ==> self.pixel(xx, yy) as int
                            == (if yy < y || (yy == y && xx < x) {
                            blend256(
                                base.pixel(xx, yy),
                                color,
                                line_alpha(
                                    xx,
                                    yy,
                                    x0 as int,
                                    y0 as int,
                                    x1 as int,
                                    y1 as int,
                                    thickness as int,
                                ),
                            )
                        } else {
                            base.pixel(xx, yy) as int
                        }),
                decreases base.width - x,
            {
                let d = segment_dist256(x, y, x0, y0, x1, y1);
                let a = coverage256(thickness, d);
                let ghost before = *self;
                self.blend_pixel(x, y, color, a);
                proof {
                    assert forall|xx: int, yy: int|
                        0 <= xx < base.width && 0 <= yy < base.height implies self.pixel(xx, yy)
                        as int == (if yy < y || (yy == y && xx < x + 1) {
                        blend256(
                            base.pixel(xx, yy),
                            color,
                            line_alpha(
                                xx,
                                yy,
                                x0 as int,
                                y0 as int,
                                x1 as int,
                                y1 as int,
                                thickness as int,
                            ),
                        )
                    } else {
                        base.pixel(xx, yy) as int
                    }) by {
                        let unchanged = before.pixel(xx, yy);
                        let written = before.pixel(x as int, y as int);
                        lemma_blend_bound(
                            base.pixel(x as int, y as int),
                            color,
                            line_alpha(
                                x as int,
                                y as int,
                                x0 as int,
                                y0 as int,
                                x1 as int,
                                y1 as int,
                                thickness as int,
                            ),
                        );
                        lemma_row_major_index_in_range(
                            self.width as int,
                            self.height as int,
                            xx,
                            yy,
                        );
                        lemma_row_major_index_in_range(
                            self.width as int,
                            self.height as int,
                            x as int,
                            y as int,
                        );
                        lemma_row_major_unique(self.width as int, xx, yy, x as int, y as int);
                    }
                }
                x = x + 1;
            }
            y = y + 1;
        }
    }
}

/// A blended pixel value stays within one byte.
pub proof fn lemma_blend_bound(old_px: u8, color: u8, a: int)
    requires
        0 <= a <= 256,
    ensures
        0 <= blend256(old_px, color, a) <= 255,
{
    assert((old_px as int) * (256 - a) + (color as int) * a + 128 <= 65408) by (nonlinear_arith)
        requires
            old_px <= 255,
            color <= 255,
            0 <= a <= 256,
    ;
}

/// Blending with full coverage lands exactly on the line color.
pub proof fn lemma_blend_full(old_px: u8, color: u8)
    ensures
        blend256(old_px, color, 256) == color as int,
{
}

/// Blending with zero coverage leaves the pixel unchanged.
pub proof fn lemma_blend_zero(old_px: u8, color: u8)
    ensures
        blend256(old_px, color, 0) == old_px as int,
{
}

/// Coverage of a grid pixel by a horizontal one-pixel-thick line: full on the
/// pixels of the segment itself, zero on every other grid pixel (which lies
/// at distance one or more).
proof fn lemma_hairline_alpha(px: int, py: int, x0: int, y0: int, x1: int)
    requires
        x0 < x1,
    ensures
        py == y0 && x0 <= px <= x1 ==> line_alpha(px, py, x0, y0, x1, y0, 1) == 256,
        !(py == y0 && x0 <= px <= x1) ==> line_alpha(px, py, x0, y0, x1, y0, 1) == 0,
{
    let dx = x1 - x0;
    let dd = dx * dx;
    let u = px - x0;
    let v = py - y0;
    let tnum = u * dx;
    assert(dd > 0) by (nonlinear_arith)
        requires
            dx >= 1,
            dd == dx * dx,
    ;
    if px <= x0 {
        assert(tnum <= 0) by (nonlinear_arith)
            requires
                u <= 0,
                dx >= 1,
                tnum == u * dx,
        ;
        let q = u * u + v * v;
        if px == x0 && py == y0 {
            lemma_sqrt_floor_eq(0, 0);
        } else {
            assert(q >= 1) by (nonlinear_arith)
                requires
                    q == u * u + v * v,
                    !(u == 0 && v == 0),
            ;
            lemma_sqrt_exists(65536 * q);
            lemma_sqrt_ge(65536 * q, sqrt_floor(65536 * q), 256);
        }
    } else if px >= x1 {
        assert(tnum >= dd && tnum > 0) by (nonlinear_arith)
            requires
                u >= dx >= 1,
                tnum == u * dx,
                dd == dx * dx,
        ;
        let u1 = px - x1;
        let q = u1 * u1 + v * v;
        if px == x1 && py == y0 {
            lemma_sqrt_floor_eq(0, 0);
        } else {
            assert(q >= 1) by (nonlinear_arith)
                requires
                    q == u1 * u1 + v * v,
                    !(u1 == 0 && v == 0),
            ;
            lemma_sqrt_exists(65536 * q);
            lemma_sqrt_ge(65536 * q, sqrt_floor(65536 * q), 256);
        }
    } else {
        assert(0 < tnum < dd) by (nonlinear_arith)
            requires
                1 <= u,
                u <= dx - 1,
                dx >= 1,
                tnum == u * dx,
                dd == dx * dx,
        ;
        let cross = u * 0 - v * dx;
        assert(cross * cross == (v * v) * (dx * dx)) by (nonlinear_arith)
            requires
                cross == u * 0 - v * dx,
        ;
        let sq = 65536 * cross * cross;
        assert(sq == (65536 * (v * v)) * dd) by (nonlinear_arith)
            requires
                cross * cross == (v * v) * (dx * dx),
                sq == 65536 * cross * cross,
                dd == dx * dx,
        ;
        lemma_div_multiples_vanish(65536 * (v * v), dd);
        assert(sq / dd == 65536 * (v * v));
        if py == y0 {
            lemma_sqrt_floor_eq(0, 0);
        } else {
            assert(v * v >= 1) by (nonlinear_arith)
                requires
                    v != 0,
            ;
            assert(65536 * (v * v) >= 65536);
            lemma_sqrt_exists(65536 * (v * v));
            lemma_sqrt_ge(65536 * (v * v), sqrt_floor(65536 * (v * v)), 256);
        }
    }
}

/// A horizontal line of thickness one is pixel-exact: drawing it sets the
/// grid pixels of the segment itself to the line color and leaves every
/// other pixel of the canvas unchanged, because every off-segment grid pixel
/// lies at distance one or more from the segment, where coverage is zero.
pub proof fn lemma_hairline_exact(pre: Bitmap, post: Bitmap, x0: int, y0: int, x1: int, color: u8)
    requires
        x0 < x1,
        line_pixels(pre, post, x0, y0, x1, y0, 1, color),
    ensures
        forall|x: int, y: int|
            0 <= x < pre.width && 0 <= y < pre.height ==> post.pixel(x, y) as int == (if y == y0
                && x0 <= x <= x1 {
                color as int
            } else {
                pre.pixel(x, y) as int
            }),
{
    assert forall|x: int, y: int|
        0 <= x < pre.width && 0 <= y < pre.height implies post.pixel(x, y) as int == (if y == y0
        && x0 <= x <= x1 {
        color as int
    } else {
        pre.pixel(x, y) as int
    }) by {
        lemma_hairline_alpha(x, y, x0, y0, x1);
        lemma_blend_full(pre.pixel(x, y), color);
        lemma_blend_zero(pre.pixel(x, y), color);
    }
}

} // verus!
