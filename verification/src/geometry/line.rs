//! Drawing a straight segment by stepping a parameter from 0 towards 1.
//!
//! The number of steps is the width of the surface, not the length of the
//! segment: a short steep segment visits the same cell many times, a long
//! one on a narrow surface may leave cells out.

use vstd::prelude::*;
use crate::fixed::{floor_quotient, fx_finite, fx_is_finite, ONE};
use crate::geometry::types::Vec2f;
use crate::surface::{in_grid, Color, Surface, SurfaceView};

verus! {

/// The parameter of step `i` out of `n`: `i / n` in units of `2^-32`,
/// rounded down.
pub open spec fn step_param(i: int, n: int) -> int {
    (i * ONE) / n
}

/// The coordinate a fraction `t` of the way from `a` to `b`, for `t` in
/// units of `2^-32`: `a + (b - a) * t`, taken exactly and rounded down.
pub open spec fn lerp(a: i64, b: i64, t: int) -> int {
    a + ((b - a) * t) / (ONE as int)
}

/// The index of the pixel column or row that holds the coordinate `c`.
pub open spec fn pixel_of(c: int) -> int {
    c / (ONE as int)
}

/// The cell that step `i` out of `n` falls into.
pub open spec fn line_sample(start: Vec2f, stop: Vec2f, n: int, i: int) -> (int, int) {
    (
        pixel_of(lerp(start.x, stop.x, step_param(i, n))),
        pixel_of(lerp(start.y, stop.y, step_param(i, n))),
    )
}

/// Whether both ends of a segment are finite.
pub open spec fn ends_finite(start: Vec2f, stop: Vec2f) -> bool {
    fx_finite(start.x) && fx_finite(start.y) && fx_finite(stop.x) && fx_finite(stop.y)
}

/// Whether the segment has finite ends and one of the first `k` steps out
/// of `n` falls into the cell `(x, y)`.
pub open spec fn sampled_before(start: Vec2f, stop: Vec2f, n: int, k: int, x: int, y: int) -> bool {
    ends_finite(start, stop) && exists|i: int|
        0 <= i < k && #[trigger] line_sample(start, stop, n, i) == (x, y)
}

/// The surface after the segment from `start` to `stop` has been drawn in
/// `color`: every cell that one of the `width` steps falls into takes the
/// color, every other cell keeps its own. A segment with an end that is
/// not finite is not drawn.
pub open spec fn stroke(s: SurfaceView, start: Vec2f, stop: Vec2f, color: Color) -> SurfaceView {
    SurfaceView {
        width: s.width,
        height: s.height,
        pixels: Map::new(
            |p: (int, int)| s.pixels.dom().contains(p),
            |p: (int, int)|
                if sampled_before(start, stop, s.width, s.width, p.0, p.1) {
                    color
                } else {
                    s.pixels[p]
                },
        ),
    }
}

/// The pixel index of the coordinate a fraction `t` of the way from `a` to `b`.
fn sample_index(a: i64, b: i64, t: i128) -> (n: i128)
    requires
        fx_finite(a),
        fx_finite(b),
        0 <= t < ONE,
    ensures
        n == pixel_of(lerp(a, b, t as int)),
{
    let d: i128 = b as i128 - a as i128;
    assert(-0x8000_0000_0000_0000_0000_0000 <= d * t <= 0x8000_0000_0000_0000_0000_0000)
        by (nonlinear_arith)
        requires
            -0x8000_0000_0000_0000 <= d <= 0x8000_0000_0000_0000,
            0 <= t < 0x1_0000_0000,
    ;
    let c: i128 = a as i128 + floor_quotient(d * t, ONE as i128);
    floor_quotient(c, ONE as i128)
}

/// Draws the segment from `start` to `stop` in `color`, one sample for each of
/// `width` parameter steps; samples that fall outside the surface are skipped.
pub fn draw_line(start: Vec2f, stop: Vec2f, color: Color, surface: &mut Surface)
    ensures
        final(surface)@ == stroke(old(surface)@, start, stop, color),
{
    let width: u32 = surface.width();
    let height: u32 = surface.height();
    let ghost s0 = surface@;
    if !(fx_is_finite(start.x) && fx_is_finite(start.y) && fx_is_finite(stop.x) && fx_is_finite(
        stop.y,
    )) {
        assert(surface@.pixels =~= stroke(s0, start, stop, color).pixels);
        return ;
    }
    let mut i: u32 = 0;
    while i < width
        invariant
            i <= width,
            ends_finite(start, stop),
            s0.width == width,
            s0.height == height,
            surface@.width == width,
            surface@.height == height,
            surface@.pixels.dom() == s0.pixels.dom(),
            forall|x: int, y: int| #[trigger]
                in_grid(width as int, height as int, x, y) ==> surface@.pixels[(x, y)] == (
                if sampled_before(start, stop, width as int, i as int, x, y) {
                    color
                } else {
                    s0.pixels[(x, y)]
                }),
        decreases width - i,
    {
        assert(i * ONE == i * 0x1_0000_0000);
        let t: i128 = ((i as i128) * (ONE as i128)) / (width as i128);
        assert(0 <= t < ONE) by {
            assert(0 <= (i * ONE) / (width as int) < ONE) by (nonlinear_arith)
                requires
                    0 <= i < width,
                    ONE == 0x1_0000_0000,
            ;
        }
        let x: i128 = sample_index(start.x, stop.x, t);
        let y: i128 = sample_index(start.y, stop.y, t);
        let ghost before = surface@;
        assert(line_sample(start, stop, width as int, i as int) == (x as int, y as int));
        if 0 <= x && x < width as i128 && 0 <= y && y < height as i128 {
            surface.put_pixel(x as u32, y as u32, color);
        }
        proof {
            assert forall|a: int, b: int| #[trigger]
                in_grid(width as int, height as int, a, b) implies surface@.pixels[(a, b)] == (
            if sampled_before(start, stop, width as int, i + 1, a, b) {
                color
            } else {
                s0.pixels[(a, b)]
            }) by {
                assert(before.pixels[(a, b)] == (if sampled_before(
                    start,
                    stop,
                    width as int,
                    i as int,
                    a,
                    b,
                ) {
                    color
                } else {
                    s0.pixels[(a, b)]
                }));
                if sampled_before(start, stop, width as int, i as int, a, b) {
                    let w = choose|w: int|
                        0 <= w < i && #[trigger] line_sample(start, stop, width as int, w) == (
                            a,
                            b,
                        );
                    assert(0 <= w < i + 1 && line_sample(start, stop, width as int, w) == (a, b));
                }
                if sampled_before(start, stop, width as int, i + 1, a, b) && !sampled_before(
                    start,
                    stop,
                    width as int,
                    i as int,
                    a,
                    b,
                ) {
                    let w = choose|w: int|
                        0 <= w < i + 1 && #[trigger] line_sample(start, stop, width as int, w) == (
                            a,
                            b,
                        );
                    assert(w == i);
                }
            }
        }
        i += 1;
    }
    assert(surface@.pixels =~= stroke(s0, start, stop, color).pixels) by {
        assert forall|p: (int, int)| surface@.pixels.dom().contains(p) implies surface@.pixels[p]
            == stroke(s0, start, stop, color).pixels[p] by {
            assert(in_grid(width as int, height as int, p.0, p.1));
        }
    }
}

} // verus!
