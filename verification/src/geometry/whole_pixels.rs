//! How the fill relates to exact geometry.
//!
//! The barycentric weights are read off a cross product that is taken
//! exactly, and a quotient rounded down keeps the sign of the exact
//! quotient. So the triangle produces a fragment at a cell exactly when
//! the cell lies in the closed triangle, for all finite vertices.

use vstd::prelude::*;
use vstd::arithmetic::div_mod::lemma_fundamental_div_mod;
use crate::fixed::{fx_finite, ONE};
use crate::frame::{Frame, FAR};
use crate::geometry::closed_triangle::{
    exact_cross, in_closed_triangle, lemma_closed_triangle_is_in_box, lemma_edge_is_inside,
    lemma_negated_sum, lemma_sign_follows_divisor, lemma_weighted_position, on_an_edge,
};
use crate::geometry::fill_lemmas::lemma_fill_cell;
use crate::geometry::triangle::{
    barycentric_spec, covers, degenerate, doubled_area, edge_cross, fill, in_box, inside,
    pixel_coord, pixel_point, placed, weight, AREA_UNIT,
};
use crate::geometry::types::Vec3f;
use crate::geometry::vector_lemmas::{lemma_screen_coord_range, magnitude_of};
use crate::surface::{in_grid, Color};

verus! {

/// How a quotient rounded down compares with zero.
proof fn lemma_floor_quotient_sign(n: int, d: int)
    requires
        0 < d,
    ensures
        n / d >= 0 <==> n >= 0,
{
    let q = n / d;
    let r = n % d;
    lemma_fundamental_div_mod(n, d);
    assert((q >= 0) <==> (d * q + r >= 0)) by (nonlinear_arith)
        requires
            0 < d,
            0 <= r < d,
    ;
}

/// A weight is negative exactly when the exact quotient of its numerator
/// and the doubled area is.
proof fn lemma_weight_sign(n: int, uz: int)
    requires
        !(-AREA_UNIT < uz < AREA_UNIT),
    ensures
        uz != 0,
        weight(n, uz / (ONE as int)) >= 0 <==> n * uz >= 0,
{
    let o = 0x1_0000_0000int;
    assert(ONE == o);
    let d = uz / o;
    lemma_floor_quotient_sign(uz, o);
    assert(uz != 0);
    assert((d > 0 && uz > 0) || (d < 0 && uz < 0));
    if d > 0 {
        lemma_floor_quotient_sign(n, d);
        assert((n >= 0) <==> (n * uz >= 0)) by (nonlinear_arith)
            requires
                uz > 0,
        ;
    } else {
        lemma_floor_quotient_sign(-n, -d);
        assert((-n >= 0) <==> (n * uz >= 0)) by (nonlinear_arith)
            requires
                uz < 0,
        ;
    }
}

/// The weights are exact in sign: for a triangle with area and finite
/// coordinates, no weight of a finite point is negative exactly when the
/// point lies in the closed triangle.
pub proof fn lemma_weights_are_exact(v0: Vec3f, v1: Vec3f, v2: Vec3f, p: Vec3f)
    requires
        placed(v0) && placed(v1) && placed(v2) && placed(p),
        !degenerate(v0, v1, v2),
    ensures
        inside(barycentric_spec(v0, v1, v2, p)) <==> in_closed_triangle(
            v0.x as int,
            v0.y as int,
            v1.x as int,
            v1.y as int,
            v2.x as int,
            v2.y as int,
            p.x as int,
            p.y as int,
        ),
{
    let u = edge_cross(v0, v1, v2, p);
    assert(u.2 == edge_cross(v0, v1, v2, v0).2);
    lemma_weight_sign(u.2 - u.0 - u.1, u.2);
    lemma_weight_sign(u.1, u.2);
    lemma_weight_sign(u.0, u.2);
}

/// A factor that is positive can be cancelled from a strict inequality.
proof fn lemma_cancel(d: int, a: int, b: int)
    requires
        d > 0,
        d * a < d * b,
    ensures
        a < b,
{
    assert(a < b) by (nonlinear_arith)
        requires
            d > 0,
            d * a < d * b,
    ;
}

/// Three quotients by `d`, each rounded down, of numerators that are not
/// negative and add up to a number between `d * one - d` and `d * one + d`:
/// their sum is within three of `one`, and none is above `one`.
proof fn lemma_quotients_sum(n0: int, n1: int, n2: int, d: int, one: int)
    requires
        d > 0,
        n0 >= 0 && n1 >= 0 && n2 >= 0,
        d * one - d < n0 + n1 + n2 < d * one + d,
    ensures
        one - 3 <= n0 / d + n1 / d + n2 / d <= one,
        0 <= n0 / d <= one,
        0 <= n1 / d <= one,
        0 <= n2 / d <= one,
{
    let (q0, q1, q2) = (n0 / d, n1 / d, n2 / d);
    let (r0, r1, r2) = (n0 % d, n1 % d, n2 % d);
    lemma_fundamental_div_mod(n0, d);
    lemma_fundamental_div_mod(n1, d);
    lemma_fundamental_div_mod(n2, d);
    lemma_floor_quotient_sign(n0, d);
    lemma_floor_quotient_sign(n1, d);
    lemma_floor_quotient_sign(n2, d);
    let q = q0 + q1 + q2;
    assert(d * q == d * q0 + d * q1 + d * q2) by (nonlinear_arith)
        requires
            q == q0 + q1 + q2,
    ;
    assert(d * (one + 1) == d * one + d && d * (one - 4) == d * one - 4 * d) by (nonlinear_arith);
    lemma_cancel(d, q, one + 1);
    lemma_cancel(d, one - 4, q);
}

/// The weights of a point of the closed triangle lie between zero and one
/// and add up to one, to within three units of the last place.
pub proof fn lemma_weights_sum_to_one(v0: Vec3f, v1: Vec3f, v2: Vec3f, p: Vec3f)
    requires
        placed(v0) && placed(v1) && placed(v2) && placed(p),
        !degenerate(v0, v1, v2),
        in_closed_triangle(
            v0.x as int,
            v0.y as int,
            v1.x as int,
            v1.y as int,
            v2.x as int,
            v2.y as int,
            p.x as int,
            p.y as int,
        ),
    ensures
        ({
            let w = barycentric_spec(v0, v1, v2, p);
            &&& ONE - 3 <= w.x + w.y + w.z <= ONE
            &&& 0 <= w.x <= ONE
            &&& 0 <= w.y <= ONE
            &&& 0 <= w.z <= ONE
        }),
{
    let o = 0x1_0000_0000int;
    assert(ONE == o);
    let u = edge_cross(v0, v1, v2, p);
    assert(u.2 == edge_cross(v0, v1, v2, v0).2);
    let uz = u.2;
    let d = uz / o;
    let (n0, n1, n2) = (uz - u.0 - u.1, u.1, u.0);
    lemma_weight_sign(n0, uz);
    lemma_fundamental_div_mod(uz, o);
    lemma_floor_quotient_sign(uz, o);
    lemma_sign_follows_divisor(n0, uz);
    lemma_sign_follows_divisor(n1, uz);
    lemma_sign_follows_divisor(n2, uz);
    if d > 0 {
        assert(o * d == d * o) by (nonlinear_arith);
        lemma_quotients_sum(n0, n1, n2, d, o);
    } else {
        assert(o * d == -((-d) * o)) by (nonlinear_arith);
        lemma_quotients_sum(-n0, -n1, -n2, -d, o);
    }
}

/// The product of a remainder below `d` and a number is at most `d` times
/// the magnitude of the number.
proof fn lemma_remainder_term(r: int, d: int, x: int)
    requires
        -d < r < d,
    ensures
        -(d * magnitude_of(x)) <= r * x <= d * magnitude_of(x),
{
    assert(-(d * magnitude_of(x)) <= r * x <= d * magnitude_of(x)) by (nonlinear_arith)
        requires
            -d < r < d,
            magnitude_of(x) == x || magnitude_of(x) == -x,
            magnitude_of(x) >= 0,
    ;
}

/// Three quotients by `d`, each rounded down, of numerators that add up to
/// nearly `d * one` and whose weighted sum of `x0`, `x1`, `x2` is the total
/// times `px`: the quotients, as weights of the three values, give `px`
/// back to within the magnitudes of the four numbers, in units of `1 / one`.
proof fn lemma_rebuilt_coordinate(
    n0: int,
    n1: int,
    n2: int,
    d: int,
    one: int,
    x0: int,
    x1: int,
    x2: int,
    px: int,
)
    requires
        0 < one <= d,
        d * one - one < n0 + n1 + n2 < d * one + one,
        (n0 + n1 + n2) * px == n0 * x0 + n1 * x1 + n2 * x2,
    ensures
        magnitude_of((n0 / d) * x0 + (n1 / d) * x1 + (n2 / d) * x2 - one * px) <= magnitude_of(x0)
            + magnitude_of(x1) + magnitude_of(x2) + magnitude_of(px),
{
    let (w0, w1, w2) = (n0 / d, n1 / d, n2 / d);
    let (r0, r1, r2) = (n0 % d, n1 % d, n2 % d);
    lemma_fundamental_div_mod(n0, d);
    lemma_fundamental_div_mod(n1, d);
    lemma_fundamental_div_mod(n2, d);
    let e = n0 + n1 + n2 - d * one;
    let t = w0 * x0 + w1 * x1 + w2 * x2 - one * px;
    let (p0, p1, p2) = (w0 * x0, w1 * x1, w2 * x2);
    let q = one * px;
    let total = n0 + n1 + n2;
    assert(d * t == d * p0 + d * p1 + d * p2 - d * q) by (nonlinear_arith)
        requires
            t == p0 + p1 + p2 - q,
    ;
    assert(d * p0 == n0 * x0 - r0 * x0) by {
        assert(d * (w0 * x0) == (d * w0) * x0) by (nonlinear_arith);
        assert((d * w0) * x0 == n0 * x0 - r0 * x0) by (nonlinear_arith)
            requires
                n0 == d * w0 + r0,
        ;
    }
    assert(d * p1 == n1 * x1 - r1 * x1) by {
        assert(d * (w1 * x1) == (d * w1) * x1) by (nonlinear_arith);
        assert((d * w1) * x1 == n1 * x1 - r1 * x1) by (nonlinear_arith)
            requires
                n1 == d * w1 + r1,
        ;
    }
    assert(d * p2 == n2 * x2 - r2 * x2) by {
        assert(d * (w2 * x2) == (d * w2) * x2) by (nonlinear_arith);
        assert((d * w2) * x2 == n2 * x2 - r2 * x2) by (nonlinear_arith)
            requires
                n2 == d * w2 + r2,
        ;
    }
    assert(total * px == d * q + e * px) by {
        assert(d * (one * px) == (d * one) * px) by (nonlinear_arith);
        assert(total * px == (d * one) * px + e * px) by (nonlinear_arith)
            requires
                total == d * one + e,
        ;
    }
    assert(d * t == e * px - (r0 * x0 + r1 * x1 + r2 * x2));
    lemma_remainder_term(e, d, px);
    lemma_remainder_term(r0, d, x0);
    lemma_remainder_term(r1, d, x1);
    lemma_remainder_term(r2, d, x2);
    let bound = magnitude_of(x0) + magnitude_of(x1) + magnitude_of(x2) + magnitude_of(px);
    assert(d * bound == d * magnitude_of(x0) + d * magnitude_of(x1) + d * magnitude_of(x2) + d
        * magnitude_of(px)) by (nonlinear_arith)
        requires
            bound == magnitude_of(x0) + magnitude_of(x1) + magnitude_of(x2) + magnitude_of(px),
    ;
    assert(-bound <= t <= bound) by (nonlinear_arith)
        requires
            d > 0,
            -(d * bound) <= d * t <= d * bound,
    ;
}

/// The weights of a point of the closed triangle give the point back: the
/// sum of the vertices, each times its weight, is the point to within the
/// magnitudes of the four coordinates times `2^-32`.
pub proof fn lemma_weights_give_the_point_back(v0: Vec3f, v1: Vec3f, v2: Vec3f, p: Vec3f)
    requires
        placed(v0) && placed(v1) && placed(v2) && placed(p),
        !degenerate(v0, v1, v2),
        in_closed_triangle(
            v0.x as int,
            v0.y as int,
            v1.x as int,
            v1.y as int,
            v2.x as int,
            v2.y as int,
            p.x as int,
            p.y as int,
        ),
    ensures
        ({
            let w = barycentric_spec(v0, v1, v2, p);
            &&& magnitude_of(w.x * v0.x + w.y * v1.x + w.z * v2.x - ONE * p.x) <= magnitude_of(
                v0.x as int,
            ) + magnitude_of(v1.x as int) + magnitude_of(v2.x as int) + magnitude_of(p.x as int)
            &&& magnitude_of(w.x * v0.y + w.y * v1.y + w.z * v2.y - ONE * p.y) <= magnitude_of(
                v0.y as int,
            ) + magnitude_of(v1.y as int) + magnitude_of(v2.y as int) + magnitude_of(p.y as int)
        }),
{
    let o = 0x1_0000_0000int;
    assert(ONE == o);
    lemma_weights_sum_to_one(v0, v1, v2, p);
    let u = edge_cross(v0, v1, v2, p);
    assert(u.2 == edge_cross(v0, v1, v2, v0).2);
    let uz = u.2;
    let d = uz / o;
    let (n0, n1, n2) = (uz - u.0 - u.1, u.1, u.0);
    lemma_weight_sign(n0, uz);
    lemma_fundamental_div_mod(uz, o);
    lemma_floor_quotient_sign(uz, o);
    lemma_weighted_position(
        v0.x as int,
        v0.y as int,
        v1.x as int,
        v1.y as int,
        v2.x as int,
        v2.y as int,
        p.x as int,
        p.y as int,
    );
    let (x0, x1, x2, px) = (v0.x as int, v1.x as int, v2.x as int, p.x as int);
    let (y0, y1, y2, py) = (v0.y as int, v1.y as int, v2.y as int, p.y as int);
    if d > 0 {
        assert(o * d == d * o) by (nonlinear_arith);
        lemma_rebuilt_coordinate(n0, n1, n2, d, o, x0, x1, x2, px);
        lemma_rebuilt_coordinate(n0, n1, n2, d, o, y0, y1, y2, py);
    } else {
        assert(o * d == -((-d) * o)) by (nonlinear_arith);
        lemma_negated_sum(n0, n1, n2, x0, x1, x2, px);
        lemma_negated_sum(n0, n1, n2, y0, y1, y2, py);
        lemma_rebuilt_coordinate(-n0, -n1, -n2, -d, o, x0, x1, x2, px);
        lemma_rebuilt_coordinate(-n0, -n1, -n2, -d, o, y0, y1, y2, py);
    }
}

/// The fill is exact: the triangle produces a fragment at a cell of the
/// surface exactly when its vertices are finite, it has area, and the cell
/// lies in the closed triangle.
pub proof fn lemma_cover_is_exact(
    v0: Vec3f,
    v1: Vec3f,
    v2: Vec3f,
    width: int,
    height: int,
    x: int,
    y: int,
)
    ensures
        covers(v0, v1, v2, width, height, x, y) <==> {
            &&& in_grid(width, height, x, y)
            &&& v0.finite() && v1.finite() && v2.finite()
            &&& !degenerate(v0, v1, v2)
            &&& in_closed_triangle(
                v0.x as int,
                v0.y as int,
                v1.x as int,
                v1.y as int,
                v2.x as int,
                v2.y as int,
                pixel_coord(x),
                pixel_coord(y),
            )
        },
{
    let p = pixel_point(x, y);
    if v0.finite() && v1.finite() && v2.finite() && !degenerate(v0, v1, v2) {
        if in_closed_triangle(
            v0.x as int,
            v0.y as int,
            v1.x as int,
            v1.y as int,
            v2.x as int,
            v2.y as int,
            pixel_coord(x),
            pixel_coord(y),
        ) {
            lemma_closed_triangle_is_in_box(
                v0.x as int,
                v0.y as int,
                v1.x as int,
                v1.y as int,
                v2.x as int,
                v2.y as int,
                pixel_coord(x),
                pixel_coord(y),
            );
            assert(in_box(v0, v1, v2, x, y));
        }
        if in_box(v0, v1, v2, x, y) {
            assert(p.x == pixel_coord(x) && p.y == pixel_coord(y));
            lemma_weights_are_exact(v0, v1, v2, p);
        }
    }
}

/// The scalar that stands for the whole number `n`.
pub open spec fn whole(n: int) -> i64 {
    (n * ONE) as i64
}

/// The vertex at the whole pixel `(x, y)` with depth `z`.
pub open spec fn whole_vertex(x: int, y: int, z: i64) -> Vec3f {
    Vec3f { x: whole(x), y: whole(y), z }
}

/// The largest pixel coordinate whose scalar is finite, and one more.
pub open spec fn pixel_limit() -> int {
    0x4000_0000
}

/// A whole scalar within the limit is `n * 2^32` and finite.
proof fn lemma_whole(n: int)
    requires
        -pixel_limit() < n < pixel_limit(),
    ensures
        whole(n) == n * 0x1_0000_0000,
        fx_finite(whole(n)),
{
    assert(n * ONE == n * 0x1_0000_0000);
}

/// A triangle whose three vertices sit on whole pixels.
pub struct PixelTriangle {
    pub x0: int,
    pub y0: int,
    pub z0: i64,
    pub x1: int,
    pub y1: int,
    pub z1: i64,
    pub x2: int,
    pub y2: int,
    pub z2: i64,
}

impl PixelTriangle {
    /// The first vertex as a screen-space point.
    pub open spec fn v0(self) -> Vec3f {
        whole_vertex(self.x0, self.y0, self.z0)
    }

    /// The second vertex as a screen-space point.
    pub open spec fn v1(self) -> Vec3f {
        whole_vertex(self.x1, self.y1, self.z1)
    }

    /// The third vertex as a screen-space point.
    pub open spec fn v2(self) -> Vec3f {
        whole_vertex(self.x2, self.y2, self.z2)
    }

    /// Every coordinate and every depth is finite.
    pub open spec fn within_limit(self) -> bool {
        &&& -pixel_limit() < self.x0 < pixel_limit()
        &&& -pixel_limit() < self.y0 < pixel_limit()
        &&& -pixel_limit() < self.x1 < pixel_limit()
        &&& -pixel_limit() < self.y1 < pixel_limit()
        &&& -pixel_limit() < self.x2 < pixel_limit()
        &&& -pixel_limit() < self.y2 < pixel_limit()
        &&& fx_finite(self.z0) && fx_finite(self.z1) && fx_finite(self.z2)
    }

    /// Whether `(x, y)` lies in the closed triangle, which then has area.
    pub open spec fn holds(self, x: int, y: int) -> bool {
        in_closed_triangle(self.x0, self.y0, self.x1, self.y1, self.x2, self.y2, x, y)
    }

    /// Twice the signed area, over the integers.
    pub open spec fn doubled_area(self) -> int {
        exact_cross(self.x0, self.y0, self.x1, self.y1, self.x2, self.y2, 0, 0).2
    }

    /// Whether `(x, y)` lies on one of the three edges.
    pub open spec fn has_on_edge(self, x: int, y: int) -> bool {
        on_an_edge(self.x0, self.y0, self.x1, self.y1, self.x2, self.y2, x, y)
    }

    /// The frame after the triangle has been filled with `color`.
    pub open spec fn filled(self, f: Frame, color: Color) -> Frame {
        fill(f, self.v0(), self.v1(), self.v2(), color)
    }
}

/// The product of two numbers that were both scaled by `k`.
proof fn lemma_scaled_product(k: int, p: int, q: int)
    ensures
        (k * p) * (k * q) == (k * k) * (p * q),
{
    assert((k * p) * (k * q) == (k * k) * (p * q)) by (nonlinear_arith);
}

/// Scaling two numbers by a positive factor keeps the sign of their product.
proof fn lemma_scaled_sign(k: int, u: int, v: int)
    requires
        k > 0,
    ensures
        (k * u) * (k * v) >= 0 <==> u * v >= 0,
{
    lemma_scaled_product(k, u, v);
    assert(((k * k) * (u * v) >= 0) <==> (u * v >= 0)) by (nonlinear_arith)
        requires
            k > 0,
    ;
}

/// Scaling every coordinate by `2^32` scales the cross product by `2^64`.
proof fn lemma_exact_cross_of_wholes(
    x0: int,
    y0: int,
    x1: int,
    y1: int,
    x2: int,
    y2: int,
    x: int,
    y: int,
)
    ensures
        ({
            let o = 0x1_0000_0000int;
            let k = 0x1_0000_0000_0000_0000int;
            let u = exact_cross(x0, y0, x1, y1, x2, y2, x, y);
            exact_cross(o * x0, o * y0, o * x1, o * y1, o * x2, o * y2, o * x, o * y) == (
                k * u.0,
                k * u.1,
                k * u.2,
            )
        }),
{
    let o = 0x1_0000_0000int;
    let a = x2 - x0;
    let b = x1 - x0;
    let c = x0 - x;
    let d = y2 - y0;
    let e = y1 - y0;
    let f = y0 - y;
    lemma_scaled_product(o, b, f);
    lemma_scaled_product(o, c, e);
    lemma_scaled_product(o, c, d);
    lemma_scaled_product(o, a, f);
    lemma_scaled_product(o, a, e);
    lemma_scaled_product(o, b, d);
    assert(o * o == 0x1_0000_0000_0000_0000);
}

/// For a triangle on whole pixels, membership over the scalars is
/// membership over the pixels, and the triangle is degenerate exactly when
/// it has no area.
proof fn lemma_whole_triangle(t: PixelTriangle, x: int, y: int)
    requires
        t.within_limit(),
    ensures
        t.v0().finite() && t.v1().finite() && t.v2().finite(),
        degenerate(t.v0(), t.v1(), t.v2()) <==> t.doubled_area() == 0,
        in_closed_triangle(
            t.v0().x as int,
            t.v0().y as int,
            t.v1().x as int,
            t.v1().y as int,
            t.v2().x as int,
            t.v2().y as int,
            pixel_coord(x),
            pixel_coord(y),
        ) <==> t.holds(x, y),
{
    let o = 0x1_0000_0000int;
    let k = 0x1_0000_0000_0000_0000int;
    lemma_whole(t.x0);
    lemma_whole(t.y0);
    lemma_whole(t.x1);
    lemma_whole(t.y1);
    lemma_whole(t.x2);
    lemma_whole(t.y2);
    assert(pixel_coord(x) == o * x && pixel_coord(y) == o * y);
    let u = exact_cross(t.x0, t.y0, t.x1, t.y1, t.x2, t.y2, x, y);
    lemma_exact_cross_of_wholes(t.x0, t.y0, t.x1, t.y1, t.x2, t.y2, x, y);
    lemma_exact_cross_of_wholes(t.x0, t.y0, t.x1, t.y1, t.x2, t.y2, t.x0, t.y0);
    assert(u.2 == t.doubled_area());
    assert(exact_cross(t.x0, t.y0, t.x1, t.y1, t.x2, t.y2, t.x0, t.y0).2 == u.2);
    assert(doubled_area(t.v0(), t.v1(), t.v2()) == (k * u.2) / o);
    assert((k * u.2) / o == o * u.2) by (nonlinear_arith)
        requires
            o == 0x1_0000_0000,
            k == 0x1_0000_0000_0000_0000,
    ;
    lemma_scaled_sign(k, u.2 - u.0 - u.1, u.2);
    lemma_scaled_sign(k, u.1, u.2);
    lemma_scaled_sign(k, u.0, u.2);
    assert(k * (u.2 - u.0 - u.1) == k * u.2 - k * u.0 - k * u.1);
}

/// The fill of a triangle on whole pixels is exact: the triangle produces
/// a fragment at a cell of the surface exactly when the cell lies in the
/// closed triangle.
pub proof fn lemma_whole_pixel_cover_is_exact(
    t: PixelTriangle,
    width: int,
    height: int,
    x: int,
    y: int,
)
    requires
        t.within_limit(),
    ensures
        covers(t.v0(), t.v1(), t.v2(), width, height, x, y) <==> in_grid(width, height, x, y)
            && t.holds(x, y),
{
    lemma_whole_triangle(t, x, y);
    lemma_cover_is_exact(t.v0(), t.v1(), t.v2(), width, height, x, y);
}

/// A cell of the surface on an edge of a triangle with area is covered by
/// the triangle.
pub proof fn lemma_edge_cell_is_covered(t: PixelTriangle, width: int, height: int, x: int, y: int)
    requires
        t.within_limit(),
        t.doubled_area() != 0,
        t.has_on_edge(x, y),
        in_grid(width, height, x, y),
    ensures
        covers(t.v0(), t.v1(), t.v2(), width, height, x, y),
{
    lemma_edge_is_inside(t.x0, t.y0, t.x1, t.y1, t.x2, t.y2, x, y);
    lemma_whole_pixel_cover_is_exact(t, width, height, x, y);
}

/// Two triangles with area leave no gap along a common edge: a cell that
/// lies on an edge of both and held `FAR` shows the color of one of the two
/// once both have been filled.
pub proof fn lemma_shared_edge_has_no_gap(
    f: Frame,
    a: PixelTriangle,
    a_color: Color,
    b: PixelTriangle,
    b_color: Color,
    x: int,
    y: int,
)
    requires
        f.wf(),
        a.within_limit(),
        b.within_limit(),
        a.doubled_area() != 0,
        b.doubled_area() != 0,
        a.has_on_edge(x, y),
        b.has_on_edge(x, y),
        in_grid(f.width, f.height, x, y),
        f.depth_at(x, y) == FAR,
    ensures
        ({
            let g = b.filled(a.filled(f, a_color), b_color);
            (g.color_at(x, y) == a_color || g.color_at(x, y) == b_color) && g.depth_at(x, y) > FAR
        }),
{
    lemma_edge_cell_is_covered(a, f.width, f.height, x, y);
    lemma_edge_cell_is_covered(b, f.width, f.height, x, y);
    let fa = a.filled(f, a_color);
    lemma_fill_cell(f, a.v0(), a.v1(), a.v2(), a_color, x, y);
    lemma_fill_cell(fa, b.v0(), b.v1(), b.v2(), b_color, x, y);
}

/// Projection puts a finite vertex of the object-space square
/// `[-1, 1] x [-1, 1]` on a whole pixel between 0 and the scale, for every
/// whole scale below `2^30`.
pub proof fn lemma_projection_lands_on_whole_pixels(v: Vec3f, pixels: int)
    requires
        -ONE <= v.x <= ONE,
        -ONE <= v.y <= ONE,
        0 <= pixels < pixel_limit(),
    ensures
        ({
            let s = v.to_screen_spec(whole(pixels));
            let column = s.x as int / ONE as int;
            let row = s.y as int / ONE as int;
            &&& s == whole_vertex(column, row, v.z)
            &&& 0 <= column <= pixels
            &&& 0 <= row <= pixels
        }),
{
    lemma_screen_coord_range(v.x, pixels);
    lemma_screen_coord_range(v.y, pixels);
    let s = v.to_screen_spec(whole(pixels));
    assert(pixels * ONE == pixels * 0x1_0000_0000);
    let column = s.x as int / ONE as int;
    let row = s.y as int / ONE as int;
    lemma_whole(column);
    lemma_whole(row);
}

} // verus!
