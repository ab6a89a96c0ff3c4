//! Plane geometry over the integers: which points a triangle holds.

use vstd::prelude::*;

verus! {

/// The cross product of `(a, b, c)` and `(d, e, f)` over the integers.
pub open spec fn cross3(a: int, b: int, c: int, d: int, e: int, f: int) -> (int, int, int) {
    (b * f - c * e, c * d - a * f, a * e - b * d)
}

/// The cross product of `(x2 - x0, x1 - x0, x0 - x)` and
/// `(y2 - y0, y1 - y0, y0 - y)` over the integers.
pub open spec fn exact_cross(
    x0: int,
    y0: int,
    x1: int,
    y1: int,
    x2: int,
    y2: int,
    x: int,
    y: int,
) -> (int, int, int) {
    cross3(x2 - x0, x1 - x0, x0 - x, y2 - y0, y1 - y0, y0 - y)
}

/// Whether `(x, y)` lies in the closed triangle: the triangle has area, and
/// none of the three exact barycentric weights `(u.z - u.x - u.y) / u.z`,
/// `u.y / u.z`, `u.x / u.z` is negative.
pub open spec fn in_closed_triangle(
    x0: int,
    y0: int,
    x1: int,
    y1: int,
    x2: int,
    y2: int,
    x: int,
    y: int,
) -> bool {
    let u = exact_cross(x0, y0, x1, y1, x2, y2, x, y);
    &&& u.2 != 0
    &&& (u.2 - u.0 - u.1) * u.2 >= 0
    &&& u.1 * u.2 >= 0
    &&& u.0 * u.2 >= 0
}

/// Whether `(x, y)` lies on the segment from `(ax, ay)` to `(bx, by)`.
pub open spec fn on_segment(ax: int, ay: int, bx: int, by: int, x: int, y: int) -> bool {
    &&& (bx - ax) * (y - ay) == (by - ay) * (x - ax)
    &&& (ax <= x <= bx || bx <= x <= ax)
    &&& (ay <= y <= by || by <= y <= ay)
}

/// Whether `(x, y)` lies on one of the three edges of the triangle.
pub open spec fn on_an_edge(
    x0: int,
    y0: int,
    x1: int,
    y1: int,
    x2: int,
    y2: int,
    x: int,
    y: int,
) -> bool {
    ||| on_segment(x0, y0, x1, y1, x, y)
    ||| on_segment(x1, y1, x2, y2, x, y)
    ||| on_segment(x2, y2, x0, y0, x, y)
}

proof fn lemma_expand_product(p: int, q: int, r: int, s: int)
    ensures
        (p + q) * (r + s) == p * r + p * s + q * r + q * s,
{
    assert((p + q) * (r + s) == p * r + p * s + q * r + q * s) by (nonlinear_arith);
}

proof fn lemma_negate_product(p: int, q: int)
    ensures
        (-p) * q == -(p * q),
        p * (-q) == -(p * q),
{
    assert((-p) * q == -(p * q)) by (nonlinear_arith);
    assert(p * (-q) == -(p * q)) by (nonlinear_arith);
}

/// The cross product seen from the second vertex, in terms of the one seen
/// from the first.
pub proof fn lemma_cross3_rotates(a: int, b: int, c: int, d: int, e: int, f: int)
    ensures
        ({
            let u = cross3(a, b, c, d, e, f);
            cross3(-b, a - b, b + c, -e, d - e, e + f) == (u.2 - u.0 - u.1, u.0, u.2)
        }),
{
    lemma_expand_product(a, -b, e, f);
    lemma_expand_product(b, c, d, -e);
    lemma_expand_product(b, c, -e, 0);
    lemma_expand_product(-b, 0, e, f);
    lemma_expand_product(-b, 0, d, -e);
    lemma_expand_product(a, -b, -e, 0);
    lemma_negate_product(b, e);
    lemma_negate_product(b, f);
    lemma_negate_product(b, d);
    lemma_negate_product(c, e);
    lemma_negate_product(a, e);
    assert((-b) * (-e) == b * e) by (nonlinear_arith);
    assert(c * 0 == 0 && b * 0 == 0 && (-b) * 0 == 0 && 0 * e == 0 && 0 * f == 0 && 0 * d == 0
        && 0 * (-e) == 0);
    assert(a - b == a + (-b));
    assert(d - e == d + (-e));
}

/// Naming the vertices in turn, starting from the second, permutes the
/// three exact weights and keeps the doubled area.
proof fn lemma_exact_cross_rotates(
    x0: int,
    y0: int,
    x1: int,
    y1: int,
    x2: int,
    y2: int,
    x: int,
    y: int,
)
    ensures
        ({
            let u = exact_cross(x0, y0, x1, y1, x2, y2, x, y);
            exact_cross(x1, y1, x2, y2, x0, y0, x, y) == (u.2 - u.0 - u.1, u.0, u.2)
        }),
        in_closed_triangle(x1, y1, x2, y2, x0, y0, x, y) == in_closed_triangle(
            x0,
            y0,
            x1,
            y1,
            x2,
            y2,
            x,
            y,
        ),
{
    let a = x2 - x0;
    let b = x1 - x0;
    let c = x0 - x;
    let d = y2 - y0;
    let e = y1 - y0;
    let f = y0 - y;
    lemma_cross3_rotates(a, b, c, d, e, f);
    assert(x0 - x1 == -b && x2 - x1 == a - b && x1 - x == b + c);
    assert(y0 - y1 == -e && y2 - y1 == d - e && y1 - y == e + f);
}

/// A product is not negative if a positive multiple of it is not.
proof fn lemma_sign_from_multiple(k: int, m: int, v: int, s: int)
    requires
        k > 0,
        m >= 0,
        s >= 0,
        k * v == m * s,
    ensures
        v >= 0,
{
    assert(m * s >= 0) by (nonlinear_arith)
        requires
            m >= 0,
            s >= 0,
    ;
    assert(v >= 0) by (nonlinear_arith)
        requires
            k > 0,
            k * v >= 0,
    ;
}

/// For a point at `(px, py)` on the line through the origin and `(dx, dy)`,
/// and any third point `(ex, ey)`: the weight of the far end, times `dx`.
proof fn lemma_collinear_weight(dx: int, dy: int, px: int, py: int, ex: int, ey: int)
    requires
        dx * py == dy * px,
    ensures
        dx * (ex * py - px * ey) == px * (ex * dy - dx * ey),
{
    assert(dx * (ex * py - px * ey) == ex * (dx * py) - px * (dx * ey)) by (nonlinear_arith);
    assert(px * (ex * dy - dx * ey) == ex * (dy * px) - px * (dx * ey)) by (nonlinear_arith);
}

/// If `d * u1 == p * u2` with `p` between zero and `d`, then `u1 / u2` lies
/// between zero and one.
proof fn lemma_segment_weight_signs(d: int, p: int, u1: int, u2: int)
    requires
        d != 0,
        0 <= p <= d || d <= p <= 0,
        d * u1 == p * u2,
    ensures
        u1 * u2 >= 0,
        (u2 - u1) * u2 >= 0,
{
    let k = d * d;
    let sq = u2 * u2;
    assert(k > 0 && sq >= 0) by (nonlinear_arith)
        requires
            d != 0,
            k == d * d,
            sq == u2 * u2,
    ;
    assert(p * d >= 0 && d * (d - p) >= 0) by (nonlinear_arith)
        requires
            0 <= p <= d || d <= p <= 0,
    ;
    // k * (u1 * u2) == (p * d) * sq
    assert(k * (u1 * u2) == d * ((d * u1) * u2)) by (nonlinear_arith)
        requires
            k == d * d,
    ;
    assert(d * ((p * u2) * u2) == (p * d) * sq) by (nonlinear_arith)
        requires
            sq == u2 * u2,
    ;
    lemma_sign_from_multiple(k, p * d, u1 * u2, sq);
    // k * ((u2 - u1) * u2) == (d * (d - p)) * sq
    assert(k * ((u2 - u1) * u2) == k * sq - k * (u1 * u2)) by (nonlinear_arith)
        requires
            sq == u2 * u2,
    ;
    assert((d * (d - p)) * sq == k * sq - (p * d) * sq) by (nonlinear_arith)
        requires
            k == d * d,
    ;
    lemma_sign_from_multiple(k, d * (d - p), (u2 - u1) * u2, sq);
}

/// A point on the edge from the first to the second vertex of a triangle
/// with area lies in the closed triangle.
proof fn lemma_first_edge_is_inside(
    x0: int,
    y0: int,
    x1: int,
    y1: int,
    x2: int,
    y2: int,
    x: int,
    y: int,
)
    requires
        on_segment(x0, y0, x1, y1, x, y),
        exact_cross(x0, y0, x1, y1, x2, y2, x, y).2 != 0,
    ensures
        in_closed_triangle(x0, y0, x1, y1, x2, y2, x, y),
{
    let u = exact_cross(x0, y0, x1, y1, x2, y2, x, y);
    let dx = x1 - x0;
    let dy = y1 - y0;
    let px = x - x0;
    let py = y - y0;
    let ex = x2 - x0;
    let ey = y2 - y0;
    assert(u.0 == dx * (-py) - (-px) * dy && u.1 == (-px) * ey - ex * (-py));
    lemma_negate_product(dx, py);
    lemma_negate_product(px, dy);
    lemma_negate_product(px, ey);
    lemma_negate_product(ex, py);
    assert(px * dy == dy * px) by (nonlinear_arith);
    assert(u.0 == 0);
    assert(u.1 == ex * py - px * ey);
    assert(u.2 == ex * dy - dx * ey);
    if dx != 0 {
        assert(dx * u.1 == px * u.2) by {
            lemma_collinear_weight(dx, dy, px, py, ex, ey);
        }
        lemma_segment_weight_signs(dx, px, u.1, u.2);
    } else {
        assert(ex * dy == u.2) by {
            assert(dx * ey == 0) by (nonlinear_arith)
                requires
                    dx == 0,
            ;
        }
        assert(dy != 0) by (nonlinear_arith)
            requires
                ex * dy == u.2,
                u.2 != 0,
        ;
        assert(dy * u.1 == py * u.2) by {
            assert(dy * px == px * dy) by (nonlinear_arith);
            assert(dx * py == py * dx) by (nonlinear_arith);
            lemma_collinear_weight(dy, dx, py, px, ey, ex);
            assert(dy * (ey * px - py * ex) == py * (ey * dx - dy * ex));
            assert(ey * px == px * ey && py * ex == ex * py && ey * dx == dx * ey && dy * ex == ex
                * dy) by (nonlinear_arith);
            lemma_negate_product(dy, ex * py - px * ey);
            lemma_negate_product(py, ex * dy - dx * ey);
        }
        lemma_segment_weight_signs(dy, py, u.1, u.2);
    }
    assert(u.0 * u.2 == 0) by (nonlinear_arith)
        requires
            u.0 == 0,
    ;
}

/// A point on any edge of a triangle with area lies in the closed triangle.
pub proof fn lemma_edge_is_inside(
    x0: int,
    y0: int,
    x1: int,
    y1: int,
    x2: int,
    y2: int,
    x: int,
    y: int,
)
    requires
        on_an_edge(x0, y0, x1, y1, x2, y2, x, y),
        exact_cross(x0, y0, x1, y1, x2, y2, x, y).2 != 0,
    ensures
        in_closed_triangle(x0, y0, x1, y1, x2, y2, x, y),
{
    lemma_exact_cross_rotates(x0, y0, x1, y1, x2, y2, x, y);
    lemma_exact_cross_rotates(x1, y1, x2, y2, x0, y0, x, y);
    if on_segment(x0, y0, x1, y1, x, y) {
        lemma_first_edge_is_inside(x0, y0, x1, y1, x2, y2, x, y);
    } else if on_segment(x1, y1, x2, y2, x, y) {
        lemma_first_edge_is_inside(x1, y1, x2, y2, x0, y0, x, y);
    } else {
        lemma_first_edge_is_inside(x2, y2, x0, y0, x1, y1, x, y);
    }
}

/// A cross product is at right angles to both of its operands.
proof fn lemma_cross3_is_orthogonal(a: int, b: int, c: int, d: int, e: int, f: int)
    ensures
        ({
            let u = cross3(a, b, c, d, e, f);
            a * u.0 + b * u.1 + c * u.2 == 0 && d * u.0 + e * u.1 + f * u.2 == 0
        }),
{
    let u = cross3(a, b, c, d, e, f);
    assert(a * (b * f - c * e) == a * (b * f) - a * (c * e)) by (nonlinear_arith);
    assert(b * (c * d - a * f) == b * (c * d) - b * (a * f)) by (nonlinear_arith);
    assert(c * (a * e - b * d) == c * (a * e) - c * (b * d)) by (nonlinear_arith);
    assert(a * (b * f) == b * (a * f)) by (nonlinear_arith);
    assert(a * (c * e) == c * (a * e)) by (nonlinear_arith);
    assert(b * (c * d) == c * (b * d)) by (nonlinear_arith);
    assert(d * (b * f - c * e) == d * (b * f) - d * (c * e)) by (nonlinear_arith);
    assert(e * (c * d - a * f) == e * (c * d) - e * (a * f)) by (nonlinear_arith);
    assert(f * (a * e - b * d) == f * (a * e) - f * (b * d)) by (nonlinear_arith);
    assert(d * (b * f) == f * (b * d)) by (nonlinear_arith);
    assert(d * (c * e) == e * (c * d)) by (nonlinear_arith);
    assert(e * (a * f) == f * (a * e)) by (nonlinear_arith);
}

/// With weights `u2 - u0 - u1`, `u1`, `u0` for the values `t`, `t + b`,
/// `t + a`, the weighted sum is `u2 * (t - c)` whenever `(a, b, c)` is at
/// right angles to `(u0, u1, u2)`.
proof fn lemma_mean_identity(u0: int, u1: int, u2: int, a: int, b: int, c: int, t: int)
    requires
        a * u0 + b * u1 + c * u2 == 0,
    ensures
        u2 * (t - c) == (u2 - u0 - u1) * t + u1 * (t + b) + u0 * (t + a),
{
    assert((u2 - u0 - u1) * t == u2 * t - u0 * t - u1 * t) by (nonlinear_arith);
    assert(u1 * (t + b) == u1 * t + u1 * b) by (nonlinear_arith);
    assert(u0 * (t + a) == u0 * t + u0 * a) by (nonlinear_arith);
    assert(u2 * (t - c) == u2 * t - u2 * c) by (nonlinear_arith);
    assert(a * u0 == u0 * a) by (nonlinear_arith);
    assert(b * u1 == u1 * b) by (nonlinear_arith);
    assert(c * u2 == u2 * c) by (nonlinear_arith);
}

/// A weighted mean with non-negative weights lies between the least and the
/// greatest of the values.
proof fn lemma_weighted_mean(
    n0: int,
    n1: int,
    n2: int,
    a0: int,
    a1: int,
    a2: int,
    t: int,
    lo: int,
    hi: int,
)
    requires
        n0 >= 0,
        n1 >= 0,
        n2 >= 0,
        n0 + n1 + n2 > 0,
        (n0 + n1 + n2) * t == n0 * a0 + n1 * a1 + n2 * a2,
        lo <= a0 <= hi,
        lo <= a1 <= hi,
        lo <= a2 <= hi,
    ensures
        lo <= t <= hi,
{
    let s = n0 + n1 + n2;
    assert(n0 * lo <= n0 * a0 <= n0 * hi) by (nonlinear_arith)
        requires
            n0 >= 0,
            lo <= a0 <= hi,
    ;
    assert(n1 * lo <= n1 * a1 <= n1 * hi) by (nonlinear_arith)
        requires
            n1 >= 0,
            lo <= a1 <= hi,
    ;
    assert(n2 * lo <= n2 * a2 <= n2 * hi) by (nonlinear_arith)
        requires
            n2 >= 0,
            lo <= a2 <= hi,
    ;
    assert(s * lo == n0 * lo + n1 * lo + n2 * lo && s * hi == n0 * hi + n1 * hi + n2 * hi)
        by (nonlinear_arith)
        requires
            s == n0 + n1 + n2,
    ;
    assert(lo <= t <= hi) by (nonlinear_arith)
        requires
            s > 0,
            s * lo <= s * t <= s * hi,
    ;
}

/// A number whose product with `d` is not negative has the sign of `d`.
pub proof fn lemma_sign_follows_divisor(n: int, d: int)
    requires
        d != 0,
        n * d >= 0,
    ensures
        d > 0 ==> n >= 0,
        d < 0 ==> n <= 0,
{
    if d > 0 && n < 0 {
        assert(n * d < 0) by (nonlinear_arith)
            requires
                d > 0,
                n < 0,
        ;
    }
    if d < 0 && n > 0 {
        assert(n * d < 0) by (nonlinear_arith)
            requires
                d < 0,
                n > 0,
        ;
    }
}

/// A weighted sum keeps holding when every weight changes sign.
pub proof fn lemma_negated_sum(n0: int, n1: int, n2: int, a0: int, a1: int, a2: int, t: int)
    requires
        (n0 + n1 + n2) * t == n0 * a0 + n1 * a1 + n2 * a2,
    ensures
        (-n0 + -n1 + -n2) * t == (-n0) * a0 + (-n1) * a1 + (-n2) * a2,
{
    lemma_negate_product(n0, a0);
    lemma_negate_product(n1, a1);
    lemma_negate_product(n2, a2);
    lemma_negate_product(n0 + n1 + n2, t);
    assert(-n0 + -n1 + -n2 == -(n0 + n1 + n2));
}

/// The least of three integers.
pub open spec fn least(a: int, b: int, c: int) -> int {
    if a <= b && a <= c {
        a
    } else if b <= c {
        b
    } else {
        c
    }
}

/// The greatest of three integers.
pub open spec fn greatest(a: int, b: int, c: int) -> int {
    if a >= b && a >= c {
        a
    } else if b >= c {
        b
    } else {
        c
    }
}

/// The exact weights give the point back: with the numerators
/// `u.z - u.x - u.y`, `u.y`, `u.x` for the three vertices, the weighted sum
/// of the vertices is `u.z` times the point.
pub proof fn lemma_weighted_position(
    x0: int,
    y0: int,
    x1: int,
    y1: int,
    x2: int,
    y2: int,
    x: int,
    y: int,
)
    ensures
        ({
            let u = exact_cross(x0, y0, x1, y1, x2, y2, x, y);
            &&& u.2 * x == (u.2 - u.0 - u.1) * x0 + u.1 * x1 + u.0 * x2
            &&& u.2 * y == (u.2 - u.0 - u.1) * y0 + u.1 * y1 + u.0 * y2
        }),
{
    let u = exact_cross(x0, y0, x1, y1, x2, y2, x, y);
    let a = x2 - x0;
    let b = x1 - x0;
    let c = x0 - x;
    let d = y2 - y0;
    let e = y1 - y0;
    let f = y0 - y;
    lemma_cross3_is_orthogonal(a, b, c, d, e, f);
    lemma_mean_identity(u.0, u.1, u.2, a, b, c, x0);
    lemma_mean_identity(u.0, u.1, u.2, d, e, f, y0);
}

/// A point of the closed triangle lies in the bounding box of the vertices.
pub proof fn lemma_closed_triangle_is_in_box(
    x0: int,
    y0: int,
    x1: int,
    y1: int,
    x2: int,
    y2: int,
    x: int,
    y: int,
)
    requires
        in_closed_triangle(x0, y0, x1, y1, x2, y2, x, y),
    ensures
        least(x0, x1, x2) <= x <= greatest(x0, x1, x2),
        least(y0, y1, y2) <= y <= greatest(y0, y1, y2),
{
    let u = exact_cross(x0, y0, x1, y1, x2, y2, x, y);
    let n0 = u.2 - u.0 - u.1;
    let n1 = u.1;
    let n2 = u.0;
    lemma_weighted_position(x0, y0, x1, y1, x2, y2, x, y);
    lemma_sign_follows_divisor(n0, u.2);
    lemma_sign_follows_divisor(n1, u.2);
    lemma_sign_follows_divisor(n2, u.2);
    if u.2 > 0 {
        lemma_weighted_mean(n0, n1, n2, x0, x1, x2, x, least(x0, x1, x2), greatest(x0, x1, x2));
        lemma_weighted_mean(n0, n1, n2, y0, y1, y2, y, least(y0, y1, y2), greatest(y0, y1, y2));
    } else {
        lemma_negated_sum(n0, n1, n2, x0, x1, x2, x);
        lemma_negated_sum(n0, n1, n2, y0, y1, y2, y);
        lemma_weighted_mean(
            -n0,
            -n1,
            -n2,
            x0,
            x1,
            x2,
            x,
            least(x0, x1, x2),
            greatest(x0, x1, x2),
        );
        lemma_weighted_mean(
            -n0,
            -n1,
            -n2,
            y0,
            y1,
            y2,
            y,
            least(y0, y1, y2),
            greatest(y0, y1, y2),
        );
    }
}

} // verus!
