//! What holds of the vector operations for every input.

use vstd::prelude::*;
use vstd::arithmetic::div_mod::lemma_fundamental_div_mod;
use crate::fixed::{fx_finite, isqrt, lemma_isqrt, round_to_whole, HALF, ONE};
use crate::geometry::types::{abs_of, screen_coord, Vec3f, SPREAD, TWO};

verus! {

/// The cross product changes sign when its operands change places: each
/// component is finite in the one order exactly when it is in the other,
/// and is then the negative of the other.
pub proof fn lemma_cross_antisymmetric(a: Vec3f, b: Vec3f)
    ensures
        fx_finite(a.cross_spec(b).x) <==> fx_finite(b.cross_spec(a).x),
        fx_finite(a.cross_spec(b).y) <==> fx_finite(b.cross_spec(a).y),
        fx_finite(a.cross_spec(b).z) <==> fx_finite(b.cross_spec(a).z),
        fx_finite(a.cross_spec(b).x) ==> a.cross_spec(b).x == -b.cross_spec(a).x,
        fx_finite(a.cross_spec(b).y) ==> a.cross_spec(b).y == -b.cross_spec(a).y,
        fx_finite(a.cross_spec(b).z) ==> a.cross_spec(b).z == -b.cross_spec(a).z,
{
    assert(a.y * b.z == b.z * a.y) by (nonlinear_arith);
    assert(a.z * b.y == b.y * a.z) by (nonlinear_arith);
    assert(a.z * b.x == b.x * a.z) by (nonlinear_arith);
    assert(a.x * b.z == b.z * a.x) by (nonlinear_arith);
    assert(a.x * b.y == b.y * a.x) by (nonlinear_arith);
    assert(a.y * b.x == b.x * a.y) by (nonlinear_arith);
}

/// The dot product does not depend on the order of its operands.
pub proof fn lemma_dot_symmetric(a: Vec3f, b: Vec3f)
    ensures
        a.dot_spec(b) == b.dot_spec(a),
{
    assert(a.x * b.x == b.x * a.x) by (nonlinear_arith);
    assert(a.y * b.y == b.y * a.y) by (nonlinear_arith);
    assert(a.z * b.z == b.z * a.z) by (nonlinear_arith);
}

/// Projection maps the object-space interval `[-1, 1]` onto whole pixel
/// coordinates between 0 and the scale, for every whole scale of `pixels`
/// cells below `2^30`.
pub proof fn lemma_screen_coord_range(c: i64, pixels: int)
    requires
        -ONE <= c <= ONE,
        0 <= pixels < 0x4000_0000,
    ensures
        0 <= screen_coord(c, (pixels * ONE) as i64) <= pixels * ONE,
        screen_coord(c, (pixels * ONE) as i64) % ONE == 0,
{
    let o = 0x1_0000_0000int;
    assert(ONE == o && TWO == 2 * o && HALF * 2 == o);
    let scale = (pixels * ONE) as i64;
    assert(scale == pixels * o);
    let a = c + ONE;
    assert((a * scale) == (a * pixels) * o && 0 <= a * pixels <= 2 * (pixels * o)) by (nonlinear_arith)
        requires
            0 <= a <= 2 * o,
            0 <= pixels,
            scale == pixels * o,
    ;
    let t = (a * scale) / (2 * o);
    assert(((a * pixels) * o) / (2 * o) == (a * pixels) / 2) by (nonlinear_arith)
        requires
            o == 0x1_0000_0000,
    ;
    assert(0 <= t <= pixels * o);
    let q = (t + HALF) / o;
    assert(0 <= q <= pixels);
    assert(q * o <= pixels * o && (q * o) % o == 0 && 0 <= q * o) by (nonlinear_arith)
        requires
            0 <= q <= pixels,
            o == 0x1_0000_0000,
    ;
    assert(round_to_whole(t) == q * o);
}

/// A component is no longer than the whole vector.
proof fn lemma_component_within(x: int, s: int, m: int)
    requires
        0 <= m,
        x * x <= s < (m + 1) * (m + 1),
    ensures
        -m <= x <= m,
{
    if x > m {
        assert(x * x >= (m + 1) * (m + 1)) by (nonlinear_arith)
            requires
                x >= m + 1,
                m >= 0,
        ;
    }
    if x < -m {
        assert(x * x >= (m + 1) * (m + 1)) by (nonlinear_arith)
            requires
                x <= -(m + 1),
                m >= 0,
        ;
    }
}

/// One component `x` of a vector of length `m`, divided by `m` and rounded
/// down to `q`: how far `m * q` can be from `x * one`, in squares.
proof fn lemma_quotient_square(x: int, m: int, one: int) -> (q: int)
    requires
        0 < m,
        0 < one,
        -m <= x <= m,
    ensures
        q == (x * one) / m,
        -one <= q <= one,
        one * one * (x * x) - 2 * (one * (m * m)) <= (m * m) * (q * q),
        (m * m) * (q * q) <= one * one * (x * x) + 2 * (one * (m * m)) + m * m,
{
    let xx = x * one;
    let q = xx / m;
    let a = xx % m;
    lemma_fundamental_div_mod(xx, m);
    assert(m * q == xx - a);
    assert(-(m * one) <= xx <= m * one) by (nonlinear_arith)
        requires
            -m <= x <= m,
            0 < one,
            xx == x * one,
    ;
    assert(-one <= q <= one) by (nonlinear_arith)
        requires
            m * q == xx - a,
            0 <= a < m,
            -(m * one) <= xx <= m * one,
            0 < m,
    ;
    assert(-(one * (m * m)) <= xx * a <= one * (m * m)) by (nonlinear_arith)
        requires
            -(m * one) <= xx <= m * one,
            0 <= a < m,
            0 < m,
            0 < one,
    ;
    assert(0 <= a * a <= m * m) by (nonlinear_arith)
        requires
            0 <= a < m,
    ;
    assert((m * m) * (q * q) == xx * xx - 2 * (xx * a) + a * a) by (nonlinear_arith)
        requires
            m * q == xx - a,
    ;
    assert(xx * xx == one * one * (x * x)) by (nonlinear_arith)
        requires
            xx == x * one,
    ;
    q
}

/// From bounds on `m * m * n` to bounds on the integer square root of `n`.
proof fn lemma_unit_length_bounds(n: int, s: int, m: int, one: int)
    requires
        0 < m,
        8 <= one,
        0 <= n,
        m * m <= s < (m + 1) * (m + 1),
        one * one * s - 6 * (one * (m * m)) <= (m * m) * n,
        (m * m) * n <= one * one * s + 6 * (one * (m * m)) + 3 * (m * m),
    ensures
        one - 4 <= isqrt(n) <= one + one / m + 4,
{
    let r = isqrt(n);
    lemma_isqrt(n, r);
    // Lower bound.
    assert(one * one * s >= one * one * (m * m)) by (nonlinear_arith)
        requires
            m * m <= s,
            0 < one,
    ;
    assert((m * m) * n >= (m * m) * (one * one - 6 * one)) by (nonlinear_arith)
        requires
            one * one * s - 6 * (one * (m * m)) <= (m * m) * n,
            one * one * s >= one * one * (m * m),
    ;
    assert(n >= one * one - 6 * one) by (nonlinear_arith)
        requires
            (m * m) * n >= (m * m) * (one * one - 6 * one),
            0 < m,
    ;
    assert((one - 4) * (one - 4) <= one * one - 6 * one) by (nonlinear_arith)
        requires
            8 <= one,
    ;
    if r < one - 4 {
        assert((r + 1) * (r + 1) <= (one - 4) * (one - 4)) by (nonlinear_arith)
            requires
                0 <= r + 1 <= one - 4,
        ;
    }
    // Upper bound.
    let k = one / m + 5;
    lemma_fundamental_div_mod(one, m);
    assert(m * k >= one + 4 * m + 1) by (nonlinear_arith)
        requires
            one == m * (one / m) + one % m,
            0 <= one % m < m,
            k == one / m + 5,
    ;
    let p = m * one + one + 4 * m;
    assert(one * one * s <= one * one * (m * m + 2 * m)) by (nonlinear_arith)
        requires
            s < (m + 1) * (m + 1),
            0 < one,
    ;
    assert(p * p > one * one * (m * m + 2 * m) + 6 * (one * (m * m)) + 3 * (m * m))
        by (nonlinear_arith)
        requires
            p == m * one + one + 4 * m,
            0 < m,
            0 < one,
    ;
    assert((m * one + m * k) * (m * one + m * k) >= p * p) by (nonlinear_arith)
        requires
            m * one + m * k >= p,
            p >= 0,
    ;
    assert((m * one + m * k) * (m * one + m * k) == (m * m) * ((one + k) * (one + k)))
        by (nonlinear_arith);
    assert(n < (one + k) * (one + k)) by (nonlinear_arith)
        requires
            (m * m) * n < (m * m) * ((one + k) * (one + k)),
            0 < m,
    ;
    if r >= one + k {
        assert(r * r >= (one + k) * (one + k)) by (nonlinear_arith)
            requires
                r >= one + k,
                one + k >= 0,
        ;
    }
}

/// Spreading a vector other than zero makes its longest component at
/// least `SPREAD` long.
pub proof fn lemma_spread_is_long(v: Vec3f)
    requires
        v.max_abs() != 0,
    ensures
        v.spread().max_abs() >= SPREAD,
    decreases v.room(),
{
    if v.max_abs() < SPREAD {
        assert(v.doubled().max_abs() == 2 * v.max_abs());
        lemma_spread_is_long(v.doubled());
    }
}

/// A normalized vector has length one, up to rounding: for every finite
/// vector other than zero, whatever its length, the length of the
/// normalized vector lies between `1 - 4 * 2^-32` and `1 + 4 * 2^-32`.
pub proof fn lemma_normalized_has_unit_length(v: Vec3f)
    requires
        v.max_abs() != 0,
        v.finite(),
    ensures
        ONE - 4 <= v.normalized().magnitude_spec() <= ONE + 4,
{
    let w = v.spread();
    lemma_spread_is_long(v);
    let s = w.norm_squared();
    let m = isqrt(s);
    let (x, y, z) = (w.x as int, w.y as int, w.z as int);
    assert(0 <= x * x <= s && 0 <= y * y <= s && 0 <= z * z <= s) by (nonlinear_arith)
        requires
            s == x * x + y * y + z * z,
    ;
    lemma_isqrt(s, m);
    let long = w.max_abs();
    assert(long * long <= s) by {
        assert(long == abs_of(w.x) || long == abs_of(w.y) || long == abs_of(w.z));
        assert((-x) * (-x) == x * x && (-y) * (-y) == y * y && (-z) * (-z) == z * z)
            by (nonlinear_arith);
    }
    assert(m >= SPREAD) by {
        if m < SPREAD {
            assert((m + 1) * (m + 1) <= long * long) by (nonlinear_arith)
                requires
                    0 <= m,
                    m + 1 <= long,
            ;
        }
    }
    lemma_component_within(x, s, m);
    lemma_component_within(y, s, m);
    lemma_component_within(z, s, m);
    let one = ONE as int;
    let qx = lemma_quotient_square(x, m, one);
    let qy = lemma_quotient_square(y, m, one);
    let qz = lemma_quotient_square(z, m, one);
    let u = v.normalized();
    assert(u.x == qx && u.y == qy && u.z == qz);
    let n = u.norm_squared();
    assert(n == qx * qx + qy * qy + qz * qz);
    assert(0 <= n) by (nonlinear_arith)
        requires
            n == qx * qx + qy * qy + qz * qz,
    ;
    assert((m * m) * n == (m * m) * (qx * qx) + (m * m) * (qy * qy) + (m * m) * (qz * qz))
        by (nonlinear_arith)
        requires
            n == qx * qx + qy * qy + qz * qz,
    ;
    assert(one * one * s == one * one * (x * x) + one * one * (y * y) + one * one * (z * z))
        by (nonlinear_arith)
        requires
            s == x * x + y * y + z * z,
    ;
    lemma_unit_length_bounds(n, s, m, one);
    assert(one / m == 0) by {
        lemma_fundamental_div_mod(one, m);
        assert(one / m == 0) by (nonlinear_arith)
            requires
                one == m * (one / m) + one % m,
                0 <= one % m,
                0 < one < m,
        ;
    }
}

/// Spreading keeps the sign of every component.
pub proof fn lemma_spread_keeps_signs(v: Vec3f)
    ensures
        (v.x >= 0 <==> v.spread().x >= 0) && (v.x == 0 <==> v.spread().x == 0),
        (v.y >= 0 <==> v.spread().y >= 0) && (v.y == 0 <==> v.spread().y == 0),
        (v.z >= 0 <==> v.spread().z >= 0) && (v.z == 0 <==> v.spread().z == 0),
    decreases v.room(),
{
    if !(v.max_abs() == 0 || v.max_abs() >= SPREAD) {
        assert(v.doubled().max_abs() == 2 * v.max_abs());
        lemma_spread_keeps_signs(v.doubled());
    }
}

/// Normalizing keeps the direction as far as the signs go: a component that
/// is negative stays negative, one that is zero stays zero, and one that is
/// positive does not become negative.
pub proof fn lemma_normalized_keeps_signs(v: Vec3f)
    requires
        v.max_abs() != 0,
        v.finite(),
    ensures
        (v.x >= 0 <==> v.normalized().x >= 0) && (v.x == 0 ==> v.normalized().x == 0),
        (v.y >= 0 <==> v.normalized().y >= 0) && (v.y == 0 ==> v.normalized().y == 0),
        (v.z >= 0 <==> v.normalized().z >= 0) && (v.z == 0 ==> v.normalized().z == 0),
{
    let w = v.spread();
    lemma_spread_keeps_signs(v);
    lemma_spread_is_long(v);
    let s = w.norm_squared();
    let m = isqrt(s);
    let (x, y, z) = (w.x as int, w.y as int, w.z as int);
    assert(0 <= x * x <= s && 0 <= y * y <= s && 0 <= z * z <= s && s >= 1) by (nonlinear_arith)
        requires
            s == x * x + y * y + z * z,
            x != 0 || y != 0 || z != 0,
    ;
    lemma_isqrt(s, m);
    assert(m > 0) by {
        if m == 0 {
            assert((m + 1) * (m + 1) == 1) by (nonlinear_arith)
                requires
                    m == 0,
            ;
        }
    }
    lemma_quotient_sign(x, m);
    lemma_quotient_sign(y, m);
    lemma_quotient_sign(z, m);
}

/// The sign of `c * 2^32 / m`, rounded down, for a positive `m`.
proof fn lemma_quotient_sign(c: int, m: int)
    requires
        m > 0,
    ensures
        (c * ONE) / m >= 0 <==> c >= 0,
        c == 0 ==> (c * ONE) / m == 0,
{
    let n = c * ONE;
    assert(n == c * 0x1_0000_0000);
    lemma_fundamental_div_mod(n, m);
    let q = n / m;
    let r = n % m;
    assert((q >= 0) <==> (m * q + r >= 0)) by (nonlinear_arith)
        requires
            0 < m,
            0 <= r < m,
    ;
    if c == 0 {
        assert(q == 0) by (nonlinear_arith)
            requires
                0 == m * q + r,
                0 <= r < m,
        ;
    }
}

/// The magnitude of an integer.
pub open spec fn magnitude_of(a: int) -> int {
    if a < 0 {
        -a
    } else {
        a
    }
}

/// Whether `n` points along `v` as nearly as rounding allows: each
/// component of their cross product, which is zero for parallel vectors
/// and as large as `2^32` times the components of `v` for a unit vector at
/// right angles, is no larger than the components of `v` themselves.
pub open spec fn nearly_parallel(n: Vec3f, v: Vec3f) -> bool {
    &&& magnitude_of(n.x * v.y - n.y * v.x) <= abs_of(v.x) + abs_of(v.y)
    &&& magnitude_of(n.y * v.z - n.z * v.y) <= abs_of(v.y) + abs_of(v.z)
    &&& magnitude_of(n.z * v.x - n.x * v.z) <= abs_of(v.z) + abs_of(v.x)
}

/// Two components `wi`, `wj` of a vector of length `m`, and their quotients
/// `ni`, `nj` by `m`, each rounded down: `ni * wj - nj * wi` is small.
proof fn lemma_quotients_are_parallel(wi: int, wj: int, ni: int, nj: int, m: int, one: int)
    requires
        m > 0,
        ni == (wi * one) / m,
        nj == (wj * one) / m,
    ensures
        magnitude_of(ni * wj - nj * wi) <= magnitude_of(wi) + magnitude_of(wj),
{
    let ai = (wi * one) % m;
    let aj = (wj * one) % m;
    lemma_fundamental_div_mod(wi * one, m);
    lemma_fundamental_div_mod(wj * one, m);
    let x = ni * wj - nj * wi;
    assert(m * x == aj * wi - ai * wj) by (nonlinear_arith)
        requires
            wi * one == m * ni + ai,
            wj * one == m * nj + aj,
            x == ni * wj - nj * wi,
    ;
    let bound = magnitude_of(wi) + magnitude_of(wj);
    assert(-(m * magnitude_of(wi)) <= aj * wi <= m * magnitude_of(wi)) by (nonlinear_arith)
        requires
            0 <= aj < m,
            magnitude_of(wi) == wi || magnitude_of(wi) == -wi,
            magnitude_of(wi) >= 0,
    ;
    assert(-(m * magnitude_of(wj)) <= ai * wj <= m * magnitude_of(wj)) by (nonlinear_arith)
        requires
            0 <= ai < m,
            magnitude_of(wj) == wj || magnitude_of(wj) == -wj,
            magnitude_of(wj) >= 0,
    ;
    assert(m * bound == m * magnitude_of(wi) + m * magnitude_of(wj)) by (nonlinear_arith)
        requires
            bound == magnitude_of(wi) + magnitude_of(wj),
    ;
    assert(-bound <= x <= bound) by (nonlinear_arith)
        requires
            m > 0,
            -(m * bound) <= m * x <= m * bound,
    ;
}

/// What is nearly parallel to the spread vector is nearly parallel to the
/// vector itself.
proof fn lemma_parallel_through_spread(n: Vec3f, v: Vec3f)
    requires
        nearly_parallel(n, v.spread()),
    ensures
        nearly_parallel(n, v),
    decreases v.room(),
{
    if !(v.max_abs() == 0 || v.max_abs() >= SPREAD) {
        let d = v.doubled();
        assert(d.max_abs() == 2 * v.max_abs());
        lemma_parallel_through_spread(n, d);
        assert(d.x == 2 * v.x && d.y == 2 * v.y && d.z == 2 * v.z);
        assert(n.x * d.y - n.y * d.x == 2 * (n.x * v.y - n.y * v.x)) by (nonlinear_arith)
            requires
                d.x == 2 * v.x,
                d.y == 2 * v.y,
        ;
        assert(n.y * d.z - n.z * d.y == 2 * (n.y * v.z - n.z * v.y)) by (nonlinear_arith)
            requires
                d.y == 2 * v.y,
                d.z == 2 * v.z,
        ;
        assert(n.z * d.x - n.x * d.z == 2 * (n.z * v.x - n.x * v.z)) by (nonlinear_arith)
            requires
                d.z == 2 * v.z,
                d.x == 2 * v.x,
        ;
    }
}

/// Normalizing keeps the direction: the normalized vector is nearly
/// parallel to the vector it came from, and by the signs of its components
/// it points the same way.
pub proof fn lemma_normalized_is_parallel(v: Vec3f)
    requires
        v.max_abs() != 0,
        v.finite(),
    ensures
        nearly_parallel(v.normalized(), v),
{
    let w = v.spread();
    lemma_spread_is_long(v);
    let s = w.norm_squared();
    let m = isqrt(s);
    let (x, y, z) = (w.x as int, w.y as int, w.z as int);
    assert(0 <= x * x <= s && 0 <= y * y <= s && 0 <= z * z <= s && s >= 1) by (nonlinear_arith)
        requires
            s == x * x + y * y + z * z,
            x != 0 || y != 0 || z != 0,
    ;
    lemma_isqrt(s, m);
    assert(m > 0) by {
        if m == 0 {
            assert((m + 1) * (m + 1) == 1) by (nonlinear_arith)
                requires
                    m == 0,
            ;
        }
    }
    lemma_component_within(x, s, m);
    lemma_component_within(y, s, m);
    lemma_component_within(z, s, m);
    let one = ONE as int;
    let qx = lemma_quotient_square(x, m, one);
    let qy = lemma_quotient_square(y, m, one);
    let qz = lemma_quotient_square(z, m, one);
    let n = v.normalized();
    assert(n.x == qx && n.y == qy && n.z == qz);
    lemma_quotients_are_parallel(x, y, qx, qy, m, one);
    lemma_quotients_are_parallel(y, z, qy, qz, m, one);
    lemma_quotients_are_parallel(z, x, qz, qx, m, one);
    assert(nearly_parallel(n, w));
    lemma_parallel_through_spread(n, v);
}

} // verus!
