//! Two- and three-component vectors of fixed-point scalars.

use vstd::prelude::*;
use vstd::std_specs::ops::AddSpecImpl;
use vstd::std_specs::ops::SubSpecImpl;
use std::ops::Add;
use std::ops::Sub;
use crate::fixed::{
    floor_quotient, fx_add, fx_add_spec, fx_finite, fx_is_finite, fx_mul, fx_mul_spec, fx_sub,
    fx_sub_spec, isqrt, isqrt_u128, lemma_isqrt, round_to_whole, round_wide, sat, saturate,
    FX_MAX, ONE,
};

verus! {

/// The scalar 2.0.
pub const TWO: i64 = 0x2_0000_0000;

/// A point or offset in the plane.
#[derive(Copy, Clone, Debug, PartialEq, Eq, Structural)]
pub struct Vec2f {
    pub x: i64,
    pub y: i64,
}

impl Vec2f {
    pub fn new(x: i64, y: i64) -> (v: Vec2f)
        ensures
            v == (Vec2f { x, y }),
    {
        Vec2f { x: x, y: y }
    }
}

impl SubSpecImpl for Vec2f {
    open spec fn obeys_sub_spec() -> bool {
        true
    }

    open spec fn sub_req(self, other: Vec2f) -> bool {
        true
    }

    open spec fn sub_spec(self, other: Vec2f) -> Vec2f {
        Vec2f { x: fx_sub_spec(self.x, other.x), y: fx_sub_spec(self.y, other.y) }
    }
}

impl Sub for Vec2f {
    type Output = Vec2f;

    fn sub(self, other: Vec2f) -> (r: Vec2f) {
        Vec2f { x: fx_sub(self.x, other.x), y: fx_sub(self.y, other.y) }
    }
}

impl AddSpecImpl for Vec2f {
    open spec fn obeys_add_spec() -> bool {
        true
    }

    open spec fn add_req(self, other: Vec2f) -> bool {
        true
    }

    open spec fn add_spec(self, other: Vec2f) -> Vec2f {
        Vec2f { x: fx_add_spec(self.x, other.x), y: fx_add_spec(self.y, other.y) }
    }
}

impl Add for Vec2f {
    type Output = Vec2f;

    fn add(self, other: Vec2f) -> (r: Vec2f) {
        Vec2f { x: fx_add(self.x, other.x), y: fx_add(self.y, other.y) }
    }
}

/// A point or offset in space. In screen space `x` and `y` are pixel
/// coordinates and `z` is the depth.
#[derive(Copy, Clone, Debug, PartialEq, Eq, Structural)]
pub struct Vec3f {
    pub x: i64,
    pub y: i64,
    pub z: i64,
}

/// One screen coordinate of an object-space coordinate in `[-1, 1]`:
/// `(c + 1) * scale / 2`, rounded to the nearest whole scalar. A coordinate
/// or a scale that is not finite gives a coordinate that is not finite.
/// The product and the quotient are taken exactly, so that the result is
/// either right or not finite.
pub open spec fn screen_coord(c: i64, scale: i64) -> i64 {
    if fx_finite(c) && fx_finite(scale) {
        sat(round_to_whole(((c + ONE) * scale) / (TWO as int)))
    } else {
        FX_MAX
    }
}

/// The least length, in raw units, that `normalize` works on: a shorter
/// vector is doubled until its longest component reaches it.
pub const SPREAD: i64 = 0x1000_0000_0000_0000;

/// The magnitude of a raw component.
pub open spec fn abs_of(a: i64) -> int {
    if a < 0 {
        -a
    } else {
        a as int
    }
}

impl Vec3f {
    /// No component has saturated.
    pub open spec fn finite(self) -> bool {
        fx_finite(self.x) && fx_finite(self.y) && fx_finite(self.z)
    }

    /// `x * x' + y * y' + z * z'`, each product and each sum a scalar operation.
    pub open spec fn dot_spec(self, other: Vec3f) -> i64 {
        fx_add_spec(
            fx_add_spec(fx_mul_spec(self.x, other.x), fx_mul_spec(self.y, other.y)),
            fx_mul_spec(self.z, other.z),
        )
    }

    /// `(y * z' - z * y', z * x' - x * z', x * y' - y * x')`, right-handed.
    pub open spec fn cross_spec(self, other: Vec3f) -> Vec3f {
        Vec3f {
            x: fx_sub_spec(fx_mul_spec(self.y, other.z), fx_mul_spec(self.z, other.y)),
            y: fx_sub_spec(fx_mul_spec(self.z, other.x), fx_mul_spec(self.x, other.z)),
            z: fx_sub_spec(fx_mul_spec(self.x, other.y), fx_mul_spec(self.y, other.x)),
        }
    }

    /// Sum of the squared raw components: the squared length in units of `2^-64`.
    pub open spec fn norm_squared(self) -> int {
        self.x * self.x + self.y * self.y + self.z * self.z
    }

    /// The Euclidean length, rounded down.
    pub open spec fn magnitude_spec(self) -> i64 {
        sat(isqrt(self.norm_squared()))
    }

    /// The magnitude of the longest component.
    pub open spec fn max_abs(self) -> int {
        let a = abs_of(self.x);
        let b = abs_of(self.y);
        let c = abs_of(self.z);
        if a >= b && a >= c {
            a
        } else if b >= c {
            b
        } else {
            c
        }
    }

    /// The vector doubled until its longest component is at least `SPREAD`;
    /// the zero vector, and a vector that is long enough, is left as it is.
    /// The direction does not change.
    pub open spec fn spread(self) -> Vec3f
        decreases self.room(),
    {
        if self.max_abs() == 0 || self.max_abs() >= SPREAD {
            self
        } else {
            proof {
                assert(self.doubled().max_abs() == 2 * self.max_abs());
            }
            self.doubled().spread()
        }
    }

    /// How far the longest component is below `SPREAD`.
    pub open spec fn room(self) -> nat {
        if self.max_abs() >= SPREAD {
            0
        } else {
            (SPREAD - self.max_abs()) as nat
        }
    }

    /// Twice the vector; meant for components below `SPREAD`.
    pub open spec fn doubled(self) -> Vec3f {
        Vec3f { x: (2 * self.x) as i64, y: (2 * self.y) as i64, z: (2 * self.z) as i64 }
    }

    /// The vector of length one in the direction of this one: each
    /// component of the spread vector divided by the length of the spread
    /// vector, rounded down. The zero vector has no direction, and a vector
    /// that is not finite has no length: all three components of the result
    /// are then not finite.
    pub open spec fn normalized(self) -> Vec3f {
        if self.max_abs() == 0 || !self.finite() {
            Vec3f { x: FX_MAX, y: FX_MAX, z: FX_MAX }
        } else {
            let w = self.spread();
            let m = isqrt(w.norm_squared());
            Vec3f { x: sat((w.x * ONE) / m), y: sat((w.y * ONE) / m), z: sat((w.z * ONE) / m) }
        }
    }

    /// The screen-space vertex: `x` and `y` projected, `z` kept.
    pub open spec fn to_screen_spec(self, scale: i64) -> Vec3f {
        Vec3f { x: screen_coord(self.x, scale), y: screen_coord(self.y, scale), z: self.z }
    }

    pub fn new(x: i64, y: i64, z: i64) -> (v: Vec3f)
        ensures
            v == (Vec3f { x, y, z }),
    {
        Vec3f { x: x, y: y, z: z }
    }

    /// Whether no component has saturated.
    pub fn is_finite(self) -> (r: bool)
        ensures
            r == self.finite(),
    {
        fx_is_finite(self.x) && fx_is_finite(self.y) && fx_is_finite(self.z)
    }

    /// The Euclidean length, rounded down.
    pub fn magnitude(self) -> (m: i64)
        ensures
            m == self.magnitude_spec(),
            m >= 0,
    {
        let sx: u128 = square(self.x);
        let sy: u128 = square(self.y);
        let sz: u128 = square(self.z);
        let r: u128 = isqrt_u128(sx + sy + sz);
        proof {
            lemma_isqrt(self.norm_squared(), r as int);
        }
        if r >= FX_MAX as u128 {
            FX_MAX
        } else {
            r as i64
        }
    }

    /// Scales the vector to length one. The zero vector has no direction
    /// and is given three components that are not finite, and so is a
    /// vector that is not finite: the caller has to look at `magnitude`
    /// first.
    pub fn normalize(&mut self)
        ensures
            *final(self) == old(self).normalized(),
    {
        if (self.x == 0 && self.y == 0 && self.z == 0) || !self.is_finite() {
            self.x = FX_MAX;
            self.y = FX_MAX;
            self.z = FX_MAX;
            return ;
        }
        let ghost v = *self;
        let mut w = *self;
        while w.longest() < SPREAD as u64
            invariant
                w.max_abs() != 0,
                w.spread() == v.spread(),
            decreases w.room(),
        {
            let ghost before = w;
            assert(w.doubled().max_abs() == 2 * w.max_abs());
            w = Vec3f::new(2 * w.x, 2 * w.y, 2 * w.z);
            assert(w == before.doubled());
        }
        let m: u128 = isqrt_u128(square(w.x) + square(w.y) + square(w.z));
        proof {
            lemma_isqrt(w.norm_squared(), m as int);
            assert(m > 0) by {
                let (x, y, z) = (w.x as int, w.y as int, w.z as int);
                assert(x * x + y * y + z * z >= 1) by (nonlinear_arith)
                    requires
                        x != 0 || y != 0 || z != 0,
                ;
                if m == 0 {
                    assert((m + 1) * (m + 1) == 1) by (nonlinear_arith)
                        requires
                            m == 0,
                    ;
                }
            }
            assert(m * m <= 0xc000_0000_0000_0000_0000_0000_0000_0000);
            assert(m < 0x2_0000_0000_0000_0000) by (nonlinear_arith)
                requires
                    m * m <= 0xc000_0000_0000_0000_0000_0000_0000_0000,
                    0 <= m,
            ;
        }
        self.x = divide_by_length(w.x, m);
        self.y = divide_by_length(w.y, m);
        self.z = divide_by_length(w.z, m);
    }

    /// The magnitude of the longest component.
    fn longest(self) -> (r: u64)
        ensures
            r == self.max_abs(),
    {
        let a: u64 = magnitude_of(self.x);
        let b: u64 = magnitude_of(self.y);
        let c: u64 = magnitude_of(self.z);
        if a >= b && a >= c {
            a
        } else if b >= c {
            b
        } else {
            c
        }
    }

    /// The cross product of this vector and `other`, in this order.
    pub fn cross(self, other: Vec3f) -> (r: Vec3f)
        ensures
            r == self.cross_spec(other),
    {
        Vec3f::new(
            fx_sub(fx_mul(self.y, other.z), fx_mul(self.z, other.y)),
            fx_sub(fx_mul(self.z, other.x), fx_mul(self.x, other.z)),
            fx_sub(fx_mul(self.x, other.y), fx_mul(self.y, other.x)),
        )
    }

    /// The scalar product.
    pub fn dot(self, other: Vec3f) -> (r: i64)
        ensures
            r == self.dot_spec(other),
    {
        fx_add(
            fx_add(fx_mul(self.x, other.x), fx_mul(self.y, other.y)),
            fx_mul(self.z, other.z),
        )
    }

    /// Maps object-space `x` and `y` from `[-1, 1]` to `[0, scale]`, rounded
    /// to whole pixels so that faces sharing a vertex meet without a gap;
    /// `z` is passed through for the depth test.
    pub fn to_screen(self, scale: i64) -> (r: Vec3f)
        ensures
            r == self.to_screen_spec(scale),
    {
        Vec3f::new(project(self.x, scale), project(self.y, scale), self.z)
    }
}

/// One object-space coordinate brought to the screen.
fn project(c: i64, scale: i64) -> (r: i64)
    ensures
        r == screen_coord(c, scale),
{
    if fx_is_finite(c) && fx_is_finite(scale) {
        assert(-0x2000_0000_0000_0000_0000_0000_0000_0000 <= (c + ONE) * scale
            <= 0x2000_0000_0000_0000_0000_0000_0000_0000) by (nonlinear_arith)
            requires
                -0x4000_0000_0000_0000 <= c + ONE <= 0x4000_0001_0000_0000,
                -0x4000_0000_0000_0000 <= scale <= 0x4000_0000_0000_0000,
        ;
        let n: i128 = (c as i128 + ONE as i128) * (scale as i128);
        saturate(round_wide(floor_quotient(n, TWO as i128)))
    } else {
        FX_MAX
    }
}

/// The magnitude of a raw component.
fn magnitude_of(a: i64) -> (r: u64)
    ensures
        r == abs_of(a),
{
    if a < 0 {
        (-(a as i128)) as u64
    } else {
        a as u64
    }
}

/// The component `c` of a vector of raw length `m`, as a fraction of that length.
fn divide_by_length(c: i64, m: u128) -> (r: i64)
    requires
        0 < m < 0x2_0000_0000_0000_0000,
    ensures
        r == sat((c * ONE) / (m as int)),
{
    assert(c * ONE == c * 0x1_0000_0000);
    saturate(floor_quotient((c as i128) * (ONE as i128), m as i128))
}

/// The exact square of a raw component.
fn square(a: i64) -> (s: u128)
    ensures
        s == a * a,
        s <= 0x4000_0000_0000_0000_0000_0000_0000_0000,
{
    let m: u128 = if a < 0 {
        (-(a as i128)) as u128
    } else {
        a as u128
    };
    assert(m * m == a * a && m * m <= 0x4000_0000_0000_0000_0000_0000_0000_0000)
        by (nonlinear_arith)
        requires
            m == a || m == -a,
            0 <= m <= 0x8000_0000_0000_0000,
    ;
    m * m
}

impl SubSpecImpl for Vec3f {
    open spec fn obeys_sub_spec() -> bool {
        true
    }

    open spec fn sub_req(self, other: Vec3f) -> bool {
        true
    }

    open spec fn sub_spec(self, other: Vec3f) -> Vec3f {
        Vec3f {
            x: fx_sub_spec(self.x, other.x),
            y: fx_sub_spec(self.y, other.y),
            z: fx_sub_spec(self.z, other.z),
        }
    }
}

impl Sub for Vec3f {
    type Output = Vec3f;

    fn sub(self, other: Vec3f) -> (r: Vec3f) {
        Vec3f {
            x: fx_sub(self.x, other.x),
            y: fx_sub(self.y, other.y),
            z: fx_sub(self.z, other.z),
        }
    }
}

} // verus!
