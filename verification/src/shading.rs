//! Flat shading: one grey per face, from the angle between the face normal
//! and the light.

use vstd::prelude::*;
use crate::fixed::{cross_term, floor_quotient, fx_mul, fx_mul_spec, ONE};
use crate::geometry::closed_triangle::cross3;
use crate::geometry::types::Vec3f;
use crate::surface::Color;

verus! {

/// The scalar 0.85 (rounded down): how much of the full brightness a face
/// turned straight at the light receives.
pub const BRIGHTNESS: i64 = 3650722201;

/// The least magnitude that is too large for a component of a normal:
/// that of the scalars that are not finite.
pub const NARROW: i128 = 0x3fff_ffff_ffff_ffff;

/// The magnitude of an integer.
pub open spec fn abs_int(a: int) -> int {
    if a < 0 {
        -a
    } else {
        a
    }
}

/// The magnitude of the longest of three components.
pub open spec fn longest3(n: (int, int, int)) -> int {
    let a = abs_int(n.0);
    let b = abs_int(n.1);
    let c = abs_int(n.2);
    if a >= b && a >= c {
        a
    } else if b >= c {
        b
    } else {
        c
    }
}

/// The cross product of the edges `v2 - v0` and `v1 - v0`, taken exactly
/// over the raw coordinates.
pub open spec fn exact_normal(v0: Vec3f, v1: Vec3f, v2: Vec3f) -> (int, int, int) {
    cross3(
        v2.x - v0.x,
        v2.y - v0.y,
        v2.z - v0.z,
        v1.x - v0.x,
        v1.y - v0.y,
        v1.z - v0.z,
    )
}

/// Three components halved, each rounded down.
pub open spec fn halved(n: (int, int, int)) -> (int, int, int) {
    (n.0 / 2, n.1 / 2, n.2 / 2)
}

/// A vector halved until each component fits a scalar. Only its direction
/// is of interest, and that is kept to within one part in `2^60`.
pub open spec fn narrowed(n: (int, int, int)) -> Vec3f
    decreases longest3(n),
{
    if longest3(n) < NARROW {
        Vec3f { x: n.0 as i64, y: n.1 as i64, z: n.2 as i64 }
    } else {
        proof {
            assert(longest3(halved(n)) < longest3(n));
        }
        narrowed(halved(n))
    }
}

/// The normal of the face `v0`, `v1`, `v2`, not yet of unit length. Its
/// direction is that of the exact cross product of the edges `v2 - v0` and
/// `v1 - v0`.
pub open spec fn face_normal(v0: Vec3f, v1: Vec3f, v2: Vec3f) -> Vec3f {
    narrowed(exact_normal(v0, v1, v2))
}

/// Brightness of a face under light from `light_dir`: the unit normal dotted
/// with the light direction, times `BRIGHTNESS`; zero for a face without
/// area and for a face with a coordinate that is not finite.
pub open spec fn intensity_spec(v0: Vec3f, v1: Vec3f, v2: Vec3f, light_dir: Vec3f) -> i64 {
    let n = face_normal(v0, v1, v2);
    if !(v0.finite() && v1.finite() && v2.finite()) || n.max_abs() == 0 {
        0
    } else {
        fx_mul_spec(n.normalized().dot_spec(light_dir), BRIGHTNESS)
    }
}

/// The channel value of an intensity: the intensity clamped to `[0, 1]`,
/// times 255, rounded down.
pub open spec fn grey_level(intensity: i64) -> u8 {
    if intensity <= 0 {
        0
    } else if intensity >= ONE {
        255
    } else {
        ((intensity * 255) / (ONE as int)) as u8
    }
}

/// The grey of an intensity: its level in every channel.
pub open spec fn color_for_spec(intensity: i64) -> Color {
    Color { r: grey_level(intensity), g: grey_level(intensity), b: grey_level(intensity) }
}

/// The magnitude of the longest of three components.
fn longest_of(x: i128, y: i128, z: i128) -> (r: i128)
    requires
        -0x7fff_ffff_ffff_ffff_ffff_ffff_ffff_ffff <= x,
        -0x7fff_ffff_ffff_ffff_ffff_ffff_ffff_ffff <= y,
        -0x7fff_ffff_ffff_ffff_ffff_ffff_ffff_ffff <= z,
    ensures
        r == longest3((x as int, y as int, z as int)),
{
    let a: i128 = if x < 0 {
        -x
    } else {
        x
    };
    let b: i128 = if y < 0 {
        -y
    } else {
        y
    };
    let c: i128 = if z < 0 {
        -z
    } else {
        z
    };
    if a >= b && a >= c {
        a
    } else if b >= c {
        b
    } else {
        c
    }
}

/// How brightly the face `v0`, `v1`, `v2` is lit from `light_dir`. A result
/// that is not above zero means that the face is turned away from the light
/// (or has no area, or a coordinate that is not finite) and is not to be
/// drawn.
pub fn intensity(v0: Vec3f, v1: Vec3f, v2: Vec3f, light_dir: Vec3f) -> (i: i64)
    ensures
        i == intensity_spec(v0, v1, v2, light_dir),
{
    if !(v0.is_finite() && v1.is_finite() && v2.is_finite()) {
        return 0;
    }
    let ax: i128 = v2.x as i128 - v0.x as i128;
    let ay: i128 = v2.y as i128 - v0.y as i128;
    let az: i128 = v2.z as i128 - v0.z as i128;
    let bx: i128 = v1.x as i128 - v0.x as i128;
    let by: i128 = v1.y as i128 - v0.y as i128;
    let bz: i128 = v1.z as i128 - v0.z as i128;
    let mut nx: i128 = cross_term(ay, bz, az, by);
    let mut ny: i128 = cross_term(az, bx, ax, bz);
    let mut nz: i128 = cross_term(ax, by, ay, bx);
    let ghost exact = exact_normal(v0, v1, v2);
    assert(exact == (nx as int, ny as int, nz as int));
    while longest_of(nx, ny, nz) >= NARROW
        invariant
            -0x7fff_ffff_ffff_ffff_ffff_ffff_ffff_ffff <= nx,
            -0x7fff_ffff_ffff_ffff_ffff_ffff_ffff_ffff <= ny,
            -0x7fff_ffff_ffff_ffff_ffff_ffff_ffff_ffff <= nz,
            narrowed((nx as int, ny as int, nz as int)) == narrowed(exact),
        decreases longest3((nx as int, ny as int, nz as int)),
    {
        proof {
            let n = (nx as int, ny as int, nz as int);
            assert(longest3(halved(n)) < longest3(n));
        }
        nx = floor_quotient(nx, 2);
        ny = floor_quotient(ny, 2);
        nz = floor_quotient(nz, 2);
    }
    let mut n = Vec3f::new(nx as i64, ny as i64, nz as i64);
    if n.x == 0 && n.y == 0 && n.z == 0 {
        return 0;
    }
    n.normalize();
    fx_mul(n.dot(light_dir), BRIGHTNESS)
}

/// The grey that shows an intensity.
pub fn color_for(intensity: i64) -> (c: Color)
    ensures
        c == color_for_spec(intensity),
{
    let level: u8 = if intensity <= 0 {
        0
    } else if intensity >= ONE {
        255
    } else {
        (((intensity as i128) * 255) / (ONE as i128)) as u8
    };
    Color::grey(level)
}

/// Narrowing gives a finite vector, keeps the sign of every component, and
/// does not make a vector vanish: the normal of a face is zero only if the
/// face has no area.
pub proof fn lemma_narrowed_keeps_direction(n: (int, int, int))
    ensures
        narrowed(n).finite(),
        n.0 >= 0 <==> narrowed(n).x >= 0,
        n.1 >= 0 <==> narrowed(n).y >= 0,
        n.2 >= 0 <==> narrowed(n).z >= 0,
        longest3(n) != 0 <==> narrowed(n).max_abs() != 0,
    decreases longest3(n),
{
    if longest3(n) >= NARROW {
        assert(longest3(halved(n)) < longest3(n));
        assert(longest3(halved(n)) != 0);
        lemma_narrowed_keeps_direction(halved(n));
    }
}

/// A face whose unit normal makes no acute angle with the light gets no
/// brightness at all: its intensity is not positive.
pub proof fn lemma_facing_away_is_dark(v0: Vec3f, v1: Vec3f, v2: Vec3f, light_dir: Vec3f)
    requires
        face_normal(v0, v1, v2).normalized().dot_spec(light_dir) <= 0,
    ensures
        intensity_spec(v0, v1, v2, light_dir) <= 0,
{
    let d = face_normal(v0, v1, v2).normalized().dot_spec(light_dir);
    assert(d * BRIGHTNESS <= 0) by (nonlinear_arith)
        requires
            d <= 0,
            BRIGHTNESS > 0,
    ;
}

} // verus!
