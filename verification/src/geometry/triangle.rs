//! Filling a triangle: bounding box, barycentric test and depth test.

use vstd::prelude::*;
use crate::fixed::{
    cross_term, floor_div, floor_quotient, fx_finite, fx_is_finite, sat, saturate, ONE,
};
use crate::frame::{
    buffers_match, cell_index, frame_of, lemma_cell_index_bounds, lemma_cell_index_distinct,
    lemma_cell_of_index, Frame,
};
use crate::geometry::closed_triangle::{exact_cross, lemma_cross3_rotates};
use crate::geometry::types::Vec3f;
use crate::shading::{color_for, color_for_spec, intensity, intensity_spec};
use crate::surface::{in_grid, Color, Surface};

verus! {

/// The scalar -1.0.
pub const MINUS_ONE: i64 = -0x1_0000_0000;

/// The scalar coordinate of the pixel column or row `n`.
pub open spec fn pixel_coord(n: int) -> int {
    n * ONE
}

/// The screen-space point at the cell `(x, y)`.
pub open spec fn pixel_point(x: int, y: int) -> Vec3f {
    Vec3f { x: pixel_coord(x) as i64, y: pixel_coord(y) as i64, z: 0 }
}

/// The least of three scalars.
pub open spec fn min3(a: i64, b: i64, c: i64) -> i64 {
    if a <= b && a <= c {
        a
    } else if b <= c {
        b
    } else {
        c
    }
}

/// The greatest of three scalars.
pub open spec fn max3(a: i64, b: i64, c: i64) -> i64 {
    if a >= b && a >= c {
        a
    } else if b >= c {
        b
    } else {
        c
    }
}

/// Whether the cell `(x, y)` lies in the axis-aligned bounding box of the three vertices.
pub open spec fn in_box(v0: Vec3f, v1: Vec3f, v2: Vec3f, x: int, y: int) -> bool {
    &&& min3(v0.x, v1.x, v2.x) <= pixel_coord(x) <= max3(v0.x, v1.x, v2.x)
    &&& min3(v0.y, v1.y, v2.y) <= pixel_coord(y) <= max3(v0.y, v1.y, v2.y)
}

/// Whether the two screen coordinates of a point are finite.
pub open spec fn placed(v: Vec3f) -> bool {
    fx_finite(v.x) && fx_finite(v.y)
}

/// The cross product `u` of `(v2.x - v0.x, v1.x - v0.x, v0.x - p.x)` and
/// `(v2.y - v0.y, v1.y - v0.y, v0.y - p.y)`, from which the barycentric
/// weights of `p` are read. It is taken exactly, over the raw coordinates:
/// its components count in units of `2^-64`.
pub open spec fn edge_cross(v0: Vec3f, v1: Vec3f, v2: Vec3f, p: Vec3f) -> (int, int, int) {
    exact_cross(
        v0.x as int,
        v0.y as int,
        v1.x as int,
        v1.y as int,
        v2.x as int,
        v2.y as int,
        p.x as int,
        p.y as int,
    )
}

/// One pixel of area in the units of the exact cross product: `2^64`.
pub const AREA_UNIT: i128 = 0x1_0000_0000_0000_0000;

/// Twice the signed area of the triangle in screen space, exactly, in units
/// of `2^-64`: `u.z`, which does not depend on the point the weights are
/// asked for.
pub open spec fn exact_area(v0: Vec3f, v1: Vec3f, v2: Vec3f) -> int {
    edge_cross(v0, v1, v2, v0).2
}

/// Twice the signed area as a scalar, rounded down: what the weights are
/// divided by.
pub open spec fn doubled_area(v0: Vec3f, v1: Vec3f, v2: Vec3f) -> int {
    exact_area(v0, v1, v2) / (ONE as int)
}

/// A triangle is degenerate when its doubled area is less than one pixel:
/// `|u.z| < 1`, on the exact `u.z`.
pub open spec fn degenerate(v0: Vec3f, v1: Vec3f, v2: Vec3f) -> bool {
    -AREA_UNIT < exact_area(v0, v1, v2) < AREA_UNIT
}

/// The scalar `n / d`, for an exact numerator `n` in units of `2^-64` and
/// a scalar `d`: rounded down and saturated. Its sign is that of the exact
/// quotient.
pub open spec fn weight(n: int, d: int) -> i64 {
    sat(floor_div(n, d))
}

/// The weights of `p` with respect to `v0`, `v1`, `v2` (in `x`, `y`, `z`):
/// `(u.z - u.x - u.y) / u.z`, `u.y / u.z` and `u.x / u.z`. For a degenerate
/// triangle, and where a coordinate of a vertex or of `p` is not finite,
/// the weights are `(-1, 1, 1)`.
pub open spec fn barycentric_spec(v0: Vec3f, v1: Vec3f, v2: Vec3f, p: Vec3f) -> Vec3f {
    let u = edge_cross(v0, v1, v2, p);
    let area = doubled_area(v0, v1, v2);
    if !(placed(v0) && placed(v1) && placed(v2) && placed(p)) || degenerate(v0, v1, v2) {
        Vec3f { x: MINUS_ONE, y: ONE, z: ONE }
    } else {
        Vec3f { x: weight(u.2 - u.0 - u.1, area), y: weight(u.1, area), z: weight(u.0, area) }
    }
}

/// No weight is negative.
pub open spec fn inside(bc: Vec3f) -> bool {
    bc.x >= 0 && bc.y >= 0 && bc.z >= 0
}

/// Whether the triangle produces a fragment at the cell `(x, y)` of a
/// `width` by `height` surface.
pub open spec fn covers(
    v0: Vec3f,
    v1: Vec3f,
    v2: Vec3f,
    width: int,
    height: int,
    x: int,
    y: int,
) -> bool {
    &&& in_grid(width, height, x, y)
    &&& v0.finite() && v1.finite() && v2.finite()
    &&& in_box(v0, v1, v2, x, y)
    &&& inside(barycentric_spec(v0, v1, v2, pixel_point(x, y)))
}

/// Depth of the triangle's fragment at `(x, y)`: the vertex depths weighted
/// by the barycentric weights of the cell.
pub open spec fn fragment_depth(v0: Vec3f, v1: Vec3f, v2: Vec3f, x: int, y: int) -> i64 {
    (Vec3f { x: v0.z, y: v1.z, z: v2.z }).dot_spec(
        barycentric_spec(v0, v1, v2, pixel_point(x, y)),
    )
}

/// The triangle has a fragment at `(x, y)` that is strictly nearer than what
/// the frame holds there.
pub open spec fn wins(f: Frame, v0: Vec3f, v1: Vec3f, v2: Vec3f, x: int, y: int) -> bool {
    covers(v0, v1, v2, f.width, f.height, x, y) && f.depth_at(x, y) < fragment_depth(
        v0,
        v1,
        v2,
        x,
        y,
    )
}

/// The frame after the triangle has been filled with `color`: each cell where
/// the triangle wins takes the color and the fragment's depth, every other
/// cell keeps both.
pub open spec fn fill(f: Frame, v0: Vec3f, v1: Vec3f, v2: Vec3f, color: Color) -> Frame {
    Frame {
        width: f.width,
        height: f.height,
        pixels: Map::new(
            |p: (int, int)| f.pixels.dom().contains(p),
            |p: (int, int)|
                if wins(f, v0, v1, v2, p.0, p.1) {
                    color
                } else {
                    f.pixels[p]
                },
        ),
        depth: Seq::new(
            f.depth.len(),
            |i: int|
                if wins(f, v0, v1, v2, i % f.width, i / f.width) {
                    fragment_depth(v0, v1, v2, i % f.width, i / f.width)
                } else {
                    f.depth[i]
                },
        ),
    }
}

/// A triangle that wins no cell leaves the frame as it is.
pub proof fn lemma_fill_without_winner(f: Frame, v0: Vec3f, v1: Vec3f, v2: Vec3f, color: Color)
    requires
        forall|x: int, y: int| !wins(f, v0, v1, v2, x, y),
    ensures
        fill(f, v0, v1, v2, color) == f,
{
    let g = fill(f, v0, v1, v2, color);
    assert(g.pixels =~= f.pixels);
    assert(g.depth =~= f.depth);
}

/// What the loops of `draw_triangle` keep true of the cell `(x, y)`: a cell
/// already visited holds the outcome of the depth test, any other cell is
/// untouched.
spec fn cell_settled(
    f0: Frame,
    cur: Frame,
    v0: Vec3f,
    v1: Vec3f,
    v2: Vec3f,
    color: Color,
    visited: bool,
    x: int,
    y: int,
) -> bool {
    if visited && wins(f0, v0, v1, v2, x, y) {
        cur.color_at(x, y) == color && cur.depth_at(x, y) == fragment_depth(v0, v1, v2, x, y)
    } else {
        cur.color_at(x, y) == f0.color_at(x, y) && cur.depth_at(x, y) == f0.depth_at(x, y)
    }
}

fn min_of(a: i64, b: i64, c: i64) -> (m: i64)
    ensures
        m == min3(a, b, c),
{
    if a <= b && a <= c {
        a
    } else if b <= c {
        b
    } else {
        c
    }
}

fn max_of(a: i64, b: i64, c: i64) -> (m: i64)
    ensures
        m == max3(a, b, c),
{
    if a >= b && a >= c {
        a
    } else if b >= c {
        b
    } else {
        c
    }
}

/// The indices below `limit` whose coordinate lies in `[c_min, c_max]` are
/// exactly those from `lo` up to, but not including, `end`.
spec fn spans(c_min: i64, c_max: i64, limit: int, lo: int, end: int) -> bool {
    &&& 0 <= lo
    &&& end <= limit
    &&& forall|k: int|
        0 <= k < limit ==> (c_min <= #[trigger] pixel_coord(k) <= c_max <==> lo <= k < end)
}

/// The range of pixel indices below `limit` whose coordinates lie in `[c_min, c_max]`.
fn pixel_span(c_min: i64, c_max: i64, limit: u32) -> (r: (u32, u32))
    ensures
        spans(c_min, c_max, limit as int, r.0 as int, r.1 as int),
{
    let lo: u32 = if c_min <= 0 {
        0
    } else {
        let q: i64 = (c_min - 1) / ONE + 1;
        if q >= limit as i64 {
            limit
        } else {
            q as u32
        }
    };
    let end: u32 = if c_max < 0 {
        0
    } else {
        let q: i64 = c_max / ONE + 1;
        if q >= limit as i64 {
            limit
        } else {
            q as u32
        }
    };
    (lo, end)
}

/// Place of the cell `(x, y)` in a depth buffer of `cells` entries.
fn depth_index(width: u32, x: u32, y: u32, cells: usize) -> (idx: usize)
    requires
        x < width,
        cell_index(width as int, x as int, y as int) < cells,
    ensures
        idx == cell_index(width as int, x as int, y as int),
{
    assert(0 <= y * width) by (nonlinear_arith)
        requires
            0 <= y,
            0 <= width,
    ;
    x as usize + y as usize * width as usize
}

/// The scalar `n / d`, rounded down and saturated.
fn weigh(n: i128, d: i128) -> (w: i64)
    requires
        d != 0,
        -0x7fff_ffff_ffff_ffff_ffff_ffff_ffff_ffff <= n,
        -0x7fff_ffff_ffff_ffff_ffff_ffff_ffff_ffff <= d,
    ensures
        w == weight(n as int, d as int),
{
    if d > 0 {
        saturate(floor_quotient(n, d))
    } else {
        saturate(floor_quotient(-n, -d))
    }
}

/// Barycentric weights of the screen-space point `p` in the screen-space
/// triangle `v0`, `v1`, `v2`. Only `p.x` and `p.y` are read. No weight is
/// negative exactly when `p` lies in the closed triangle.
pub fn barycentric(v0: Vec3f, v1: Vec3f, v2: Vec3f, p: &Vec3f) -> (bc: Vec3f)
    ensures
        bc == barycentric_spec(v0, v1, v2, *p),
{
    if !(fx_is_finite(v0.x) && fx_is_finite(v0.y) && fx_is_finite(v1.x) && fx_is_finite(v1.y)
        && fx_is_finite(v2.x) && fx_is_finite(v2.y) && fx_is_finite(p.x) && fx_is_finite(p.y)) {
        return Vec3f::new(MINUS_ONE, ONE, ONE);
    }
    let a: i128 = v2.x as i128 - v0.x as i128;
    let b: i128 = v1.x as i128 - v0.x as i128;
    let c: i128 = v0.x as i128 - p.x as i128;
    let d: i128 = v2.y as i128 - v0.y as i128;
    let e: i128 = v1.y as i128 - v0.y as i128;
    let f: i128 = v0.y as i128 - p.y as i128;
    let ux: i128 = cross_term(b, f, c, e);
    let uy: i128 = cross_term(c, d, a, f);
    let uz: i128 = cross_term(a, e, b, d);
    if -AREA_UNIT < uz && uz < AREA_UNIT {
        return Vec3f::new(MINUS_ONE, ONE, ONE);
    }
    let area: i128 = floor_quotient(uz, ONE as i128);
    let rest: i128 = cross_term(a - b, e + f, b + c, d - e);
    proof {
        lemma_cross3_rotates(a as int, b as int, c as int, d as int, e as int, f as int);
    }
    Vec3f::new(weigh(rest, area), weigh(uy, area), weigh(ux, area))
}

/// Fills the screen-space triangle `v0`, `v1`, `v2` with `color`, cell by
/// cell over its bounding box, writing a cell only where the triangle's
/// fragment passes the depth test.
pub fn draw_triangle(
    v0: Vec3f,
    v1: Vec3f,
    v2: Vec3f,
    color: Color,
    surface: &mut Surface,
    zbuffer: &mut Vec<i64>,
)
    requires
        buffers_match(old(surface)@, old(zbuffer)@),
    ensures
        frame_of(final(surface)@, final(zbuffer)@) == fill(
            frame_of(old(surface)@, old(zbuffer)@),
            v0,
            v1,
            v2,
            color,
        ),
{
    let ghost f0 = frame_of(surface@, zbuffer@);
    if !(v0.is_finite() && v1.is_finite() && v2.is_finite()) {
        proof {
            lemma_fill_without_winner(f0, v0, v1, v2, color);
        }
        return ;
    }
    let width: u32 = surface.width();
    let height: u32 = surface.height();
    let cells: usize = zbuffer.len();
    let (x_lo, x_end) = pixel_span(min_of(v0.x, v1.x, v2.x), max_of(v0.x, v1.x, v2.x), width);
    let (y_lo, y_end) = pixel_span(min_of(v0.y, v1.y, v2.y), max_of(v0.y, v1.y, v2.y), height);
    let mut px: u32 = x_lo;
    while px < x_end
        invariant
            x_lo <= px,
            spans(min3(v0.x, v1.x, v2.x), max3(v0.x, v1.x, v2.x), width as int, x_lo as int, x_end as int),
            spans(min3(v0.y, v1.y, v2.y), max3(v0.y, v1.y, v2.y), height as int, y_lo as int, y_end as int),
            v0.finite() && v1.finite() && v2.finite(),
            f0.width == width == surface@.width,
            f0.height == height == surface@.height,
            f0.depth.len() == width * height == cells == zbuffer@.len(),
            forall|x: int, y: int| #[trigger]
                in_grid(width as int, height as int, x, y) ==> cell_settled(
                    f0,
                    frame_of(surface@, zbuffer@),
                    v0,
                    v1,
                    v2,
                    color,
                    x < px,
                    x,
                    y,
                ),
        decreases x_end - px,
    {
        let mut py: u32 = y_lo;
        while py < y_end
            invariant
                x_lo <= px < x_end,
                y_lo <= py,
                spans(min3(v0.x, v1.x, v2.x), max3(v0.x, v1.x, v2.x), width as int, x_lo as int, x_end as int),
                spans(min3(v0.y, v1.y, v2.y), max3(v0.y, v1.y, v2.y), height as int, y_lo as int, y_end as int),
                v0.finite() && v1.finite() && v2.finite(),
                f0.width == width == surface@.width,
                f0.height == height == surface@.height,
                f0.depth.len() == width * height == cells == zbuffer@.len(),
                forall|x: int, y: int| #[trigger]
                    in_grid(width as int, height as int, x, y) ==> cell_settled(
                        f0,
                        frame_of(surface@, zbuffer@),
                        v0,
                        v1,
                        v2,
                        color,
                        x < px || (x == px && y < py),
                        x,
                        y,
                    ),
            decreases y_end - py,
        {
            let ghost before = frame_of(surface@, zbuffer@);
            proof {
                assert(in_grid(width as int, height as int, px as int, py as int));
                assert(in_box(v0, v1, v2, px as int, py as int));
                lemma_cell_index_bounds(width as int, height as int, px as int, py as int);
                assert(cell_settled(f0, before, v0, v1, v2, color, false, px as int, py as int));
            }
            let p = Vec3f::new((px as i64) * ONE, (py as i64) * ONE, 0);
            assert(p == pixel_point(px as int, py as int));
            let bc = barycentric(v0, v1, v2, &p);
            if bc.x >= 0 && bc.y >= 0 && bc.z >= 0 {
                let z: i64 = Vec3f::new(v0.z, v1.z, v2.z).dot(bc);
                let idx: usize = depth_index(width, px, py, cells);
                if zbuffer[idx] < z {
                    zbuffer[idx] = z;
                    surface.put_pixel(px, py, color);
                }
            }
            proof {
                let cur = frame_of(surface@, zbuffer@);
                assert forall|x: int, y: int| #[trigger]
                    in_grid(width as int, height as int, x, y) implies cell_settled(
                    f0,
                    cur,
                    v0,
                    v1,
                    v2,
                    color,
                    x < px || (x == px && y < py + 1),
                    x,
                    y,
                ) by {
                    assert(cell_settled(
                        f0,
                        before,
                        v0,
                        v1,
                        v2,
                        color,
                        x < px || (x == px && y < py),
                        x,
                        y,
                    ));
                    lemma_cell_index_bounds(width as int, height as int, x, y);
                    if (x, y) != (px as int, py as int) {
                        lemma_cell_index_distinct(width as int, x, y, px as int, py as int);
                    }
                }
            }
            py += 1;
        }
        proof {
            let cur = frame_of(surface@, zbuffer@);
            assert forall|x: int, y: int| #[trigger]
                in_grid(width as int, height as int, x, y) implies cell_settled(
                f0,
                cur,
                v0,
                v1,
                v2,
                color,
                x < px + 1,
                x,
                y,
            ) by {
                assert(cell_settled(
                    f0,
                    cur,
                    v0,
                    v1,
                    v2,
                    color,
                    x < px || (x == px && y < py),
                    x,
                    y,
                ));
                if x == px && y >= py {
                    assert(!in_box(v0, v1, v2, x, y));
                }
            }
        }
        px += 1;
    }
    proof {
        let cur = frame_of(surface@, zbuffer@);
        let goal = fill(f0, v0, v1, v2, color);
        assert forall|p: (int, int)| cur.pixels.dom().contains(p) implies cur.pixels[p]
            == goal.pixels[p] by {
            assert(in_grid(width as int, height as int, p.0, p.1));
            assert(cell_settled(f0, cur, v0, v1, v2, color, p.0 < px, p.0, p.1));
            if p.0 >= px {
                assert(!in_box(v0, v1, v2, p.0, p.1));
            }
        }
        assert(cur.pixels =~= goal.pixels);
        assert forall|i: int| 0 <= i < cur.depth.len() implies cur.depth[i] == goal.depth[i] by {
            lemma_cell_of_index(width as int, height as int, i);
            let x = i % (width as int);
            let y = i / (width as int);
            assert(in_grid(width as int, height as int, x, y));
            assert(cell_settled(f0, cur, v0, v1, v2, color, x < px, x, y));
            if x >= px {
                assert(!in_box(v0, v1, v2, x, y));
            }
        }
        assert(cur.depth =~= goal.depth);
    }
}

/// The frame after a face in object space has been projected to the screen
/// at `scale` and filled with `color`. A face with a coordinate that is not
/// finite is not drawn at all.
pub open spec fn project_and_fill(
    f: Frame,
    v0: Vec3f,
    v1: Vec3f,
    v2: Vec3f,
    scale: i64,
    color: Color,
) -> Frame {
    if v0.finite() && v1.finite() && v2.finite() {
        fill(f, v0.to_screen_spec(scale), v1.to_screen_spec(scale), v2.to_screen_spec(scale), color)
    } else {
        f
    }
}

/// The frame after one face has been shaded and filled. A face with a
/// coordinate that is not finite, and a face that the light from
/// `light_dir` does not reach (intensity not above zero), is not drawn at
/// all; any other face is projected to the screen at `scale` and filled
/// with the grey of its intensity.
pub open spec fn shade(
    f: Frame,
    v0: Vec3f,
    v1: Vec3f,
    v2: Vec3f,
    scale: i64,
    light_dir: Vec3f,
) -> Frame {
    let i = intensity_spec(v0, v1, v2, light_dir);
    if v0.finite() && v1.finite() && v2.finite() && i > 0 {
        project_and_fill(f, v0, v1, v2, scale, color_for_spec(i))
    } else {
        f
    }
}

/// Projects the object-space face `v0`, `v1`, `v2` to the screen and fills
/// it with `color`; a face with a coordinate that is not finite leaves both
/// buffers untouched.
pub fn draw_projected(
    v0: Vec3f,
    v1: Vec3f,
    v2: Vec3f,
    scale: i64,
    color: Color,
    surface: &mut Surface,
    zbuffer: &mut Vec<i64>,
)
    requires
        buffers_match(old(surface)@, old(zbuffer)@),
    ensures
        frame_of(final(surface)@, final(zbuffer)@) == project_and_fill(
            frame_of(old(surface)@, old(zbuffer)@),
            v0,
            v1,
            v2,
            scale,
            color,
        ),
{
    if v0.is_finite() && v1.is_finite() && v2.is_finite() {
        draw_triangle(
            v0.to_screen(scale),
            v1.to_screen(scale),
            v2.to_screen(scale),
            color,
            surface,
            zbuffer,
        );
    }
}

/// Shades the object-space face `v0`, `v1`, `v2` under light from
/// `light_dir` and fills it on the surface, unless it faces away or has a
/// coordinate that is not finite.
pub fn shade_triangle(
    v0: Vec3f,
    v1: Vec3f,
    v2: Vec3f,
    scale: i64,
    light_dir: Vec3f,
    surface: &mut Surface,
    zbuffer: &mut Vec<i64>,
)
    requires
        buffers_match(old(surface)@, old(zbuffer)@),
    ensures
        frame_of(final(surface)@, final(zbuffer)@) == shade(
            frame_of(old(surface)@, old(zbuffer)@),
            v0,
            v1,
            v2,
            scale,
            light_dir,
        ),
{
    if !(v0.is_finite() && v1.is_finite() && v2.is_finite()) {
        return ;
    }
    let i: i64 = intensity(v0, v1, v2, light_dir);
    if i > 0 {
        draw_projected(v0, v1, v2, scale, color_for(i), surface, zbuffer);
    }
}

/// One face in object space, the scale of its projection, and the two
/// buffers it is drawn into.
pub struct Triangle<'a> {
    pub v0: Vec3f,
    pub v1: Vec3f,
    pub v2: Vec3f,
    pub scale: i64,
    pub imgbuf: &'a mut Surface,
    pub zbuffer: &'a mut Vec<i64>,
}

/// The direction the light of `Triangle::render` comes from.
pub open spec fn light_direction() -> Vec3f {
    Vec3f { x: 0, y: 0, z: MINUS_ONE }
}

impl<'a> Triangle<'a> {
    /// The frame that the two borrowed buffers make up.
    pub open spec fn frame(&self) -> Frame {
        frame_of(self.imgbuf@, self.zbuffer@)
    }

    /// Shades the face under light along the negative z axis and draws it,
    /// unless it faces away from the light.
    pub fn render(&mut self)
        requires
            buffers_match(old(self).imgbuf@, old(self).zbuffer@),
        ensures
            final(self).v0 == old(self).v0,
            final(self).v1 == old(self).v1,
            final(self).v2 == old(self).v2,
            final(self).scale == old(self).scale,
            final(self).frame() == shade(
                old(self).frame(),
                old(self).v0,
                old(self).v1,
                old(self).v2,
                old(self).scale,
                light_direction(),
            ),
            *final(final(self).imgbuf) == *final(old(self).imgbuf),
            *final(final(self).zbuffer) == *final(old(self).zbuffer),
    {
        let light_dir = Vec3f::new(0, 0, MINUS_ONE);
        shade_triangle(
            self.v0,
            self.v1,
            self.v2,
            self.scale,
            light_dir,
            self.imgbuf,
            self.zbuffer,
        );
    }

    /// Barycentric weights of the screen-space point `p` in this triangle
    /// once projected to the screen.
    pub fn barycentric(&self, p: &Vec3f) -> (bc: Vec3f)
        ensures
            bc == barycentric_spec(
                self.v0.to_screen_spec(self.scale),
                self.v1.to_screen_spec(self.scale),
                self.v2.to_screen_spec(self.scale),
                *p,
            ),
    {
        let v0 = self.v0.to_screen(self.scale);
        let v1 = self.v1.to_screen(self.scale);
        let v2 = self.v2.to_screen(self.scale);
        barycentric(v0, v1, v2, p)
    }

    /// Projects the face to the screen and fills it with `color`. A face
    /// with a coordinate that is not finite is not drawn.
    pub fn draw(&mut self, color: Color)
        requires
            buffers_match(old(self).imgbuf@, old(self).zbuffer@),
        ensures
            final(self).v0 == old(self).v0,
            final(self).v1 == old(self).v1,
            final(self).v2 == old(self).v2,
            final(self).scale == old(self).scale,
            final(self).frame() == project_and_fill(
                old(self).frame(),
                old(self).v0,
                old(self).v1,
                old(self).v2,
                old(self).scale,
                color,
            ),
            *final(final(self).imgbuf) == *final(old(self).imgbuf),
            *final(final(self).zbuffer) == *final(old(self).zbuffer),
    {
        draw_projected(self.v0, self.v1, self.v2, self.scale, color, self.imgbuf, self.zbuffer);
    }
}

} // verus!
