//! What holds of `fill`, whatever the triangle and the frame.

use vstd::prelude::*;
use crate::frame::{lemma_cell_index_bounds, lemma_index_of_cell, Frame};
use crate::geometry::triangle::{
    barycentric_spec, covers, degenerate, fill, fragment_depth, in_box,
    inside, lemma_fill_without_winner, max3, min3, pixel_coord, pixel_point, shade, wins,
};
use crate::geometry::types::Vec3f;
use crate::shading::{face_normal, lemma_facing_away_is_dark};
use crate::surface::{in_grid, Color};

verus! {

/// `fill` read cell by cell: a cell where the triangle wins takes the color
/// and the fragment's depth, any other cell keeps what it had. The frame
/// stays well formed.
pub proof fn lemma_fill_cell(
    f: Frame,
    v0: Vec3f,
    v1: Vec3f,
    v2: Vec3f,
    color: Color,
    x: int,
    y: int,
)
    requires
        f.wf(),
        in_grid(f.width, f.height, x, y),
    ensures
        fill(f, v0, v1, v2, color).wf(),
        fill(f, v0, v1, v2, color).color_at(x, y) == (if wins(f, v0, v1, v2, x, y) {
            color
        } else {
            f.color_at(x, y)
        }),
        fill(f, v0, v1, v2, color).depth_at(x, y) == (if wins(f, v0, v1, v2, x, y) {
            fragment_depth(v0, v1, v2, x, y)
        } else {
            f.depth_at(x, y)
        }),
{
    lemma_cell_index_bounds(f.width, f.height, x, y);
    lemma_index_of_cell(f.width, x, y);
    assert(f.pixels.dom().contains((x, y)));
}

/// Only cells that the triangle covers can change: a cell of the surface
/// whose color or depth differs after `fill` lies in the bounding box of the
/// triangle and has no negative barycentric weight.
pub proof fn lemma_fill_changes_only_covered(
    f: Frame,
    v0: Vec3f,
    v1: Vec3f,
    v2: Vec3f,
    color: Color,
    x: int,
    y: int,
)
    requires
        f.wf(),
        in_grid(f.width, f.height, x, y),
        fill(f, v0, v1, v2, color).color_at(x, y) != f.color_at(x, y) || fill(
            f,
            v0,
            v1,
            v2,
            color,
        ).depth_at(x, y) != f.depth_at(x, y),
    ensures
        in_box(v0, v1, v2, x, y),
        inside(barycentric_spec(v0, v1, v2, pixel_point(x, y))),
        f.depth_at(x, y) < fragment_depth(v0, v1, v2, x, y),
{
    lemma_fill_cell(f, v0, v1, v2, color, x, y);
}

/// A degenerate triangle writes no cell: the frame is unchanged.
pub proof fn lemma_degenerate_fills_nothing(
    f: Frame,
    v0: Vec3f,
    v1: Vec3f,
    v2: Vec3f,
    color: Color,
)
    requires
        degenerate(v0, v1, v2),
    ensures
        fill(f, v0, v1, v2, color) == f,
{
    assert forall|x: int, y: int| !wins(f, v0, v1, v2, x, y) by {
        assert(!inside(barycentric_spec(v0, v1, v2, pixel_point(x, y))));
    }
    lemma_fill_without_winner(f, v0, v1, v2, color);
}

/// A triangle whose bounding box lies wholly to one side of the surface
/// writes no cell: the frame is unchanged.
pub proof fn lemma_box_off_surface_fills_nothing(
    f: Frame,
    v0: Vec3f,
    v1: Vec3f,
    v2: Vec3f,
    color: Color,
)
    requires
        max3(v0.x, v1.x, v2.x) < 0 || max3(v0.y, v1.y, v2.y) < 0 || min3(v0.x, v1.x, v2.x)
            > pixel_coord(f.width - 1) || min3(v0.y, v1.y, v2.y) > pixel_coord(f.height - 1),
    ensures
        fill(f, v0, v1, v2, color) == f,
{
    assert forall|x: int, y: int| !wins(f, v0, v1, v2, x, y) by {
        if in_grid(f.width, f.height, x, y) {
            assert(0 <= pixel_coord(x) <= pixel_coord(f.width - 1)) by (nonlinear_arith)
                requires
                    0 <= x <= f.width - 1,
                    pixel_coord(x) == x * 0x1_0000_0000,
                    pixel_coord(f.width - 1) == (f.width - 1) * 0x1_0000_0000,
            ;
            assert(0 <= pixel_coord(y) <= pixel_coord(f.height - 1)) by (nonlinear_arith)
                requires
                    0 <= y <= f.height - 1,
                    pixel_coord(y) == y * 0x1_0000_0000,
                    pixel_coord(f.height - 1) == (f.height - 1) * 0x1_0000_0000,
            ;
            assert(!in_box(v0, v1, v2, x, y));
        }
    }
    lemma_fill_without_winner(f, v0, v1, v2, color);
}

/// Filling the same triangle a second time changes nothing: the depth test
/// is strict, so no fragment beats its own depth.
pub proof fn lemma_fill_idempotent(f: Frame, v0: Vec3f, v1: Vec3f, v2: Vec3f, color: Color)
    requires
        f.wf(),
    ensures
        fill(fill(f, v0, v1, v2, color), v0, v1, v2, color) == fill(f, v0, v1, v2, color),
{
    let g = fill(f, v0, v1, v2, color);
    assert forall|x: int, y: int| !wins(g, v0, v1, v2, x, y) by {
        if in_grid(f.width, f.height, x, y) {
            lemma_fill_cell(f, v0, v1, v2, color, x, y);
        }
    }
    lemma_fill_without_winner(g, v0, v1, v2, color);
}

/// Where two triangles both cover a cell and the frame holds nothing as
/// near as the nearer of the two fragments, the cell shows the nearer
/// triangle's color and depth, whichever of the two is filled first.
pub proof fn lemma_nearer_wins_in_either_order(
    f: Frame,
    a0: Vec3f,
    a1: Vec3f,
    a2: Vec3f,
    a_color: Color,
    b0: Vec3f,
    b1: Vec3f,
    b2: Vec3f,
    b_color: Color,
    x: int,
    y: int,
)
    requires
        f.wf(),
        covers(a0, a1, a2, f.width, f.height, x, y),
        covers(b0, b1, b2, f.width, f.height, x, y),
        fragment_depth(b0, b1, b2, x, y) < fragment_depth(a0, a1, a2, x, y),
        f.depth_at(x, y) < fragment_depth(a0, a1, a2, x, y),
    ensures
        fill(fill(f, a0, a1, a2, a_color), b0, b1, b2, b_color).color_at(x, y) == a_color,
        fill(fill(f, b0, b1, b2, b_color), a0, a1, a2, a_color).color_at(x, y) == a_color,
        fill(fill(f, a0, a1, a2, a_color), b0, b1, b2, b_color).depth_at(x, y) == fragment_depth(
            a0,
            a1,
            a2,
            x,
            y,
        ),
        fill(fill(f, b0, b1, b2, b_color), a0, a1, a2, a_color).depth_at(x, y) == fragment_depth(
            a0,
            a1,
            a2,
            x,
            y,
        ),
{
    let fa = fill(f, a0, a1, a2, a_color);
    let fb = fill(f, b0, b1, b2, b_color);
    lemma_fill_cell(f, a0, a1, a2, a_color, x, y);
    lemma_fill_cell(f, b0, b1, b2, b_color, x, y);
    lemma_fill_cell(fa, b0, b1, b2, b_color, x, y);
    lemma_fill_cell(fb, a0, a1, a2, a_color, x, y);
}

/// A face whose unit normal makes no acute angle with the light is not
/// drawn: shading it leaves the frame as it is.
pub proof fn lemma_facing_away_is_not_drawn(
    f: Frame,
    v0: Vec3f,
    v1: Vec3f,
    v2: Vec3f,
    scale: i64,
    light_dir: Vec3f,
)
    requires
        face_normal(v0, v1, v2).normalized().dot_spec(light_dir) <= 0,
    ensures
        shade(f, v0, v1, v2, scale, light_dir) == f,
{
    lemma_facing_away_is_dark(v0, v1, v2, light_dir);
}

} // verus!
