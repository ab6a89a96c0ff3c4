use rustyrender::fixed::{FX_MAX, ONE};
use rustyrender::frame::{depth_buffer, FAR};
use rustyrender::geometry::triangle::{barycentric, draw_triangle, MINUS_ONE};
use rustyrender::geometry::types::Vec3f;
use rustyrender::surface::{Color, Surface};
use rustyrender::{black, red, white};

fn px(x: i64, y: i64, z: i64) -> Vec3f {
    Vec3f::new(x * ONE, y * ONE, z * ONE)
}

#[test]
fn flat_triangle_on_200_square() {
    let mut surface = Surface::new(200, 200).unwrap();
    let mut zbuffer = depth_buffer(200, 200).unwrap();
    draw_triangle(px(10, 10, 0), px(100, 30, 0), px(190, 160, 0), white(), &mut surface, &mut zbuffer);

    // A point well inside the triangle takes the color and the depth.
    assert_eq!(surface.get_pixel(100, 60), Some(white()));
    assert_eq!(zbuffer[100 + 60 * 200], 0);
    // The three vertices belong to the triangle.
    assert_eq!(surface.get_pixel(10, 10), Some(white()));
    assert_eq!(surface.get_pixel(100, 30), Some(white()));
    assert_eq!(surface.get_pixel(190, 160), Some(white()));
    // Outside the bounding box nothing is written.
    assert_eq!(surface.get_pixel(0, 0), Some(black()));
    assert_eq!(surface.get_pixel(199, 199), Some(black()));
    assert_eq!(zbuffer[0], FAR);
    assert_eq!(zbuffer[199 + 199 * 200], FAR);
    // (50, 50) is in the bounding box but below the long edge: its weight
    // for the second vertex is negative, so it stays background.
    assert_eq!(surface.get_pixel(50, 50), Some(black()));
    assert_eq!(zbuffer[50 + 50 * 200], FAR);
}

#[test]
fn shared_edge_leaves_no_gap() {
    let mut surface = Surface::new(64, 64).unwrap();
    let mut zbuffer = depth_buffer(64, 64).unwrap();
    // A square cut along its diagonal into two triangles of equal depth.
    draw_triangle(px(8, 8, 0), px(40, 8, 0), px(40, 40, 0), white(), &mut surface, &mut zbuffer);
    draw_triangle(px(8, 8, 0), px(40, 40, 0), px(8, 40, 0), red(), &mut surface, &mut zbuffer);
    for y in 8..=40u32 {
        for x in 8..=40u32 {
            let c = surface.get_pixel(x, y).unwrap();
            assert!(c == white() || c == red(), "gap at ({}, {})", x, y);
        }
    }
    // The diagonal was drawn by the first triangle and, at equal depth, is kept.
    for d in 8..=40u32 {
        assert_eq!(surface.get_pixel(d, d), Some(white()));
    }
    assert_eq!(surface.get_pixel(39, 9), Some(white()));
    assert_eq!(surface.get_pixel(9, 39), Some(red()));
    assert_eq!(surface.get_pixel(7, 8), Some(Color::new(0, 0, 0)));
}

fn snapshot(surface: &Surface) -> Vec<Option<Color>> {
    let mut cells = Vec::new();
    for y in 0..surface.height() {
        for x in 0..surface.width() {
            cells.push(surface.get_pixel(x, y));
        }
    }
    cells
}

#[test]
fn barycentric_weights_of_a_right_triangle() {
    let (v0, v1, v2) = (px(0, 0, 0), px(4, 0, 0), px(0, 4, 0));
    assert_eq!(barycentric(v0, v1, v2, &px(1, 1, 0)), Vec3f::new(ONE / 2, ONE / 4, ONE / 4));
    assert_eq!(barycentric(v0, v1, v2, &px(0, 0, 0)), Vec3f::new(ONE, 0, 0));
    assert_eq!(barycentric(v0, v1, v2, &px(4, 0, 0)), Vec3f::new(0, ONE, 0));
    assert_eq!(barycentric(v0, v1, v2, &px(0, 4, 0)), Vec3f::new(0, 0, ONE));
    // Outside: the weight of the first vertex is negative.
    assert_eq!(barycentric(v0, v1, v2, &px(3, 3, 0)), Vec3f::new(-ONE / 2, 3 * (ONE / 4), 3 * (ONE / 4)));
    // The depth of the point is not read.
    assert_eq!(barycentric(v0, v1, v2, &px(1, 1, 99)), Vec3f::new(ONE / 2, ONE / 4, ONE / 4));
}

#[test]
fn barycentric_weights_are_rounded_down() {
    let w = barycentric(px(10, 10, 0), px(100, 30, 0), px(190, 160, 0), &px(50, 50, 0));
    assert_eq!(w, Vec3f::new(3600831167, -520602097, 1214738225));
    let w = barycentric(px(10, 10, 0), px(100, 30, 0), px(190, 160, 0), &px(100, 60, 0));
    assert_eq!(w, Vec3f::new(1171354717, 1952257861, 1171354717));
}

#[test]
fn barycentric_of_a_degenerate_triangle_is_the_sentinel() {
    let sentinel = Vec3f::new(MINUS_ONE, ONE, ONE);
    // Collinear vertices.
    assert_eq!(barycentric(px(0, 0, 0), px(2, 2, 0), px(5, 5, 0), &px(1, 1, 0)), sentinel);
    // All three vertices in one point.
    assert_eq!(barycentric(px(3, 3, 0), px(3, 3, 0), px(3, 3, 0), &px(3, 3, 0)), sentinel);
    // A doubled area just below one pixel.
    let thin = Vec3f::new(ONE - 1, 0, 0);
    assert_eq!(barycentric(px(0, 0, 0), thin, px(0, 1, 0), &px(0, 0, 0)), sentinel);
    // A doubled area of exactly one pixel is not degenerate.
    assert_eq!(barycentric(px(0, 0, 0), px(1, 0, 0), px(0, 1, 0), &px(0, 0, 0)), Vec3f::new(ONE, 0, 0));
}

#[test]
fn degenerate_triangle_writes_nothing() {
    let mut surface = Surface::new(16, 16).unwrap();
    let mut zbuffer = depth_buffer(16, 16).unwrap();
    let before = snapshot(&surface);
    draw_triangle(px(1, 1, 5), px(5, 5, 5), px(9, 9, 5), white(), &mut surface, &mut zbuffer);
    draw_triangle(px(4, 4, 5), px(4, 4, 5), px(4, 4, 5), white(), &mut surface, &mut zbuffer);
    assert_eq!(snapshot(&surface), before);
    assert!(zbuffer.iter().all(|z| *z == FAR));
}

#[test]
fn vertex_that_is_not_finite_rejects_the_triangle() {
    let mut surface = Surface::new(16, 16).unwrap();
    let mut zbuffer = depth_buffer(16, 16).unwrap();
    let before = snapshot(&surface);
    draw_triangle(px(0, 0, 0), px(15, 0, 0), Vec3f::new(0, 15 * ONE, FX_MAX), white(), &mut surface, &mut zbuffer);
    draw_triangle(Vec3f::new(-FX_MAX, 0, 0), px(15, 0, 0), px(0, 15, 0), white(), &mut surface, &mut zbuffer);
    draw_triangle(px(0, 0, 0), Vec3f::new(0, i64::MIN, 0), px(0, 15, 0), white(), &mut surface, &mut zbuffer);
    assert_eq!(snapshot(&surface), before);
    assert!(zbuffer.iter().all(|z| *z == FAR));
}

#[test]
fn second_pass_of_the_same_triangle_changes_nothing() {
    let mut surface = Surface::new(40, 40).unwrap();
    let mut zbuffer = depth_buffer(40, 40).unwrap();
    draw_triangle(px(2, 3, 1), px(35, 8, 4), px(12, 37, -2), red(), &mut surface, &mut zbuffer);
    let pixels = snapshot(&surface);
    let depths = zbuffer.clone();
    assert!(pixels.iter().any(|c| *c == Some(red())));
    draw_triangle(px(2, 3, 1), px(35, 8, 4), px(12, 37, -2), red(), &mut surface, &mut zbuffer);
    assert_eq!(snapshot(&surface), pixels);
    assert_eq!(zbuffer, depths);
    // Even in another color: at equal depth the second pass loses everywhere.
    draw_triangle(px(2, 3, 1), px(35, 8, 4), px(12, 37, -2), white(), &mut surface, &mut zbuffer);
    assert_eq!(snapshot(&surface), pixels);
    assert_eq!(zbuffer, depths);
}

#[test]
fn nearer_triangle_shows_in_either_order() {
    // Larger depth is nearer.
    let near = (px(0, 0, 5), px(32, 0, 5), px(0, 32, 5));
    let far = (px(0, 0, 2), px(16, 0, 2), px(0, 16, 2));

    let mut first = Surface::new(40, 40).unwrap();
    let mut first_z = depth_buffer(40, 40).unwrap();
    draw_triangle(near.0, near.1, near.2, red(), &mut first, &mut first_z);
    draw_triangle(far.0, far.1, far.2, white(), &mut first, &mut first_z);

    let mut second = Surface::new(40, 40).unwrap();
    let mut second_z = depth_buffer(40, 40).unwrap();
    draw_triangle(far.0, far.1, far.2, white(), &mut second, &mut second_z);
    draw_triangle(near.0, near.1, near.2, red(), &mut second, &mut second_z);

    assert_eq!(first.get_pixel(5, 5), Some(red()));
    assert_eq!(second.get_pixel(5, 5), Some(red()));
    assert_eq!(first_z[5 + 5 * 40], 5 * ONE);
    assert_eq!(second_z[5 + 5 * 40], 5 * ONE);
    assert_eq!(snapshot(&first), snapshot(&second));
    assert_eq!(first_z, second_z);
}

#[test]
fn farther_triangle_shows_where_the_nearer_one_is_absent() {
    let mut surface = Surface::new(40, 40).unwrap();
    let mut zbuffer = depth_buffer(40, 40).unwrap();
    draw_triangle(px(0, 0, 5), px(8, 0, 5), px(0, 8, 5), red(), &mut surface, &mut zbuffer);
    draw_triangle(px(0, 0, 2), px(32, 0, 2), px(0, 32, 2), white(), &mut surface, &mut zbuffer);
    assert_eq!(surface.get_pixel(2, 2), Some(red()));
    assert_eq!(zbuffer[2 + 2 * 40], 5 * ONE);
    assert_eq!(surface.get_pixel(12, 12), Some(white()));
    assert_eq!(zbuffer[12 + 12 * 40], 2 * ONE);
    assert_eq!(surface.get_pixel(20, 20), Some(black()));
    assert_eq!(zbuffer[20 + 20 * 40], FAR);
}

#[test]
fn depth_is_interpolated_between_the_vertices() {
    let mut surface = Surface::new(8, 8).unwrap();
    let mut zbuffer = depth_buffer(8, 8).unwrap();
    draw_triangle(px(0, 0, 0), px(4, 0, 4), px(0, 4, 8), white(), &mut surface, &mut zbuffer);
    assert_eq!(zbuffer[0], 0);
    assert_eq!(zbuffer[4], 4 * ONE);
    assert_eq!(zbuffer[4 * 8], 8 * ONE);
    // Weights (1/2, 1/4, 1/4) at (1, 1): 0 / 2 + 4 / 4 + 8 / 4 = 3.
    assert_eq!(zbuffer[1 + 8], 3 * ONE);
    assert_eq!(zbuffer[2 + 2 * 8], 6 * ONE);
    assert_eq!(zbuffer[3 + 3 * 8], FAR);
}

#[test]
fn cell_that_already_holds_a_nearer_depth_is_kept() {
    let mut surface = Surface::new(8, 8).unwrap();
    let mut zbuffer = depth_buffer(8, 8).unwrap();
    zbuffer[1 + 8] = 3 * ONE;
    zbuffer[2 + 8] = 3 * ONE - 1;
    draw_triangle(px(0, 0, 3), px(8, 0, 3), px(0, 8, 3), white(), &mut surface, &mut zbuffer);
    // Equal depth does not pass the strict test; one step farther does.
    assert_eq!(surface.get_pixel(1, 1), Some(black()));
    assert_eq!(surface.get_pixel(2, 1), Some(white()));
    assert_eq!(zbuffer[2 + 8], 3 * ONE);
}

#[test]
fn triangle_is_clipped_to_the_surface() {
    let mut surface = Surface::new(10, 10).unwrap();
    let mut zbuffer = depth_buffer(10, 10).unwrap();
    draw_triangle(px(-20, -20, 0), px(40, -20, 0), px(-20, 40, 0), white(), &mut surface, &mut zbuffer);
    // x + y <= 20 holds on the whole surface: every cell is covered.
    assert!(snapshot(&surface).iter().all(|c| *c == Some(white())));
    assert!(zbuffer.iter().all(|z| *z == 0));
}

#[test]
fn triangle_outside_the_surface_writes_nothing() {
    let mut surface = Surface::new(10, 10).unwrap();
    let mut zbuffer = depth_buffer(10, 10).unwrap();
    draw_triangle(px(20, 20, 1), px(40, 20, 1), px(20, 40, 1), white(), &mut surface, &mut zbuffer);
    draw_triangle(px(-9, -9, 1), px(-1, -9, 1), px(-9, -1, 1), white(), &mut surface, &mut zbuffer);
    draw_triangle(px(3, -50, 1), px(6, -50, 1), px(3, -40, 1), white(), &mut surface, &mut zbuffer);
    assert!(snapshot(&surface).iter().all(|c| *c == Some(black())));
    assert!(zbuffer.iter().all(|z| *z == FAR));
}

#[test]
fn written_cells_lie_in_the_bounding_box_and_have_no_negative_weight() {
    let (v0, v1, v2) = (px(3, 2, 0), px(27, 9, 0), px(11, 25, 0));
    let mut surface = Surface::new(32, 32).unwrap();
    let mut zbuffer = depth_buffer(32, 32).unwrap();
    draw_triangle(v0, v1, v2, white(), &mut surface, &mut zbuffer);
    let mut written = 0;
    for y in 0..32u32 {
        for x in 0..32u32 {
            let w = barycentric(v0, v1, v2, &px(x as i64, y as i64, 0));
            let inside = w.x >= 0 && w.y >= 0 && w.z >= 0;
            let colored = surface.get_pixel(x, y) == Some(white());
            assert_eq!(colored, inside, "cell ({}, {})", x, y);
            if colored {
                assert!((3..=27).contains(&x) && (2..=25).contains(&y));
                written += 1;
            }
        }
    }
    // The area is 248; the cells on the boundary add to it.
    assert!((240..=280).contains(&written), "{} cells", written);
}

#[test]
fn vertices_between_pixels_cover_the_whole_cells_inside() {
    let half = ONE / 2;
    let mut surface = Surface::new(8, 8).unwrap();
    let mut zbuffer = depth_buffer(8, 8).unwrap();
    draw_triangle(
        Vec3f::new(half, half, 0),
        Vec3f::new(5 * ONE + half, half, 0),
        Vec3f::new(half, 5 * ONE + half, 0),
        white(),
        &mut surface,
        &mut zbuffer,
    );
    assert_eq!(surface.get_pixel(0, 0), Some(black()));
    assert_eq!(surface.get_pixel(1, 1), Some(white()));
    assert_eq!(surface.get_pixel(5, 1), Some(white()));
    assert_eq!(surface.get_pixel(1, 5), Some(white()));
    assert_eq!(surface.get_pixel(3, 3), Some(white()));
    assert_eq!(surface.get_pixel(4, 3), Some(black()));
    assert_eq!(surface.get_pixel(6, 1), Some(black()));
}

#[test]
fn surface_without_cells_is_left_alone() {
    let mut surface = Surface::new(0, 5).unwrap();
    let mut zbuffer = depth_buffer(0, 5).unwrap();
    draw_triangle(px(0, 0, 0), px(4, 0, 0), px(0, 4, 0), white(), &mut surface, &mut zbuffer);
    assert_eq!(surface.width(), 0);
    assert_eq!(surface.height(), 5);
    assert!(zbuffer.is_empty());
}

/// Whether the point lies in the closed triangle, by exact integer arithmetic.
fn in_closed_triangle(v: [(i64, i64); 3], x: i64, y: i64) -> bool {
    let (a, b, c) = (v[2].0 - v[0].0, v[1].0 - v[0].0, v[0].0 - x);
    let (d, e, f) = (v[2].1 - v[0].1, v[1].1 - v[0].1, v[0].1 - y);
    let (ux, uy, uz) = (b * f - c * e, c * d - a * f, a * e - b * d);
    uz != 0 && (uz - ux - uy) * uz >= 0 && uy * uz >= 0 && ux * uz >= 0
}

#[test]
fn fill_of_whole_pixel_triangles_matches_exact_geometry() {
    let triangles = [
        [(3, 2), (27, 9), (11, 25)],
        [(11, 25), (27, 9), (3, 2)],
        [(0, 0), (31, 0), (0, 31)],
        [(-7, 5), (40, 6), (13, 29)],
        [(1, 1), (30, 2), (29, 3)],
        [(5, 5), (6, 5), (5, 6)],
        [(4, 4), (20, 20), (12, 12)],
    ];
    for v in triangles {
        let mut surface = Surface::new(32, 32).unwrap();
        let mut zbuffer = depth_buffer(32, 32).unwrap();
        draw_triangle(
            px(v[0].0, v[0].1, 0),
            px(v[1].0, v[1].1, 0),
            px(v[2].0, v[2].1, 0),
            red(),
            &mut surface,
            &mut zbuffer,
        );
        for y in 0..32u32 {
            for x in 0..32u32 {
                let drawn = surface.get_pixel(x, y) == Some(red());
                assert_eq!(drawn, in_closed_triangle(v, x as i64, y as i64), "{:?} at ({}, {})", v, x, y);
            }
        }
    }
}

#[test]
fn cells_on_a_common_edge_are_drawn_by_one_of_the_two_triangles() {
    // The edge from (2, 3) to (26, 15) passes through (8, 6), (14, 9) and (20, 12).
    let mut surface = Surface::new(32, 32).unwrap();
    let mut zbuffer = depth_buffer(32, 32).unwrap();
    draw_triangle(px(2, 3, 1), px(26, 15, 1), px(5, 28, 1), white(), &mut surface, &mut zbuffer);
    draw_triangle(px(26, 15, 7), px(2, 3, 7), px(20, 1, 7), red(), &mut surface, &mut zbuffer);
    for (x, y) in [(2, 3), (8, 6), (14, 9), (20, 12), (26, 15)] {
        let c = surface.get_pixel(x, y).unwrap();
        assert!(c == white() || c == red(), "gap at ({}, {})", x, y);
        assert!(zbuffer[(x + y * 32) as usize] > FAR);
    }
}

#[test]
fn barycentric_signs_are_exact_on_large_triangles() {
    let (v0, v1, v2) = (px(0, 0, 0), px(50000, 0, 0), px(0, 50000, 0));
    // One row beyond the long edge: the first weight is negative.
    assert_eq!(barycentric(v0, v1, v2, &px(25000, 25001, 0)), Vec3f::new(-85900, ONE / 2, 2147569547));
    // On the long edge: the first weight is zero.
    assert_eq!(barycentric(v0, v1, v2, &px(25000, 25000, 0)), Vec3f::new(0, ONE / 2, ONE / 2));
    // Across the whole range of the scalars.
    let far = (1 << 30) - 1;
    let (w0, w1, w2) = (px(-far, -far, 0), px(far, -far, 0), px(-far, far, 0));
    let on = barycentric(w0, w1, w2, &px(0, 0, 0));
    assert!(on.x >= 0 && on.y >= 0 && on.z >= 0);
    let off = barycentric(w0, w1, w2, &Vec3f::new(1, 0, 0));
    assert!(off.x < 0 && off.y >= 0 && off.z >= 0);
}

#[test]
fn barycentric_of_what_is_not_finite_is_the_sentinel() {
    let sentinel = Vec3f::new(MINUS_ONE, ONE, ONE);
    let (v0, v1, v2) = (px(0, 0, 0), px(4, 0, 0), px(0, 4, 0));
    assert_eq!(barycentric(Vec3f::new(FX_MAX, 0, 0), v1, v2, &px(1, 1, 0)), sentinel);
    assert_eq!(barycentric(v0, Vec3f::new(0, -FX_MAX, 0), v2, &px(1, 1, 0)), sentinel);
    assert_eq!(barycentric(v0, v1, Vec3f::new(i64::MIN, 0, 0), &px(1, 1, 0)), sentinel);
    assert_eq!(barycentric(v0, v1, v2, &Vec3f::new(ONE, i64::MAX, 0)), sentinel);
    // Only the screen position counts here; the depth is not read.
    assert_eq!(
        barycentric(Vec3f::new(0, 0, FX_MAX), v1, v2, &px(1, 1, 0)),
        Vec3f::new(ONE / 2, ONE / 4, ONE / 4)
    );
}

#[test]
fn fill_is_exact_beyond_46340_pixels() {
    // The triangle (0, 0), (50000, 0), (0, 50000) seen through a window of
    // 8 by 8 cells at (24996, 24996): the long edge cuts it in two.
    let shift = 24996;
    let mut surface = Surface::new(8, 8).unwrap();
    let mut zbuffer = depth_buffer(8, 8).unwrap();
    draw_triangle(
        px(-shift, -shift, 0),
        px(50000 - shift, -shift, 0),
        px(-shift, 50000 - shift, 0),
        red(),
        &mut surface,
        &mut zbuffer,
    );
    for y in 0..8i64 {
        for x in 0..8i64 {
            let inside = (x + shift) + (y + shift) <= 50000;
            assert_eq!(surface.get_pixel(x as u32, y as u32) == Some(red()), inside, "({}, {})", x, y);
        }
    }
}

#[test]
fn weights_of_inside_points_add_up_to_one() {
    let (v0, v1, v2) = (px(3, 2, 0), px(27, 9, 0), Vec3f::new(11 * ONE + 5, 25 * ONE - 77, 0));
    let mut seen = 0;
    for y in 0..32 {
        for x in 0..32 {
            let w = barycentric(v0, v1, v2, &px(x, y, 0));
            if w.x >= 0 && w.y >= 0 && w.z >= 0 {
                let sum = w.x + w.y + w.z;
                assert!(ONE - 3 <= sum && sum <= ONE, "({}, {}) gives {}", x, y, sum);
                assert!(w.x <= ONE && w.y <= ONE && w.z <= ONE);
                seen += 1;
            }
        }
    }
    assert!(seen > 200);
}

#[test]
fn doubled_area_just_below_one_pixel_is_degenerate() {
    let sentinel = Vec3f::new(MINUS_ONE, ONE, ONE);
    // (1 + 2^-32) * (1 - 2^-32) is less than 1 by 2^-64, with either sign.
    let (v0, v1, v2) = (px(0, 0, 0), Vec3f::new(ONE + 1, 0, 0), Vec3f::new(0, ONE - 1, 0));
    assert_eq!(barycentric(v0, v1, v2, &px(0, 0, 0)), sentinel);
    assert_eq!(barycentric(v0, v2, v1, &px(0, 0, 0)), sentinel);
    let mut surface = Surface::new(4, 4).unwrap();
    let mut zbuffer = depth_buffer(4, 4).unwrap();
    draw_triangle(v0, v1, v2, white(), &mut surface, &mut zbuffer);
    draw_triangle(v0, v2, v1, white(), &mut surface, &mut zbuffer);
    assert_eq!(snapshot(&surface).iter().filter(|c| **c == Some(white())).count(), 0);
    // Exactly one pixel of doubled area, with either sign, is not.
    assert_eq!(barycentric(v0, px(1, 0, 0), px(0, 1, 0), &px(0, 0, 0)), Vec3f::new(ONE, 0, 0));
    assert_eq!(barycentric(v0, px(0, 1, 0), px(1, 0, 0), &px(0, 0, 0)), Vec3f::new(ONE, 0, 0));
}

#[test]
fn weights_of_inside_points_give_the_point_back() {
    let (v0, v1, v2) = (px(3, 2, 0), px(27, 9, 0), Vec3f::new(11 * ONE + 5, 25 * ONE - 77, 0));
    let mut seen = 0;
    for y in 0..32 {
        for x in 0..32 {
            let p = px(x, y, 0);
            let w = barycentric(v0, v1, v2, &p);
            if w.x >= 0 && w.y >= 0 && w.z >= 0 {
                let (wx, wy, wz) = (w.x as i128, w.y as i128, w.z as i128);
                let back_x = wx * v0.x as i128 + wy * v1.x as i128 + wz * v2.x as i128;
                let back_y = wx * v0.y as i128 + wy * v1.y as i128 + wz * v2.y as i128;
                let slack_x = (v0.x.abs() + v1.x.abs() + v2.x.abs() + p.x.abs()) as i128;
                let slack_y = (v0.y.abs() + v1.y.abs() + v2.y.abs() + p.y.abs()) as i128;
                assert!((back_x - ONE as i128 * p.x as i128).abs() <= slack_x, "({}, {})", x, y);
                assert!((back_y - ONE as i128 * p.y as i128).abs() <= slack_y, "({}, {})", x, y);
                seen += 1;
            }
        }
    }
    assert!(seen > 200);
}
