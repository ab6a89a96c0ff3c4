//! A small software rasterizer: triangles are projected to the screen,
//! filled cell by cell under a depth test, and shaded with one grey per face.
//!
//! The conventions, held throughout:
//!
//! - Every coordinate, depth and intensity is a fixed-point scalar (module
//!   `fixed`): an `i64` that stands for `raw / 2^32`, between `-2^30` and
//!   `2^30`. Arithmetic rounds down and saturates; a saturated scalar counts
//!   as not finite, and a face or a triangle with such a coordinate is not
//!   drawn.
//! - The fill is exact: a cell is written exactly when it lies in the closed
//!   triangle and passes the depth test.
//! - A larger depth is nearer to the viewer. A fragment replaces a cell only
//!   if it is strictly nearer, and a fresh depth buffer holds `FAR`, which
//!   every fragment beats.
//! - Projection maps `[-1, 1]` to `[0, scale]` without changing sign. The
//!   finished picture is turned upside down once, at the end of a render
//!   pass, so that the y axis of the object space points up.
//! - A face is lit from one direction; a face that the light does not reach
//!   is not drawn.

pub mod fixed;
pub mod frame;
pub mod geometry;
pub mod render;
pub mod shading;
pub mod surface;

use vstd::prelude::*;
use crate::surface::{in_grid, Color, Surface};

verus! {

pub fn white() -> (c: Color)
    ensures
        c == (Color { r: 255, g: 255, b: 255 }),
{
    Color::new(255, 255, 255)
}

pub fn black() -> (c: Color)
    ensures
        c == (Color { r: 0, g: 0, b: 0 }),
{
    Color::new(0, 0, 0)
}

pub fn red() -> (c: Color)
    ensures
        c == (Color { r: 255, g: 0, b: 0 }),
{
    Color::new(255, 0, 0)
}

pub fn green() -> (c: Color)
    ensures
        c == (Color { r: 0, g: 255, b: 0 }),
{
    Color::new(0, 255, 0)
}

pub fn blue() -> (c: Color)
    ensures
        c == (Color { r: 0, g: 0, b: 255 }),
{
    Color::new(0, 0, 255)
}

/// Writes all pixels of a surface with the same color.
pub fn background(color: Color, imgbuf: Surface) -> (filled: Surface)
    ensures
        filled@.width == imgbuf@.width,
        filled@.height == imgbuf@.height,
        forall|x: int, y: int|
            in_grid(imgbuf@.width, imgbuf@.height, x, y) ==> #[trigger] filled@.pixels[(x, y)]
                == color,
{
    let mut img = imgbuf;
    let width: u32 = img.width();
    let height: u32 = img.height();
    let mut y: u32 = 0;
    while y < height
        invariant
            y <= height,
            img@.width == width,
            img@.height == height,
            forall|i: int, j: int|
                in_grid(width as int, height as int, i, j) && j < y ==> #[trigger] img@.pixels[(
                    i,
                    j,
                )] == color,
        decreases height - y,
    {
        let mut x: u32 = 0;
        while x < width
            invariant
                x <= width,
                y < height,
                img@.width == width,
                img@.height == height,
                forall|i: int, j: int|
                    in_grid(width as int, height as int, i, j) && (j < y || (j == y && i < x))
                        ==> #[trigger] img@.pixels[(i, j)] == color,
            decreases width - x,
        {
            img.put_pixel(x, y, color);
            x += 1;
        }
        y += 1;
    }
    img
}

} // verus!
