//! The state of one render pass: the surface together with its depth buffer.
//!
//! The depth buffer is a flat vector with one entry per cell of the surface;
//! the entry of cell `(x, y)` sits at `x + y * width`. A larger depth is
//! nearer to the viewer, and a new fragment replaces a cell only if it is
//! strictly nearer than what the cell holds.

use vstd::prelude::*;
use vstd::arithmetic::div_mod::lemma_fundamental_div_mod;
use vstd::arithmetic::div_mod::lemma_fundamental_div_mod_converse;
use crate::surface::{in_grid, Color, Surface, SurfaceView};

verus! {

/// The depth that every fragment beats: what a fresh buffer holds.
pub const FAR: i64 = -0x8000_0000_0000_0000;

/// Place of cell `(x, y)` in the depth buffer of a surface `width` cells wide.
pub open spec fn cell_index(width: int, x: int, y: int) -> int {
    x + y * width
}

/// Surface and depth buffer seen as one value.
pub struct Frame {
    pub width: int,
    pub height: int,
    pub pixels: Map<(int, int), Color>,
    pub depth: Seq<i64>,
}

impl Frame {
    /// The depth buffer has one entry per cell, and the pixel map one color per cell.
    pub open spec fn wf(self) -> bool {
        &&& 0 <= self.width
        &&& 0 <= self.height
        &&& self.depth.len() == self.width * self.height
        &&& forall|x: int, y: int|
            self.pixels.dom().contains((x, y)) <==> in_grid(self.width, self.height, x, y)
    }

    /// The color of the cell `(x, y)`.
    pub open spec fn color_at(self, x: int, y: int) -> Color {
        self.pixels[(x, y)]
    }

    /// The depth that the cell `(x, y)` holds.
    pub open spec fn depth_at(self, x: int, y: int) -> i64 {
        self.depth[cell_index(self.width, x, y)]
    }
}

/// The frame that a surface and a depth buffer make up.
pub open spec fn frame_of(s: SurfaceView, depth: Seq<i64>) -> Frame {
    Frame { width: s.width, height: s.height, pixels: s.pixels, depth }
}

/// The two buffers of a frame agree in size.
pub open spec fn buffers_match(s: SurfaceView, depth: Seq<i64>) -> bool {
    depth.len() == s.width * s.height
}

/// A cell of the grid has a place inside the depth buffer.
pub proof fn lemma_cell_index_bounds(width: int, height: int, x: int, y: int)
    requires
        in_grid(width, height, x, y),
    ensures
        0 <= cell_index(width, x, y) < width * height,
{
    assert(0 <= y * width && x + y * width < width * height) by (nonlinear_arith)
        requires
            0 <= x < width,
            0 <= y < height,
    ;
}

/// Two different cells of the grid have different places in the depth buffer.
pub proof fn lemma_cell_index_distinct(width: int, x1: int, y1: int, x2: int, y2: int)
    requires
        0 <= x1 < width,
        0 <= x2 < width,
        0 <= y1,
        0 <= y2,
        (x1, y1) != (x2, y2),
    ensures
        cell_index(width, x1, y1) != cell_index(width, x2, y2),
{
    if y1 != y2 {
        assert(x1 + y1 * width != x2 + y2 * width) by (nonlinear_arith)
            requires
                0 <= x1 < width,
                0 <= x2 < width,
                y1 != y2,
        ;
    }
}

/// Every place of the depth buffer belongs to exactly the cell `(i % width, i / width)`.
pub proof fn lemma_cell_of_index(width: int, height: int, i: int)
    requires
        0 <= i < width * height,
        0 <= height,
    ensures
        in_grid(width, height, i % width, i / width),
        cell_index(width, i % width, i / width) == i,
{
    assert(width > 0) by (nonlinear_arith)
        requires
            0 <= i < width * height,
            0 <= height,
    ;
    lemma_fundamental_div_mod(i, width);
    let q = i / width;
    let r = i % width;
    assert(q * width == width * q) by (nonlinear_arith);
    assert(0 <= q < height) by (nonlinear_arith)
        requires
            i == width * q + r,
            0 <= r < width,
            0 <= i < width * height,
    ;
}

/// The cell whose place in the depth buffer is `cell_index(width, x, y)` is `(x, y)`.
pub proof fn lemma_index_of_cell(width: int, x: int, y: int)
    requires
        0 <= x < width,
    ensures
        cell_index(width, x, y) % width == x,
        cell_index(width, x, y) / width == y,
{
    lemma_fundamental_div_mod_converse(x + y * width, width, y, x);
}

/// Tells whether a depth buffer has one entry for each cell of the surface:
/// what every drawing function asks of its two buffers.
pub fn buffers_agree(surface: &Surface, zbuffer: &Vec<i64>) -> (r: bool)
    ensures
        r == buffers_match(surface@, zbuffer@),
{
    let width: u32 = surface.width();
    let height: u32 = surface.height();
    assert(width * height <= 0xffff_ffff * 0xffff_ffff) by (nonlinear_arith)
        requires
            0 <= width <= 0xffff_ffff,
            0 <= height <= 0xffff_ffff,
    ;
    zbuffer.len() as u128 == (width as u128) * (height as u128)
}

/// A depth buffer for a `width` by `height` surface, every entry `FAR`;
/// `None` when its `8 * width * height` bytes are more than a vector can hold.
pub fn depth_buffer(width: u32, height: u32) -> (r: Option<Vec<i64>>)
    ensures
        r.is_some() <==> 8 * width * height <= isize::MAX,
        r matches Some(z) ==> z@ == Seq::new((width * height) as nat, |i: int| FAR),
{
    assert(8 * width * height <= 8 * 0xffff_ffff * 0xffff_ffff) by (nonlinear_arith)
        requires
            0 <= width <= 0xffff_ffff,
            0 <= height <= 0xffff_ffff,
    ;
    let bytes: u128 = 8 * (width as u128) * (height as u128);
    if bytes > isize::MAX as u128 {
        return None;
    }
    assert(width * height <= 8 * width * height) by (nonlinear_arith)
        requires
            0 <= width,
            0 <= height,
    ;
    let n: usize = ((width as u128) * (height as u128)) as usize;
    let mut z: Vec<i64> = Vec::with_capacity(n);
    while z.len() < n
        invariant
            z.len() <= n,
            forall|i: int| 0 <= i < z.len() ==> z@[i] == FAR,
        decreases n - z.len(),
    {
        z.push(FAR);
    }
    assert(z@ =~= Seq::new((width * height) as nat, |i: int| FAR));
    Some(z)
}

} // verus!
