//! The raster surface: a fixed-size grid of colors kept in an `image::ImageBuffer`.

use vstd::prelude::*;
use image::{ImageBuffer, Rgb};

verus! {

/// An opaque color of three 8-bit channels.
#[derive(Copy, Clone, Debug, PartialEq, Eq, Structural)]
pub struct Color {
    pub r: u8,
    pub g: u8,
    pub b: u8,
}

impl Color {
    pub fn new(r: u8, g: u8, b: u8) -> (c: Color)
        ensures
            c == (Color { r, g, b }),
    {
        Color { r: r, g: g, b: b }
    }

    /// The grey whose three channels all hold `level`.
    pub fn grey(level: u8) -> (c: Color)
        ensures
            c == (Color { r: level, g: level, b: level }),
    {
        Color { r: level, g: level, b: level }
    }
}

/// A grid of RGB pixels whose size is fixed when it is made.
#[verifier::external_body]
pub struct Surface {
    buf: ImageBuffer<Rgb<u8>, Vec<u8>>,
}

/// Number of columns of the buffer, as `ImageBuffer::width` reports it.
pub uninterp spec fn surface_width(s: Surface) -> u32;

/// Number of rows of the buffer, as `ImageBuffer::height` reports it.
pub uninterp spec fn surface_height(s: Surface) -> u32;

/// The pixel stored at each `(x, y)` of the buffer.
pub uninterp spec fn surface_pixels(s: Surface) -> Map<(int, int), Color>;

/// What a surface is to its users: its size and the color of every cell.
pub struct SurfaceView {
    pub width: int,
    pub height: int,
    pub pixels: Map<(int, int), Color>,
}

/// Whether `(x, y)` names a cell of a `width` by `height` grid.
pub open spec fn in_grid(width: int, height: int, x: int, y: int) -> bool {
    0 <= x < width && 0 <= y < height
}

impl View for Surface {
    type V = SurfaceView;

    /// The pixel map of the view has exactly the cells of the grid as its domain.
    open spec fn view(&self) -> SurfaceView {
        SurfaceView {
            width: surface_width(*self) as int,
            height: surface_height(*self) as int,
            pixels: Map::new(
                |p: (int, int)|
                    in_grid(surface_width(*self) as int, surface_height(*self) as int, p.0, p.1),
                |p: (int, int)| surface_pixels(*self)[p],
            ),
        }
    }
}

/// Calls `ImageBuffer::new`, which counts the bytes of the buffer in a
/// `usize`, first `3 * width` and then that times `height`, and allocates a
/// zeroed vector of that length. It panics when either product overflows
/// and when the count is more than a vector can hold. Else the result has
/// the size asked for and every pixel is `Rgb([0, 0, 0])`.
#[verifier::external_body]
fn buffer_new(width: u32, height: u32) -> (s: Surface)
    requires
        3 * width <= usize::MAX,
        3 * width * height <= isize::MAX,
    ensures
        surface_width(s) == width,
        surface_height(s) == height,
        forall|x: int, y: int|
            in_grid(width as int, height as int, x, y) ==> #[trigger] surface_pixels(s)[(x, y)]
                == (Color { r: 0, g: 0, b: 0 }),
{
    Surface { buf: ImageBuffer::new(width, height) }
}

/// Calls `ImageBuffer::width`, which returns the width the buffer was made with.
#[verifier::external_body]
fn buffer_width(s: &Surface) -> (w: u32)
    ensures
        w == surface_width(*s),
{
    s.buf.width()
}

/// Calls `ImageBuffer::height`, which returns the height the buffer was made with.
#[verifier::external_body]
fn buffer_height(s: &Surface) -> (h: u32)
    ensures
        h == surface_height(*s),
{
    s.buf.height()
}

/// Calls `ImageBuffer::get_pixel`, which panics outside the bounds and else
/// returns the pixel stored at `(x, y)`.
#[verifier::external_body]
fn buffer_get_pixel(s: &Surface, x: u32, y: u32) -> (c: Color)
    requires
        x < surface_width(*s),
        y < surface_height(*s),
    ensures
        c == surface_pixels(*s)[(x as int, y as int)],
{
    let p = s.buf.get_pixel(x, y);
    Color { r: p.0[0], g: p.0[1], b: p.0[2] }
}

/// Calls `ImageBuffer::put_pixel`, which panics outside the bounds and else
/// overwrites the pixel at `(x, y)`, leaving the size and all other pixels alone.
#[verifier::external_body]
fn buffer_put_pixel(s: &mut Surface, x: u32, y: u32, c: Color)
    requires
        x < surface_width(*old(s)),
        y < surface_height(*old(s)),
    ensures
        surface_width(*final(s)) == surface_width(*old(s)),
        surface_height(*final(s)) == surface_height(*old(s)),
        surface_pixels(*final(s)) == surface_pixels(*old(s)).insert((x as int, y as int), c),
{
    s.buf.put_pixel(x, y, Rgb([c.r, c.g, c.b]));
}

/// Calls `image::imageops::flip_vertical`, which copies the buffer into a new
/// one of the same size, putting row `y` where row `height - 1 - y` was.
#[verifier::external_body]
fn buffer_flip_vertical(s: &Surface) -> (out: Surface)
    ensures
        surface_width(out) == surface_width(*s),
        surface_height(out) == surface_height(*s),
        forall|x: int, y: int|
            in_grid(surface_width(*s) as int, surface_height(*s) as int, x, y)
                ==> #[trigger] surface_pixels(out)[(x, y)] == surface_pixels(*s)[(
                x,
                surface_height(*s) - 1 - y,
            )],
{
    Surface { buf: image::imageops::flip_vertical(&s.buf) }
}

/// The view turned upside down.
pub open spec fn flipped(s: SurfaceView) -> SurfaceView {
    SurfaceView {
        width: s.width,
        height: s.height,
        pixels: Map::new(
            |p: (int, int)| s.pixels.dom().contains(p),
            |p: (int, int)| s.pixels[(p.0, s.height - 1 - p.1)],
        ),
    }
}

impl Surface {
    /// A black surface of the given size, or `None` when the three bytes of
    /// each cell of one row cannot be counted in a `usize`, or when the
    /// `3 * width * height` bytes of the whole are more than a vector can
    /// hold.
    pub fn new(width: u32, height: u32) -> (r: Option<Surface>)
        ensures
            r.is_some() <==> 3 * width <= usize::MAX && 3 * width * height <= isize::MAX,
            r matches Some(s) ==> {
                &&& s@.width == width
                &&& s@.height == height
                &&& forall|x: int, y: int|
                    in_grid(width as int, height as int, x, y) ==> #[trigger] s@.pixels[(x, y)]
                        == (Color { r: 0, g: 0, b: 0 })
            },
    {
        assert(3 * width * height <= 3 * 0xffff_ffff * 0xffff_ffff) by (nonlinear_arith)
            requires
                0 <= width <= 0xffff_ffff,
                0 <= height <= 0xffff_ffff,
        ;
        let row: u128 = 3 * (width as u128);
        let bytes: u128 = row * (height as u128);
        if row <= usize::MAX as u128 && bytes <= isize::MAX as u128 {
            let s = buffer_new(width, height);
            assert forall|x: int, y: int|
                in_grid(width as int, height as int, x, y) implies #[trigger] s@.pixels[(x, y)]
                == (Color { r: 0, g: 0, b: 0 }) by {
                assert(surface_pixels(s)[(x, y)] == (Color { r: 0, g: 0, b: 0 }));
            }
            Some(s)
        } else {
            None
        }
    }

    pub fn width(&self) -> (w: u32)
        ensures
            w == self@.width,
    {
        buffer_width(self)
    }

    pub fn height(&self) -> (h: u32)
        ensures
            h == self@.height,
    {
        buffer_height(self)
    }

    /// The color at `(x, y)`, or `None` outside the surface.
    pub fn get_pixel(&self, x: u32, y: u32) -> (r: Option<Color>)
        ensures
            r == (if in_grid(self@.width, self@.height, x as int, y as int) {
                Some(self@.pixels[(x as int, y as int)])
            } else {
                None
            }),
    {
        if x < buffer_width(self) && y < buffer_height(self) {
            Some(buffer_get_pixel(self, x, y))
        } else {
            None
        }
    }

    /// A copy of the surface with its rows in reverse order.
    pub fn flip_vertical(&self) -> (out: Surface)
        ensures
            out@ == flipped(self@),
    {
        let out = buffer_flip_vertical(self);
        assert(out@.pixels =~= flipped(self@).pixels) by {
            assert forall|p: (int, int)| out@.pixels.dom().contains(p) implies out@.pixels[p]
                == flipped(self@).pixels[p] by {
                assert(in_grid(self@.width, self@.height, p.0, p.1));
                assert(in_grid(self@.width, self@.height, p.0, self@.height - 1 - p.1));
                assert(surface_pixels(out)[(p.0, p.1)] == surface_pixels(*self)[(
                    p.0,
                    self@.height - 1 - p.1,
                )]);
            }
        }
        out
    }

    /// Sets the cell `(x, y)` to `color`; a cell outside the surface is skipped.
    /// Returns whether the cell exists.
    pub fn put_pixel(&mut self, x: u32, y: u32, color: Color) -> (written: bool)
        ensures
            written == in_grid(old(self)@.width, old(self)@.height, x as int, y as int),
            final(self)@.width == old(self)@.width,
            final(self)@.height == old(self)@.height,
            final(self)@.pixels == (if written {
                old(self)@.pixels.insert((x as int, y as int), color)
            } else {
                old(self)@.pixels
            }),
    {
        if x < buffer_width(self) && y < buffer_height(self) {
            buffer_put_pixel(self, x, y, color);
            assert(self@.pixels =~= old(self)@.pixels.insert((x as int, y as int), color));
            true
        } else {
            false
        }
    }
}

} // verus!
