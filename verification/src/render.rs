//! One render pass: a list of faces shaded and filled in order into a fresh
//! surface, which is turned upside down at the end so that the y axis of the
//! object space points up in the picture.

use vstd::prelude::*;
use crate::background;
use crate::fixed::{fx_from_int, fx_from_int_spec};
use crate::frame::{buffers_match, depth_buffer, frame_of, Frame, FAR};
use crate::geometry::triangle::{shade, shade_triangle};
use crate::geometry::types::Vec3f;
use crate::surface::{flipped, in_grid, Color, Surface, SurfaceView};

verus! {

/// Why a face is not drawn.
#[derive(Copy, Clone, Debug, PartialEq, Eq, Structural)]
pub enum FaceError {
    /// The face does not have exactly three vertices.
    VertexCount,
    /// A coordinate of one of the three vertices has saturated.
    NotFinite,
}

/// What is wrong with a face, if anything.
pub open spec fn face_defect(face: Seq<Vec3f>) -> Option<FaceError> {
    if face.len() != 3 {
        Some(FaceError::VertexCount)
    } else if !(face[0].finite() && face[1].finite() && face[2].finite()) {
        Some(FaceError::NotFinite)
    } else {
        None
    }
}

/// The frame after one face of the list has had its turn: a malformed face
/// is skipped, any other is shaded and filled.
pub open spec fn render_face_spec(f: Frame, face: Seq<Vec3f>, scale: i64, light_dir: Vec3f) -> Frame {
    if face_defect(face) is None {
        shade(f, face[0], face[1], face[2], scale, light_dir)
    } else {
        f
    }
}

/// The frame after the first `n` faces have had their turn, in order.
pub open spec fn render_prefix(
    f: Frame,
    faces: Seq<Vec<Vec3f>>,
    n: int,
    scale: i64,
    light_dir: Vec3f,
) -> Frame
    decreases n,
{
    if n <= 0 {
        f
    } else {
        render_face_spec(
            render_prefix(f, faces, n - 1, scale, light_dir),
            faces[n - 1]@,
            scale,
            light_dir,
        )
    }
}

/// The places, in rising order, of the malformed faces among the first `n`.
pub open spec fn rejected_prefix(faces: Seq<Vec<Vec3f>>, n: int) -> Seq<usize>
    decreases n,
{
    if n <= 0 {
        Seq::empty()
    } else if face_defect(faces[n - 1]@) is Some {
        rejected_prefix(faces, n - 1).push((n - 1) as usize)
    } else {
        rejected_prefix(faces, n - 1)
    }
}

/// Tells whether a face can be drawn: it needs exactly three vertices, all finite.
pub fn check_face(face: &Vec<Vec3f>) -> (r: Result<(), FaceError>)
    ensures
        r is Ok <==> face_defect(face@) is None,
        r matches Err(e) ==> face_defect(face@) == Some(e),
{
    if face.len() != 3 {
        Err(FaceError::VertexCount)
    } else if !(face[0].is_finite() && face[1].is_finite() && face[2].is_finite()) {
        Err(FaceError::NotFinite)
    } else {
        Ok(())
    }
}

/// Shades and fills one face; a malformed face is reported and leaves both
/// buffers untouched.
pub fn render_face(
    face: &Vec<Vec3f>,
    scale: i64,
    light_dir: Vec3f,
    surface: &mut Surface,
    zbuffer: &mut Vec<i64>,
) -> (r: Result<(), FaceError>)
    requires
        buffers_match(old(surface)@, old(zbuffer)@),
    ensures
        r is Ok <==> face_defect(face@) is None,
        r matches Err(e) ==> face_defect(face@) == Some(e),
        frame_of(final(surface)@, final(zbuffer)@) == render_face_spec(
            frame_of(old(surface)@, old(zbuffer)@),
            face@,
            scale,
            light_dir,
        ),
{
    match check_face(face) {
        Ok(()) => {
            shade_triangle(face[0], face[1], face[2], scale, light_dir, surface, zbuffer);
            Ok(())
        },
        Err(e) => Err(e),
    }
}

/// Shades and fills the faces in order. A malformed face does not stop the
/// pass: it is skipped, and its place in the list is reported.
pub fn render_faces(
    faces: &Vec<Vec<Vec3f>>,
    scale: i64,
    light_dir: Vec3f,
    surface: &mut Surface,
    zbuffer: &mut Vec<i64>,
) -> (rejected: Vec<usize>)
    requires
        buffers_match(old(surface)@, old(zbuffer)@),
    ensures
        frame_of(final(surface)@, final(zbuffer)@) == render_prefix(
            frame_of(old(surface)@, old(zbuffer)@),
            faces@,
            faces@.len() as int,
            scale,
            light_dir,
        ),
        rejected@ == rejected_prefix(faces@, faces@.len() as int),
{
    let ghost f0 = frame_of(surface@, zbuffer@);
    let mut rejected: Vec<usize> = Vec::new();
    let mut i: usize = 0;
    while i < faces.len()
        invariant
            i <= faces.len(),
            buffers_match(surface@, zbuffer@),
            frame_of(surface@, zbuffer@) == render_prefix(f0, faces@, i as int, scale, light_dir),
            rejected@ == rejected_prefix(faces@, i as int),
        decreases faces.len() - i,
    {
        let ghost before = frame_of(surface@, zbuffer@);
        let outcome = render_face(&faces[i], scale, light_dir, surface, zbuffer);
        proof {
            lemma_render_face_keeps_size(before, faces[i as int]@, scale, light_dir);
        }
        if outcome.is_err() {
            rejected.push(i);
        }
        i += 1;
    }
    rejected
}

/// A face's turn leaves the size of both buffers as it was.
pub proof fn lemma_render_face_keeps_size(f: Frame, face: Seq<Vec3f>, scale: i64, light_dir: Vec3f)
    ensures
        render_face_spec(f, face, scale, light_dir).width == f.width,
        render_face_spec(f, face, scale, light_dir).height == f.height,
        render_face_spec(f, face, scale, light_dir).depth.len() == f.depth.len(),
{
}

/// What one render pass is given besides the faces.
#[derive(Copy, Clone, Debug)]
pub struct RenderConfig {
    /// The picture is `scale + 1` cells wide and high.
    pub scale: u32,
    /// Where the light comes from; a unit vector is expected.
    pub light_direction: Vec3f,
    /// The color of every cell that no face covers.
    pub background: Color,
}

/// What one render pass hands back.
pub struct Rendering {
    /// The finished picture.
    pub image: Surface,
    /// The places in the list of the faces that were skipped as malformed.
    pub rejected: Vec<usize>,
}

/// The frame a pass starts from: every cell in the background color and at
/// depth `FAR`.
pub open spec fn blank_frame(side: int, background: Color) -> Frame {
    Frame {
        width: side,
        height: side,
        pixels: Map::new(|p: (int, int)| in_grid(side, side, p.0, p.1), |p: (int, int)| background),
        depth: Seq::new((side * side) as nat, |i: int| FAR),
    }
}

/// The picture that a pass over `faces` produces.
pub open spec fn render_pass_spec(config: RenderConfig, faces: Seq<Vec<Vec3f>>) -> SurfaceView {
    let done = render_prefix(
        blank_frame(config.scale + 1, config.background),
        faces,
        faces.len() as int,
        fx_from_int_spec(config.scale as int),
        config.light_direction,
    );
    flipped(SurfaceView { width: done.width, height: done.height, pixels: done.pixels })
}

/// Renders the faces into a fresh picture of `scale + 1` by `scale + 1`
/// cells. Returns `None` when the depth buffer of such a picture, eight
/// bytes for each cell, is more than a vector can hold.
pub fn render_pass(config: &RenderConfig, faces: &Vec<Vec<Vec3f>>) -> (r: Option<Rendering>)
    ensures
        r.is_some() <==> 8 * (config.scale + 1) * (config.scale + 1) <= isize::MAX,
        r matches Some(out) ==> {
            &&& out.image@ == render_pass_spec(*config, faces@)
            &&& out.rejected@ == rejected_prefix(faces@, faces@.len() as int)
        },
{
    if config.scale == u32::MAX {
        assert(8 * (config.scale + 1) * (config.scale + 1) > isize::MAX) by (nonlinear_arith)
            requires
                config.scale + 1 == 0x1_0000_0000,
                isize::MAX <= 0x7fff_ffff_ffff_ffff,
        ;
        return None;
    }
    let side: u32 = config.scale + 1;
    let mut zbuffer = match depth_buffer(side, side) {
        Some(z) => z,
        None => {
            return None;
        },
    };
    assert(3 * side <= 8 * side * side && 3 * side * side <= 8 * side * side) by (nonlinear_arith)
        requires
            0 <= side,
    ;
    assert(isize::MAX <= usize::MAX);
    let blank = match Surface::new(side, side) {
        Some(s) => s,
        None => {
            return None;
        },
    };
    let mut surface = background(config.background, blank);
    proof {
        let start = frame_of(surface@, zbuffer@);
        assert(start.pixels =~= blank_frame(side as int, config.background).pixels);
        assert(start.depth =~= blank_frame(side as int, config.background).depth);
    }
    let rejected = render_faces(
        faces,
        fx_from_int(config.scale as i64),
        config.light_direction,
        &mut surface,
        &mut zbuffer,
    );
    let image = surface.flip_vertical();
    Some(Rendering { image: image, rejected: rejected })
}

} // verus!
