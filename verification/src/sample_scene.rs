//! The fallback cube shown when no scene can be loaded.
use crate::assets::{mesh_problem, MeshVertex};
use vstd::prelude::*;

verus! {

/// The four vertices of a face, corners in the order bottom-left,
/// bottom-right, top-right, top-left as seen from outside, with uvs
/// (0,0), (1,0), (1,1), (0,1) and the face's normal and tangent. Every
/// component is an `f32` bit pattern.
pub open spec fn quad_vertices(
    bl: [u32; 3],
    br: [u32; 3],
    tr: [u32; 3],
    tl: [u32; 3],
    normal: [u32; 3],
    tangent: [u32; 4],
) -> Seq<MeshVertex> {
    seq![
        MeshVertex { position: bl, normal, uv: [0u32, 0u32], tangent },
        MeshVertex { position: br, normal, uv: [0x3f80_0000u32, 0u32], tangent },
        MeshVertex { position: tr, normal, uv: [0x3f80_0000u32, 0x3f80_0000u32], tangent },
        MeshVertex { position: tl, normal, uv: [0u32, 0x3f80_0000u32], tangent },
    ]
}

/// The two counter-clockwise triangles of a face whose first vertex is
/// `base`.
pub open spec fn quad_indices(base: u32) -> Seq<u32> {
    seq![base, (base + 1) as u32, (base + 2) as u32, base, (base + 2) as u32, (base + 3) as u32]
}

/// The front face: corners bottom-left, bottom-right, top-right, top-left
/// as seen from outside, then normal and tangent.
pub open spec fn front_face() -> Seq<MeshVertex> {
    quad_vertices(
        [0xbf00_0000u32, 0xbf00_0000u32, 0x3f00_0000u32],
        [0x3f00_0000u32, 0xbf00_0000u32, 0x3f00_0000u32],
        [0x3f00_0000u32, 0x3f00_0000u32, 0x3f00_0000u32],
        [0xbf00_0000u32, 0x3f00_0000u32, 0x3f00_0000u32],
        [0u32, 0u32, 0x3f80_0000u32],
        [0x3f80_0000u32, 0u32, 0u32, 0xbf80_0000u32],
    )
}

/// The back face: corners bottom-left, bottom-right, top-right, top-left
/// as seen from outside, then normal and tangent.
pub open spec fn back_face() -> Seq<MeshVertex> {
    quad_vertices(
        [0x3f00_0000u32, 0xbf00_0000u32, 0xbf00_0000u32],
        [0xbf00_0000u32, 0xbf00_0000u32, 0xbf00_0000u32],
        [0xbf00_0000u32, 0x3f00_0000u32, 0xbf00_0000u32],
        [0x3f00_0000u32, 0x3f00_0000u32, 0xbf00_0000u32],
        [0u32, 0u32, 0xbf80_0000u32],
        [0xbf80_0000u32, 0u32, 0u32, 0xbf80_0000u32],
    )
}

/// The left face: corners bottom-left, bottom-right, top-right, top-left
/// as seen from outside, then normal and tangent.
pub open spec fn left_face() -> Seq<MeshVertex> {
    quad_vertices(
        [0xbf00_0000u32, 0xbf00_0000u32, 0xbf00_0000u32],
        [0xbf00_0000u32, 0xbf00_0000u32, 0x3f00_0000u32],
        [0xbf00_0000u32, 0x3f00_0000u32, 0x3f00_0000u32],
        [0xbf00_0000u32, 0x3f00_0000u32, 0xbf00_0000u32],
        [0xbf80_0000u32, 0u32, 0u32],
        [0u32, 0u32, 0x3f80_0000u32, 0xbf80_0000u32],
    )
}

/// The right face: corners bottom-left, bottom-right, top-right, top-left
/// as seen from outside, then normal and tangent.
pub open spec fn right_face() -> Seq<MeshVertex> {
    quad_vertices(
        [0x3f00_0000u32, 0xbf00_0000u32, 0x3f00_0000u32],
        [0x3f00_0000u32, 0xbf00_0000u32, 0xbf00_0000u32],
        [0x3f00_0000u32, 0x3f00_0000u32, 0xbf00_0000u32],
        [0x3f00_0000u32, 0x3f00_0000u32, 0x3f00_0000u32],
        [0x3f80_0000u32, 0u32, 0u32],
        [0u32, 0u32, 0x3f80_0000u32, 0xbf80_0000u32],
    )
}

/// The top face: corners bottom-left, bottom-right, top-right, top-left
/// as seen from outside, then normal and tangent.
pub open spec fn top_face() -> Seq<MeshVertex> {
    quad_vertices(
        [0xbf00_0000u32, 0x3f00_0000u32, 0x3f00_0000u32],
        [0x3f00_0000u32, 0x3f00_0000u32, 0x3f00_0000u32],
        [0x3f00_0000u32, 0x3f00_0000u32, 0xbf00_0000u32],
        [0xbf00_0000u32, 0x3f00_0000u32, 0xbf00_0000u32],
        [0u32, 0x3f80_0000u32, 0u32],
        [0x3f80_0000u32, 0u32, 0u32, 0xbf80_0000u32],
    )
}

/// The bottom face: corners bottom-left, bottom-right, top-right, top-left
/// as seen from outside, then normal and tangent.
pub open spec fn bottom_face() -> Seq<MeshVertex> {
    quad_vertices(
        [0xbf00_0000u32, 0xbf00_0000u32, 0xbf00_0000u32],
        [0x3f00_0000u32, 0xbf00_0000u32, 0xbf00_0000u32],
        [0x3f00_0000u32, 0xbf00_0000u32, 0x3f00_0000u32],
        [0xbf00_0000u32, 0xbf00_0000u32, 0x3f00_0000u32],
        [0u32, 0xbf80_0000u32, 0u32],
        [0x3f80_0000u32, 0u32, 0u32, 0x3f80_0000u32],
    )
}

/// The cube's 24 vertices: front, back, left, right, top, bottom faces.
pub open spec fn cube_vertices() -> Seq<MeshVertex> {
    front_face() + back_face() + left_face() + right_face() + top_face() + bottom_face()
}

/// The cube's 36 indices: two triangles per face, over that face's four
/// vertices.
pub open spec fn cube_indices() -> Seq<u32> {
    quad_indices(0) + quad_indices(4) + quad_indices(8) + quad_indices(12) + quad_indices(16)
        + quad_indices(20)
}

fn push_quad(
    vertices: &mut Vec<MeshVertex>,
    indices: &mut Vec<u32>,
    bl: [u32; 3],
    br: [u32; 3],
    tr: [u32; 3],
    tl: [u32; 3],
    normal: [u32; 3],
    tangent: [u32; 4],
)
    requires
        old(vertices)@.len() <= 20,
    ensures
        final(vertices)@ == old(vertices)@ + quad_vertices(bl, br, tr, tl, normal, tangent),
        final(indices)@ == old(indices)@ + quad_indices(old(vertices)@.len() as u32),
{
    let base = vertices.len() as u32;
    vertices.push(MeshVertex { position: bl, normal, uv: [0, 0], tangent });
    vertices.push(MeshVertex { position: br, normal, uv: [0x3f80_0000, 0], tangent });
    vertices.push(MeshVertex { position: tr, normal, uv: [0x3f80_0000, 0x3f80_0000], tangent });
    vertices.push(MeshVertex { position: tl, normal, uv: [0, 0x3f80_0000], tangent });
    indices.push(base);
    indices.push(base + 1);
    indices.push(base + 2);
    indices.push(base);
    indices.push(base + 2);
    indices.push(base + 3);
    assert(vertices@ =~= old(vertices)@ + quad_vertices(bl, br, tr, tl, normal, tangent));
    assert(indices@ =~= old(indices)@ + quad_indices(base));
}

/// A unit cube centred at the origin, each face with its own four vertices
/// (so normals, uvs and tangents are per face) and counter-clockwise
/// winding seen from outside. Gives exactly [`cube_vertices`] and
/// [`cube_indices`]: 24 vertices and 36 indices, a valid mesh.
pub fn fallback_cube_geometry() -> (r: (Vec<MeshVertex>, Vec<u32>))
    ensures
        r.0@ == cube_vertices(),
        r.1@ == cube_indices(),
        r.0@.len() == 24,
        r.1@.len() == 36,
        mesh_problem(r.0@.len(), r.1@.len()) is None,
{
    let mut vertices: Vec<MeshVertex> = Vec::new();
    let mut indices: Vec<u32> = Vec::new();
    push_quad(
        &mut vertices,
        &mut indices,
        [0xbf00_0000u32, 0xbf00_0000u32, 0x3f00_0000u32],
        [0x3f00_0000u32, 0xbf00_0000u32, 0x3f00_0000u32],
        [0x3f00_0000u32, 0x3f00_0000u32, 0x3f00_0000u32],
        [0xbf00_0000u32, 0x3f00_0000u32, 0x3f00_0000u32],
        [0u32, 0u32, 0x3f80_0000u32],
        [0x3f80_0000u32, 0u32, 0u32, 0xbf80_0000u32],
    );
    assert(vertices@ =~= front_face());
    push_quad(
        &mut vertices,
        &mut indices,
        [0x3f00_0000u32, 0xbf00_0000u32, 0xbf00_0000u32],
        [0xbf00_0000u32, 0xbf00_0000u32, 0xbf00_0000u32],
        [0xbf00_0000u32, 0x3f00_0000u32, 0xbf00_0000u32],
        [0x3f00_0000u32, 0x3f00_0000u32, 0xbf00_0000u32],
        [0u32, 0u32, 0xbf80_0000u32],
        [0xbf80_0000u32, 0u32, 0u32, 0xbf80_0000u32],
    );
    assert(vertices@ =~= front_face() + back_face());
    push_quad(
        &mut vertices,
        &mut indices,
        [0xbf00_0000u32, 0xbf00_0000u32, 0xbf00_0000u32],
        [0xbf00_0000u32, 0xbf00_0000u32, 0x3f00_0000u32],
        [0xbf00_0000u32, 0x3f00_0000u32, 0x3f00_0000u32],
        [0xbf00_0000u32, 0x3f00_0000u32, 0xbf00_0000u32],
        [0xbf80_0000u32, 0u32, 0u32],
        [0u32, 0u32, 0x3f80_0000u32, 0xbf80_0000u32],
    );
    assert(vertices@ =~= front_face() + back_face() + left_face());
    push_quad(
        &mut vertices,
        &mut indices,
        [0x3f00_0000u32, 0xbf00_0000u32, 0x3f00_0000u32],
        [0x3f00_0000u32, 0xbf00_0000u32, 0xbf00_0000u32],
        [0x3f00_0000u32, 0x3f00_0000u32, 0xbf00_0000u32],
        [0x3f00_0000u32, 0x3f00_0000u32, 0x3f00_0000u32],
        [0x3f80_0000u32, 0u32, 0u32],
        [0u32, 0u32, 0x3f80_0000u32, 0xbf80_0000u32],
    );
    assert(vertices@ =~= front_face() + back_face() + left_face() + right_face());
    push_quad(
        &mut vertices,
        &mut indices,
        [0xbf00_0000u32, 0x3f00_0000u32, 0x3f00_0000u32],
        [0x3f00_0000u32, 0x3f00_0000u32, 0x3f00_0000u32],
        [0x3f00_0000u32, 0x3f00_0000u32, 0xbf00_0000u32],
        [0xbf00_0000u32, 0x3f00_0000u32, 0xbf00_0000u32],
        [0u32, 0x3f80_0000u32, 0u32],
        [0x3f80_0000u32, 0u32, 0u32, 0xbf80_0000u32],
    );
    assert(vertices@ =~= front_face() + back_face() + left_face() + right_face() + top_face());
    push_quad(
        &mut vertices,
        &mut indices,
        [0xbf00_0000u32, 0xbf00_0000u32, 0xbf00_0000u32],
        [0x3f00_0000u32, 0xbf00_0000u32, 0xbf00_0000u32],
        [0x3f00_0000u32, 0xbf00_0000u32, 0x3f00_0000u32],
        [0xbf00_0000u32, 0xbf00_0000u32, 0x3f00_0000u32],
        [0u32, 0xbf80_0000u32, 0u32],
        [0x3f80_0000u32, 0u32, 0u32, 0x3f80_0000u32],
    );
    assert(vertices@ =~= front_face() + back_face() + left_face() + right_face() + top_face() + bottom_face());
    assert(indices@ =~= cube_indices());
    (vertices, indices)
}

} // verus!
