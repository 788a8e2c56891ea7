//! One view of the vertices and faces of a mesh, whatever its revision.

use vstd::prelude::*;
use crate::mesh::{VersionedMesh, VersionedMeshView};
use crate::mesh::v2::{Face2, Mesh2, Vertex2, Vertex2Truncated, VertexId2};
use crate::mesh::v3::Mesh3;

verus! {

/// The color of a vertex whose file holds none: opaque white.
pub const DEFAULT_VERTEX_COLOR: [u8; 4] = [255, 255, 255, 255];

/// The full vertices of a mesh that holds vertices of either width: the
/// full ones as they are, then the truncated ones with the default color.
pub open spec fn unified(full: Seq<Vertex2>, truncated: Seq<Vertex2Truncated>) -> Seq<Vertex2> {
    full + truncated.map_values(|t: Vertex2Truncated| t.filled(DEFAULT_VERTEX_COLOR))
}

/// Computes [`unified`].
pub fn unify(full: &Vec<Vertex2>, truncated: &Vec<Vertex2Truncated>) -> (r: Vec<Vertex2>)
    ensures
        r@ == unified(full@, truncated@),
{
    let mut out: Vec<Vertex2> = Vec::new();
    let mut i: usize = 0;
    while i < full.len()
        invariant
            i <= full.len(),
            out@ == full@.subrange(0, i as int),
        decreases full.len() - i,
    {
        out.push(full[i]);
        i += 1;
        assert(out@ =~= full@.subrange(0, i as int));
    }
    assert(full@.subrange(0, full.len() as int) =~= full@);
    let mut k: usize = 0;
    while k < truncated.len()
        invariant
            k <= truncated.len(),
            out@ == unified(full@, truncated@.subrange(0, k as int)),
        decreases truncated.len() - k,
    {
        out.push(truncated[k].fill_color(DEFAULT_VERTEX_COLOR));
        k += 1;
        assert(out@ =~= unified(full@, truncated@.subrange(0, k as int)));
    }
    assert(truncated@.subrange(0, truncated.len() as int) =~= truncated@);
    out
}

/// How many faces `n` vertices of a text revision make: one for every
/// three, as far as vertex indices of 32 bits reach.
pub open spec fn implied_face_count(n: nat) -> nat {
    if n / 3 < 0x5555_5555 {
        n / 3
    } else {
        0x5555_5555
    }
}

/// The faces of a text revision, which holds none: every three vertices
/// that follow each other make one.
pub open spec fn implied_faces(n: nat) -> Seq<Face2> {
    Seq::new(
        implied_face_count(n),
        |k: int|
            Face2(
                VertexId2((3 * k) as u32),
                VertexId2((3 * k + 1) as u32),
                VertexId2((3 * k + 2) as u32),
            ),
    )
}

impl Mesh2 {
    /// The vertices of the mesh at full width; a truncated vertex gets the
    /// default color.
    pub fn unified_vertices(&self) -> (r: Vec<Vertex2>)
        ensures
            r@ == unified(self@.vertices, self@.vertices_truncated),
    {
        unify(&self.vertices, &self.vertices_truncated)
    }
}

impl Mesh3 {
    /// The vertices of the mesh at full width; a truncated vertex gets the
    /// default color.
    pub fn unified_vertices(&self) -> (r: Vec<Vertex2>)
        ensures
            r@ == unified(self@.vertices, self@.vertices_truncated),
    {
        unify(&self.vertices, &self.vertices_truncated)
    }
}

impl VersionedMeshView {
    /// The vertices of the mesh at full width. A text revision has none
    /// here: its numbers are text.
    pub open spec fn vertices(self) -> Option<Seq<Vertex2>> {
        match self {
            VersionedMeshView::Version1(_) => None,
            VersionedMeshView::Version2(m) => Some(unified(m.vertices, m.vertices_truncated)),
            VersionedMeshView::Version3(m) => Some(unified(m.vertices, m.vertices_truncated)),
            VersionedMeshView::Version4(m) => Some(m.body.vertices),
            VersionedMeshView::Version5(m) => Some(m.body.vertices),
        }
    }

    /// The faces of the mesh. A text revision holds none: there every
    /// three vertices that follow each other make one.
    pub open spec fn faces(self) -> Seq<Face2> {
        match self {
            VersionedMeshView::Version1(m) => implied_faces(m.vertices.len()),
            VersionedMeshView::Version2(m) => m.faces,
            VersionedMeshView::Version3(m) => m.faces,
            VersionedMeshView::Version4(m) => m.body.faces,
            VersionedMeshView::Version5(m) => m.body.faces,
        }
    }
}

/// A copy of `v`.
fn copy_of<T: Copy>(v: &Vec<T>) -> (r: Vec<T>)
    ensures
        r@ == v@,
{
    let mut out: Vec<T> = Vec::new();
    let mut i: usize = 0;
    while i < v.len()
        invariant
            i <= v.len(),
            out@ == v@.subrange(0, i as int),
        decreases v.len() - i,
    {
        out.push(v[i]);
        i += 1;
        assert(out@ =~= v@.subrange(0, i as int));
    }
    assert(v@.subrange(0, v.len() as int) =~= v@);
    out
}

impl VersionedMesh {
    /// The vertices of the mesh at full width, or `None` for a text
    /// revision.
    pub fn vertices(&self) -> (r: Option<Vec<Vertex2>>)
        ensures
            match r {
                Some(v) => self@.vertices() == Some(v@),
                None => self@.vertices() is None,
            },
    {
        match self {
            VersionedMesh::Version1(_) => None,
            VersionedMesh::Version2(m) => Some(m.unified_vertices()),
            VersionedMesh::Version3(m) => Some(m.unified_vertices()),
            VersionedMesh::Version4(m) => Some(copy_of(&m.vertices)),
            VersionedMesh::Version5(m) => Some(copy_of(&m.vertices)),
        }
    }

    /// The faces of the mesh.
    pub fn faces(&self) -> (r: Vec<Face2>)
        ensures
            r@ == self@.faces(),
    {
        match self {
            VersionedMesh::Version1(m) => {
                let n = m.vertices.len() / 3;
                let count: usize = if n < 0x5555_5555 {
                    n
                } else {
                    0x5555_5555
                };
                let mut out: Vec<Face2> = Vec::new();
                let mut k: usize = 0;
                while k < count
                    invariant
                        k <= count <= 0x5555_5555,
                        count == implied_face_count(m.vertices@.len()),
                        out@ == implied_faces(m.vertices@.len()).subrange(0, k as int),
                    decreases count - k,
                {
                    let a = (3 * k) as u32;
                    out.push(Face2(VertexId2(a), VertexId2(a + 1), VertexId2(a + 2)));
                    k += 1;
                    assert(out@ =~= implied_faces(m.vertices@.len()).subrange(0, k as int));
                }
                assert(implied_faces(m.vertices@.len()).subrange(0, count as int)
                    =~= implied_faces(m.vertices@.len()));
                assert(m@.vertices.len() == m.vertices@.len());
                out
            },
            VersionedMesh::Version2(m) => copy_of(&m.faces),
            VersionedMesh::Version3(m) => copy_of(&m.faces),
            VersionedMesh::Version4(m) => copy_of(&m.faces),
            VersionedMesh::Version5(m) => copy_of(&m.faces),
        }
    }
}

} // verus!
