//! The mesh family: geometry files that begin `version X.YY`.

use vstd::prelude::*;
use crate::stream::Cursor;
use crate::wire::{BinError, BinErrorView, get_bytes};
use crate::mesh::v1::{mesh1_text, read1_checked};
use crate::mesh::v2::names_revision;

pub mod v1;
pub mod v2;
pub mod v3;
pub mod v4;
pub mod v5;
pub mod unified;

pub use self::read_versioned as read;
pub use self::unified::{DEFAULT_VERTEX_COLOR, unified, unify};
pub use self::v1::{
    Revision1, Header1, Vertex1, Vertex1View, Mesh1, Mesh1View, LineMachine, check1, read1,
    read_100, read_101, vertex_from_groups, vertices_from_captures,
};
pub use self::v2::{
    DEFAULT_VERTEX_TANGENT, Revision2, SizeOfVertex2, Header2, Vertex2, Vertex2Truncated, VertexId2,
    Face2, Mesh2, Mesh2View, fix2, fix_tangent, fix_truncated, fix_vertices, read2, read_200,
};
pub use self::v3::{Revision3, Header3, Lod3, Mesh3, Mesh3View, fix3, read3, read_300};
pub use self::v4::{
    Revision4, LodType4, Header4, Envelope4, BoneId4, CFrame4, Bone4, Subset4, Mesh4, Mesh4View,
    Body4View, Counts4, fix4, read4, read_400,
};
pub use self::v5::{
    Revision5, FacsFormat5, Header5, QuantizedMatrix5, QuantizedMatrix5View, QuantizedTransforms5,
    ControlId5, TwoPoseCorrective5, ThreePoseCorrective5, Facs5, Facs5View, Mesh5, Mesh5View, fix5,
    read5, read_500,
};

verus! {

/// Why a mesh could not be decoded.
#[derive(Debug, Clone, PartialEq, Eq)]
pub enum Error {
    /// The first twelve bytes name no known revision; they are carried.
    UnknownVersion(Vec<u8>),
    /// The input is too short for a revision line, or its first line is
    /// not one of the text revisions.
    Header,
    /// A text revision ended before its third line.
    UnexpectedEof,
    /// A line of a text revision is not UTF-8.
    InvalidData,
    /// The face count of a text revision is not an unsigned decimal number.
    ParseIntError,
    /// A vertex of a text revision lacks one of its nine fields.
    Regex,
    /// A text revision does not hold three vertices for each face.
    VertexCount,
    /// A binary revision is malformed.
    BinRead(BinError),
}

/// The mathematical value of an [`Error`].
pub enum ErrorView {
    UnknownVersion(Seq<u8>),
    Header,
    UnexpectedEof,
    InvalidData,
    ParseIntError,
    Regex,
    VertexCount,
    BinRead(BinErrorView),
}

impl View for Error {
    type V = ErrorView;

    open spec fn view(&self) -> ErrorView {
        match *self {
            Error::UnknownVersion(found) => ErrorView::UnknownVersion(found@),
            Error::Header => ErrorView::Header,
            Error::UnexpectedEof => ErrorView::UnexpectedEof,
            Error::InvalidData => ErrorView::InvalidData,
            Error::ParseIntError => ErrorView::ParseIntError,
            Error::Regex => ErrorView::Regex,
            Error::VertexCount => ErrorView::VertexCount,
            Error::BinRead(e) => ErrorView::BinRead(e@),
        }
    }
}

/// [`QuantizedMatrix5`] under its short name.
pub type QuantizedMatrix = QuantizedMatrix5;

/// [`QuantizedTransforms5`] under its short name.
pub type QuantizedTransforms = QuantizedTransforms5;

/// [`ControlId5`] under its short name.
pub type ControlId = ControlId5;

/// [`Facs5`] under its short name.
pub type Facs = Facs5;

/// A mesh of any revision. The variant says which.
#[derive(Debug, Clone, PartialEq, Eq)]
pub enum VersionedMesh {
    Version1(Mesh1),
    Version2(Mesh2),
    Version3(Mesh3),
    Version4(Mesh4),
    Version5(Mesh5),
}

/// The mathematical value of a [`VersionedMesh`].
pub enum VersionedMeshView {
    Version1(Mesh1View),
    Version2(Mesh2View),
    Version3(Mesh3View),
    Version4(Mesh4View),
    Version5(Mesh5View),
}

impl View for VersionedMesh {
    type V = VersionedMeshView;

    open spec fn view(&self) -> VersionedMeshView {
        match *self {
            VersionedMesh::Version1(m) => VersionedMeshView::Version1(m@),
            VersionedMesh::Version2(m) => VersionedMeshView::Version2(m@),
            VersionedMesh::Version3(m) => VersionedMeshView::Version3(m@),
            VersionedMesh::Version4(m) => VersionedMeshView::Version4(m@),
            VersionedMesh::Version5(m) => VersionedMeshView::Version5(m@),
        }
    }
}

impl VersionedMeshView {
    /// The bytes of the mesh in the layout of its revision.
    pub open spec fn bytes(self) -> Seq<u8> {
        match self {
            VersionedMeshView::Version1(m) => mesh1_text(m),
            VersionedMeshView::Version2(m) => m.bytes(),
            VersionedMeshView::Version3(m) => m.bytes(),
            VersionedMeshView::Version4(m) => m.bytes(),
            VersionedMeshView::Version5(m) => m.bytes(),
        }
    }
}

impl VersionedMesh {
    /// Appends the bytes of the mesh to `out`, in the layout of its
    /// revision.
    pub fn write_le(&self, out: &mut Vec<u8>)
        ensures
            final(out)@ == old(out)@ + self@.bytes(),
    {
        match self {
            VersionedMesh::Version1(m) => m.write_le(out),
            VersionedMesh::Version2(m) => m.write_le(out),
            VersionedMesh::Version3(m) => m.write_le(out),
            VersionedMesh::Version4(m) => m.write_le(out),
            VersionedMesh::Version5(m) => m.write_le(out),
        }
    }
}

/// The family of decoders that the twelve bytes `p` select: the number
/// before the dot of the revision they name, or `None` where they name no
/// known revision.
pub open spec fn decoder_of(p: Seq<u8>) -> Option<int> {
    if names_revision(p, 0x31, 0x30) || names_revision(p, 0x31, 0x31) {
        Some(1)
    } else if names_revision(p, 0x32, 0x30) {
        Some(2)
    } else if names_revision(p, 0x33, 0x30) || names_revision(p, 0x33, 0x31) {
        Some(3)
    } else if names_revision(p, 0x34, 0x30) || names_revision(p, 0x34, 0x31) {
        Some(4)
    } else if names_revision(p, 0x35, 0x30) {
        Some(5)
    } else {
        None
    }
}

/// What reading a mesh of any revision gives at `at`: the first twelve
/// bytes select the decoder, and the decoder reads the mesh from `at` on,
/// those twelve bytes included.
pub open spec fn versioned_parse(s: Seq<u8>, at: int) -> Result<
    (VersionedMeshView, int),
    ErrorView,
> {
    if s.len() - at < 12 {
        Err(ErrorView::Header)
    } else {
        match decoder_of(s.subrange(at, at + 12)) {
            None => Err(ErrorView::UnknownVersion(s.subrange(at, at + 12))),
            Some(n) => if n == 1 {
                match read1_checked(s, at) {
                    Ok((m, end)) => Ok((VersionedMeshView::Version1(m), end)),
                    Err(e) => Err(e),
                }
            } else if n == 2 {
                match Mesh2View::read_fixed(s, at) {
                    Ok((m, end)) => Ok((VersionedMeshView::Version2(m), end)),
                    Err(e) => Err(e),
                }
            } else if n == 3 {
                match Mesh3View::read_fixed(s, at) {
                    Ok((m, end)) => Ok((VersionedMeshView::Version3(m), end)),
                    Err(e) => Err(e),
                }
            } else if n == 4 {
                match Mesh4View::read_fixed(s, at) {
                    Ok((m, end)) => Ok((VersionedMeshView::Version4(m), end)),
                    Err(e) => Err(e),
                }
            } else {
                match Mesh5View::read_fixed(s, at) {
                    Ok((m, end)) => Ok((VersionedMeshView::Version5(m), end)),
                    Err(e) => Err(e),
                }
            },
        }
    }
}

/// The decoder that the twelve bytes at `at` select.
fn select_decoder(data: &[u8], at: usize) -> (r: Option<u8>)
    requires
        at + 12 <= data.len(),
    ensures
        match r {
            Some(n) => decoder_of(data@.subrange(at as int, at + 12)) == Some(n as int),
            None => decoder_of(data@.subrange(at as int, at + 12)) is None,
        },
{
    let stem = data[at] == 0x76 && data[at + 1] == 0x65 && data[at + 2] == 0x72 && data[at + 3]
        == 0x73 && data[at + 4] == 0x69 && data[at + 5] == 0x6f && data[at + 6] == 0x6e && data[at
        + 7] == 0x20 && data[at + 9] == 0x2e && data[at + 10] == 0x30;
    let major = data[at + 8];
    let minor = data[at + 11];
    proof {
        let p = data@.subrange(at as int, at + 12);
        assert(p.len() == 12);
        assert(forall|i: int| 0 <= i < 12 ==> p[i] == data@[at + i]);
        assert(stem ==> names_revision(p, major, minor));
        assert(!stem ==> forall|a: u8, b: u8| !names_revision(p, a, b));
    }
    if !stem {
        None
    } else if major == 0x31 && (minor == 0x30 || minor == 0x31) {
        Some(1)
    } else if major == 0x32 && minor == 0x30 {
        Some(2)
    } else if major == 0x33 && (minor == 0x30 || minor == 0x31) {
        Some(3)
    } else if major == 0x34 && (minor == 0x30 || minor == 0x31) {
        Some(4)
    } else if major == 0x35 && minor == 0x30 {
        Some(5)
    } else {
        None
    }
}

/// Reads a mesh of any revision from the position of `read` on: looks at
/// the first twelve bytes without using them up, and hands the input to
/// the decoder of the revision they name. Fails with `Header` where fewer
/// than twelve bytes are left, and with `UnknownVersion`, which carries the
/// twelve bytes, where they name no known revision. `read` is left behind
/// the mesh; on a failure it stays where it was.
pub fn read_versioned(read: &mut Cursor) -> (r: Result<VersionedMesh, Error>)
    ensures
        final(read).bytes() == old(read).bytes(),
        match r {
            Ok(m) => versioned_parse(old(read).bytes(), old(read).start()) == Ok::<
                (VersionedMeshView, int),
                ErrorView,
            >((m@, final(read).offset())),
            Err(e) => versioned_parse(old(read).bytes(), old(read).start()) == Err::<
                (VersionedMeshView, int),
                ErrorView,
            >(e@) && final(read).offset() == old(read).offset(),
        },
{
    let data = read.get_ref();
    let at = read.index();
    if data.len() - at < 12 {
        return Err(Error::Header);
    }
    match select_decoder(data, at) {
        None => {
            match get_bytes(data, at, 12) {
                Ok(other) => Err(Error::UnknownVersion(other)),
                Err(_) => Err(Error::Header),
            }
        },
        Some(n) => {
            if n == 1 {
                Ok(VersionedMesh::Version1(read_100(read)?))
            } else if n == 2 {
                Ok(VersionedMesh::Version2(read_200(read)?))
            } else if n == 3 {
                Ok(VersionedMesh::Version3(read_300(read)?))
            } else if n == 4 {
                Ok(VersionedMesh::Version4(read_400(read)?))
            } else {
                Ok(VersionedMesh::Version5(read_500(read)?))
            }
        },
    }
}

/// The revision of a mesh that was read is the one that its first twelve
/// bytes name: each known prefix selects exactly one decoder.
pub proof fn lemma_dispatch(s: Seq<u8>, at: int, m: VersionedMeshView, end: int)
    requires
        versioned_parse(s, at) == Ok::<(VersionedMeshView, int), ErrorView>((m, end)),
    ensures
        s.len() - at >= 12,
        m is Version1 <==> decoder_of(s.subrange(at, at + 12)) == Some(1int),
        m is Version2 <==> decoder_of(s.subrange(at, at + 12)) == Some(2int),
        m is Version3 <==> decoder_of(s.subrange(at, at + 12)) == Some(3int),
        m is Version4 <==> decoder_of(s.subrange(at, at + 12)) == Some(4int),
        m is Version5 <==> decoder_of(s.subrange(at, at + 12)) == Some(5int),
{
}

/// A well-formed mesh of revision 2.00 that is written out is read back
/// under its revision, with the tangent fixup applied.
pub proof fn lemma_versioned_2(m: Mesh2View, s: Seq<u8>, at: int)
    requires
        m.wf(),
        0 <= at,
        at + m.bytes().len() <= s.len(),
        s.subrange(at, at + m.bytes().len()) == m.bytes(),
    ensures
        versioned_parse(s, at) == Ok::<(VersionedMeshView, int), ErrorView>(
            (VersionedMeshView::Version2(m.fixed()), at + m.bytes().len()),
        ),
{
    m.lemma_write_read(s, at);
    Header2::lemma_revision(s, at);
}

/// A well-formed mesh of revision 3.00 or 3.01 that is written out is read
/// back under its revision, with the tangent fixup applied.
pub proof fn lemma_versioned_3(m: Mesh3View, s: Seq<u8>, at: int)
    requires
        m.wf(),
        0 <= at,
        at + m.bytes().len() <= s.len(),
        s.subrange(at, at + m.bytes().len()) == m.bytes(),
    ensures
        versioned_parse(s, at) == Ok::<(VersionedMeshView, int), ErrorView>(
            (VersionedMeshView::Version3(m.fixed()), at + m.bytes().len()),
        ),
{
    m.lemma_write_read(s, at);
    Header3::lemma_revision(s, at);
}

/// A well-formed mesh of revision 4.00 or 4.01 that is written out is read
/// back under its revision, with the tangent fixup applied.
pub proof fn lemma_versioned_4(m: Mesh4View, s: Seq<u8>, at: int)
    requires
        m.wf(),
        0 <= at,
        at + m.bytes().len() <= s.len(),
        s.subrange(at, at + m.bytes().len()) == m.bytes(),
    ensures
        versioned_parse(s, at) == Ok::<(VersionedMeshView, int), ErrorView>(
            (VersionedMeshView::Version4(m.fixed()), at + m.bytes().len()),
        ),
{
    m.lemma_write_read(s, at);
    Header4::lemma_revision(s, at);
}

/// A well-formed mesh of revision 5.00 that is written out is read back
/// under its revision, with the tangent fixup applied.
pub proof fn lemma_versioned_5(m: Mesh5View, s: Seq<u8>, at: int)
    requires
        m.wf(),
        0 <= at,
        at + m.bytes().len() <= s.len(),
        s.subrange(at, at + m.bytes().len()) == m.bytes(),
    ensures
        versioned_parse(s, at) == Ok::<(VersionedMeshView, int), ErrorView>(
            (VersionedMeshView::Version5(m.fixed()), at + m.bytes().len()),
        ),
{
    m.lemma_write_read(s, at);
    Header5::lemma_revision(s, at);
}

/// An input cut short inside a binary mesh that was read, behind its first
/// twelve bytes, ends too early: it is never read as a shorter mesh.
pub proof fn lemma_versioned_cut(s: Seq<u8>, at: int, m: VersionedMeshView, end: int, k: int)
    requires
        0 <= at,
        at + 12 <= k <= s.len(),
        versioned_parse(s, at) == Ok::<(VersionedMeshView, int), ErrorView>((m, end)),
        !(m is Version1),
        k < end,
    ensures
        versioned_parse(s.take(k), at) == Err::<(VersionedMeshView, int), ErrorView>(
            ErrorView::BinRead(BinErrorView::UnexpectedEof),
        ),
{
    let t = s.take(k);
    assert(t.subrange(at, at + 12) =~= s.subrange(at, at + 12));
    match m {
        VersionedMeshView::Version2(_) => {
            let (raw, e) = Mesh2View::parse(s, at)->Ok_0;
            Mesh2View::lemma_cut(s, at, raw, e, k);
        },
        VersionedMeshView::Version3(_) => {
            let (raw, e) = Mesh3View::parse(s, at)->Ok_0;
            Mesh3View::lemma_cut(s, at, raw, e, k);
        },
        VersionedMeshView::Version4(_) => {
            let (raw, e) = Mesh4View::parse(s, at)->Ok_0;
            Mesh4View::lemma_cut(s, at, raw, e, k);
        },
        VersionedMeshView::Version5(_) => {
            let (raw, e) = Mesh5View::parse(s, at)->Ok_0;
            Mesh5View::lemma_cut(s, at, raw, e, k);
        },
        _ => {},
    }
}

} // verus!
