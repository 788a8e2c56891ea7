//! Mesh revisions 3.00 and 3.01: revision 2.00 with level-of-detail
//! markers behind the faces.

use vstd::prelude::*;
use crate::mesh::{Error, ErrorView};
use crate::mesh::v2::{
    Face2, SizeOfVertex2, Vertex2, Vertex2Truncated, fix_truncated, fix_vertices,
    lemma_names_revision, magic_version, names_revision,
};
use crate::stream::Cursor;
use crate::wire::{
    BinError, BinErrorView, Plain, check_need, expect_magic, get_bytes, get_seq, get_u16, get_u32,
    le_u16, le_u32, lemma_join, lemma_le_u16, lemma_le_u32, lemma_le_u32_window,
    lemma_parse_seq_at, lemma_seq_bytes_len, lemma_seq_bytes_of_parse, lemma_split, lemma_u16_le,
    lemma_u32_le, magic_at, need, parse_seq, put_bytes, put_seq, put_u16, put_u32, seq_bytes, then,
    u16_le, u32_le,
};

verus! {

/// The bytes of `3.00`.
pub open spec fn magic_300() -> Seq<u8> {
    seq![0x33u8, 0x2eu8, 0x30u8, 0x30u8]
}

/// The bytes of `3.01`.
pub open spec fn magic_301() -> Seq<u8> {
    seq![0x33u8, 0x2eu8, 0x30u8, 0x31u8]
}

/// A line feed, then the header's own size (16) as a 16-bit number.
pub open spec fn magic_header_size3() -> Seq<u8> {
    seq![0x0au8, 0x10u8, 0x00u8]
}

/// The size of a face (12) as one byte, then the size of a level-of-detail
/// marker (4) as a 16-bit number.
pub open spec fn magic_face_lod_size() -> Seq<u8> {
    seq![0x0cu8, 0x04u8, 0x00u8]
}

/// Which of the two revisions of this layout a mesh is.
#[derive(Debug, Clone, Copy, PartialEq, Eq)]
pub enum Revision3 {
    Version300,
    Version301,
}

impl Revision3 {
    /// The four bytes that name the revision.
    pub open spec fn tag(self) -> Seq<u8> {
        match self {
            Revision3::Version300 => magic_300(),
            Revision3::Version301 => magic_301(),
        }
    }

    /// The revision named by the four bytes at `at`.
    pub open spec fn parse(s: Seq<u8>, at: int) -> Result<Revision3, BinErrorView> {
        if s.len() - at < 4 {
            Err(BinErrorView::UnexpectedEof)
        } else if s.subrange(at, at + 4) == magic_300() {
            Ok(Revision3::Version300)
        } else if s.subrange(at, at + 4) == magic_301() {
            Ok(Revision3::Version301)
        } else {
            Err(BinErrorView::BadMagic { pos: at, found: s.subrange(at, at + 4) })
        }
    }

    /// Reads the revision at `at`.
    pub fn get(data: &[u8], at: usize) -> (r: Result<Revision3, BinError>)
        requires
            at <= data.len(),
        ensures
            match r {
                Ok(v) => Self::parse(data@, at as int) == Ok::<Revision3, BinErrorView>(v),
                Err(e) => Self::parse(data@, at as int) == Err::<Revision3, BinErrorView>(e@),
            },
    {
        let found = get_bytes(data, at, 4)?;
        let minor = found[3];
        let stem = found[0] == 0x33 && found[1] == 0x2e && found[2] == 0x30;
        assert((stem && minor == 0x30) == (found@ =~= magic_300()));
        assert((stem && minor == 0x31) == (found@ =~= magic_301()));
        if stem && minor == 0x30 {
            Ok(Revision3::Version300)
        } else if stem && minor == 0x31 {
            Ok(Revision3::Version301)
        } else {
            Err(BinError::BadMagic { pos: at as u64, found })
        }
    }

    /// Appends the four bytes that name the revision.
    pub fn put(&self, out: &mut Vec<u8>)
        ensures
            final(out)@ == old(out)@ + self.tag(),
    {
        out.push(0x33);
        out.push(0x2e);
        out.push(0x30);
        match self {
            Revision3::Version300 => out.push(0x30),
            Revision3::Version301 => out.push(0x31),
        }
        assert(out@ =~= old(out)@ + self.tag());
    }
}

/// The header of revisions 3.00 and 3.01: the width of the vertices and the
/// three counts.
#[derive(Debug, Clone, Copy, PartialEq, Eq)]
pub struct Header3 {
    pub revision: Revision3,
    pub sizeof_vertex: SizeOfVertex2,
    pub lod_count: u16,
    pub vertex_count: u32,
    pub face_count: u32,
}

impl Header3 {
    /// The 29 bytes of the header.
    pub open spec fn bytes(self) -> Seq<u8> {
        magic_version() + self.revision.tag() + magic_header_size3() + seq![
            self.sizeof_vertex.tag(),
        ] + magic_face_lod_size() + u16_le(self.lod_count) + u32_le(self.vertex_count) + u32_le(
            self.face_count,
        )
    }

    /// The header at `at`, its fields read in their order; the failure of
    /// the first field that cannot be read otherwise.
    #[verifier::opaque]
    pub open spec fn parse(s: Seq<u8>, at: int) -> Result<Header3, BinErrorView> {
        then(
            magic_at(s, at, magic_version()),
            match Revision3::parse(s, at + 8) {
                Err(e) => Err(e),
                Ok(revision) => then(
                    magic_at(s, at + 12, magic_header_size3()),
                    match SizeOfVertex2::parse(s, at + 15) {
                        Err(e) => Err(e),
                        Ok(sizeof_vertex) => then(
                            magic_at(s, at + 16, magic_face_lod_size()),
                            then(
                                need(s, at + 19, 10),
                                Ok(
                                    Header3 {
                                        revision,
                                        sizeof_vertex,
                                        lod_count: le_u16(s, at + 19),
                                        vertex_count: le_u32(s, at + 21),
                                        face_count: le_u32(s, at + 25),
                                    },
                                ),
                            ),
                        ),
                    },
                ),
            },
        )
    }

    /// How many full vertices follow the header.
    pub open spec fn full_count(self) -> nat {
        match self.sizeof_vertex {
            SizeOfVertex2::Full => self.vertex_count as nat,
            SizeOfVertex2::Truncated => 0,
        }
    }

    /// How many truncated vertices follow the header.
    pub open spec fn truncated_count(self) -> nat {
        match self.sizeof_vertex {
            SizeOfVertex2::Full => 0,
            SizeOfVertex2::Truncated => self.vertex_count as nat,
        }
    }

    /// Reads the header at `at`.
    pub fn get(data: &[u8], at: usize) -> (r: Result<Header3, BinError>)
        requires
            at <= data.len(),
        ensures
            match r {
                Ok(h) => at + 29 <= data.len() && Self::parse(data@, at as int) == Ok::<
                    Header3,
                    BinErrorView,
                >(h),
                Err(e) => Self::parse(data@, at as int) == Err::<Header3, BinErrorView>(e@),
            },
    {
        proof {
            reveal(Header3::parse);
        }
        let version: [u8; 8] = [0x76, 0x65, 0x72, 0x73, 0x69, 0x6f, 0x6e, 0x20];
        let header_size: [u8; 3] = [0x0a, 0x10, 0x00];
        let sizes: [u8; 3] = [0x0c, 0x04, 0x00];
        assert(version@ =~= magic_version());
        assert(header_size@ =~= magic_header_size3());
        assert(sizes@ =~= magic_face_lod_size());
        expect_magic(data, at, version.as_slice())?;
        let revision = Revision3::get(data, at + 8)?;
        expect_magic(data, at + 12, header_size.as_slice())?;
        let sizeof_vertex = SizeOfVertex2::get(data, at + 15)?;
        expect_magic(data, at + 16, sizes.as_slice())?;
        check_need(data, at + 19, 10)?;
        Ok(
            Header3 {
                revision,
                sizeof_vertex,
                lod_count: get_u16(data, at + 19),
                vertex_count: get_u32(data, at + 21),
                face_count: get_u32(data, at + 25),
            },
        )
    }

    /// Appends the header.
    pub fn put(&self, out: &mut Vec<u8>)
        ensures
            final(out)@ == old(out)@ + self.bytes(),
    {
        let version: [u8; 8] = [0x76, 0x65, 0x72, 0x73, 0x69, 0x6f, 0x6e, 0x20];
        let header_size: [u8; 3] = [0x0a, 0x10, 0x00];
        let sizes: [u8; 3] = [0x0c, 0x04, 0x00];
        assert(version@ =~= magic_version());
        assert(header_size@ =~= magic_header_size3());
        assert(sizes@ =~= magic_face_lod_size());
        put_bytes(version.as_slice(), out);
        self.revision.put(out);
        put_bytes(header_size.as_slice(), out);
        out.push(self.sizeof_vertex.to_byte());
        assert(out@ =~= old(out)@ + magic_version() + self.revision.tag() + magic_header_size3()
            + seq![self.sizeof_vertex.tag()]);
        put_bytes(sizes.as_slice(), out);
        put_u16(self.lod_count, out);
        put_u32(self.vertex_count, out);
        put_u32(self.face_count, out);
        assert(out@ =~= old(out)@ + self.bytes());
    }

    /// A header that was read begins with the twelve bytes that name its
    /// revision.
    pub proof fn lemma_revision(s: Seq<u8>, at: int)
        requires
            0 <= at <= s.len(),
            Self::parse(s, at) is Ok,
        ensures
            at + 12 <= s.len(),
            names_revision(
                s.subrange(at, at + 12),
                0x33,
                if Self::parse(s, at)->Ok_0.revision is Version300 {
                    0x30u8
                } else {
                    0x31u8
                },
            ),
    {
        reveal(Header3::parse);
        lemma_names_revision(s, at, Self::parse(s, at)->Ok_0.revision.tag());
    }

    /// A header that was read is the header that its 29 bytes spell.
    pub proof fn lemma_parse_bytes(s: Seq<u8>, at: int, h: Header3)
        requires
            0 <= at <= s.len(),
            Self::parse(s, at) == Ok::<Header3, BinErrorView>(h),
        ensures
            at + 29 <= s.len(),
            h.bytes() == s.subrange(at, at + 29),
    {
        reveal(Header3::parse);
        lemma_le_u16(s, at + 19);
        lemma_le_u32(s, at + 21);
        lemma_le_u32(s, at + 25);
        assert(seq![h.sizeof_vertex.tag()] =~= s.subrange(at + 15, at + 16));
        lemma_join(s, at, at + 8, at + 12);
        lemma_join(s, at, at + 12, at + 15);
        lemma_join(s, at, at + 15, at + 16);
        lemma_join(s, at, at + 16, at + 19);
        lemma_join(s, at, at + 19, at + 21);
        lemma_join(s, at, at + 21, at + 25);
        lemma_join(s, at, at + 25, at + 29);
    }

    /// The bytes of a header are read as that header, wherever they stand.
    pub proof fn lemma_bytes_parse(self, s: Seq<u8>, at: int)
        requires
            0 <= at,
            at + 29 <= s.len(),
            s.subrange(at, at + 29) == self.bytes(),
        ensures
            self.bytes().len() == 29,
            Self::parse(s, at) == Ok::<Header3, BinErrorView>(self),
    {
        reveal(Header3::parse);
        lemma_u16_le(self.lod_count);
        lemma_u32_le(self.vertex_count);
        lemma_u32_le(self.face_count);
        let c1 = magic_version();
        let c2 = c1 + self.revision.tag();
        let c3 = c2 + magic_header_size3();
        let c4 = c3 + seq![self.sizeof_vertex.tag()];
        let c5 = c4 + magic_face_lod_size();
        let c6 = c5 + u16_le(self.lod_count);
        let c7 = c6 + u32_le(self.vertex_count);
        lemma_split(s, at, c7, u32_le(self.face_count));
        lemma_split(s, at, c6, u32_le(self.vertex_count));
        lemma_split(s, at, c5, u16_le(self.lod_count));
        lemma_split(s, at, c4, magic_face_lod_size());
        lemma_split(s, at, c3, seq![self.sizeof_vertex.tag()]);
        lemma_split(s, at, c2, magic_header_size3());
        lemma_split(s, at, c1, self.revision.tag());
        assert(s.subrange(at + 15, at + 16)[0] == s[at + 15]);
        assert(magic_300() != magic_301()) by {
            assert(magic_300()[3] != magic_301()[3]);
        }
        assert(le_u16(s, at + 19) == le_u16(s.subrange(at + 19, at + 21), 0));
        lemma_le_u32_window(s, at + 21);
        lemma_le_u32_window(s, at + 25);
    }

    /// Cutting the input inside a header that was read leaves an input that
    /// ends too early; cutting it behind the header changes nothing.
    pub proof fn lemma_cut(s: Seq<u8>, at: int, k: int)
        requires
            0 <= at <= k <= s.len(),
            Self::parse(s, at) is Ok,
        ensures
            k < at + 29 ==> Self::parse(s.take(k), at) == Err::<Header3, BinErrorView>(
                BinErrorView::UnexpectedEof,
            ),
            k >= at + 29 ==> Self::parse(s.take(k), at) == Self::parse(s, at),
    {
        reveal(Header3::parse);
        let t = s.take(k);
        if k >= at + 8 {
            assert(t.subrange(at, at + 8) =~= s.subrange(at, at + 8));
        }
        if k >= at + 12 {
            assert(t.subrange(at + 8, at + 12) =~= s.subrange(at + 8, at + 12));
        }
        if k >= at + 15 {
            assert(t.subrange(at + 12, at + 15) =~= s.subrange(at + 12, at + 15));
        }
        if k >= at + 19 {
            assert(t.subrange(at + 16, at + 19) =~= s.subrange(at + 16, at + 19));
        }
    }
}

/// The index of the first face of a level of detail; the level ends where
/// the next one starts.
#[derive(Debug, Clone, Copy, PartialEq, Eq, Hash)]
pub struct Lod3(pub u32);

impl Plain for Lod3 {
    open spec fn width() -> nat {
        4
    }

    open spec fn parse(w: Seq<u8>) -> Lod3 {
        Lod3(le_u32(w, 0))
    }

    open spec fn bytes(self) -> Seq<u8> {
        u32_le(self.0)
    }

    proof fn lemma_plain(x: Lod3, w: Seq<u8>) {
        lemma_u32_le(x.0);
        if w.len() == 4 {
            lemma_le_u32(w, 0);
            assert(w.subrange(0, 4) =~= w);
        }
    }

    fn size() -> (n: usize) {
        4
    }

    fn get(data: &[u8], at: usize) -> (r: Lod3) {
        Lod3(get_u32(data, at))
    }

    fn put(&self, out: &mut Vec<u8>) {
        put_u32(self.0, out);
    }
}

/// A mesh of revision 3.00 or 3.01. Only one of `vertices` and
/// `vertices_truncated` is populated, as `header.sizeof_vertex` says.
#[derive(Debug, Clone, PartialEq, Eq)]
pub struct Mesh3 {
    pub header: Header3,
    pub vertices: Vec<Vertex2>,
    pub vertices_truncated: Vec<Vertex2Truncated>,
    pub faces: Vec<Face2>,
    pub lods: Vec<Lod3>,
}

/// The mathematical value of a [`Mesh3`].
pub struct Mesh3View {
    pub header: Header3,
    pub vertices: Seq<Vertex2>,
    pub vertices_truncated: Seq<Vertex2Truncated>,
    pub faces: Seq<Face2>,
    pub lods: Seq<Lod3>,
}

impl View for Mesh3 {
    type V = Mesh3View;

    open spec fn view(&self) -> Mesh3View {
        Mesh3View {
            header: self.header,
            vertices: self.vertices@,
            vertices_truncated: self.vertices_truncated@,
            faces: self.faces@,
            lods: self.lods@,
        }
    }
}

impl Mesh3View {
    /// Every count of the header is the length of the list it governs.
    pub open spec fn wf(self) -> bool {
        &&& self.vertices.len() == self.header.full_count()
        &&& self.vertices_truncated.len() == self.header.truncated_count()
        &&& self.faces.len() == self.header.face_count
        &&& self.lods.len() == self.header.lod_count
    }

    /// The bytes of the mesh: header, vertices, faces, markers.
    pub open spec fn bytes(self) -> Seq<u8> {
        self.header.bytes() + seq_bytes(self.vertices) + seq_bytes(self.vertices_truncated)
            + seq_bytes(self.faces) + seq_bytes(self.lods)
    }

    /// The mesh after the tangent fixup of each vertex.
    pub open spec fn fixed(self) -> Mesh3View {
        Mesh3View {
            vertices: self.vertices.map_values(|v: Vertex2| v.fixed()),
            vertices_truncated: self.vertices_truncated.map_values(|v: Vertex2Truncated| v.fixed()),
            ..self
        }
    }

    /// What reading a mesh as the file holds it gives at `at`: the mesh and
    /// the place where it ends, or the failure of the layout.
    pub open spec fn read_raw(s: Seq<u8>, at: int) -> Result<(Mesh3View, int), ErrorView> {
        match Self::parse(s, at) {
            Ok(r) => Ok(r),
            Err(e) => Err(ErrorView::BinRead(e)),
        }
    }

    /// What reading a mesh gives at `at` once the tangent fixup is applied.
    pub open spec fn read_fixed(s: Seq<u8>, at: int) -> Result<(Mesh3View, int), ErrorView> {
        match Self::parse(s, at) {
            Ok((m, end)) => Ok((m.fixed(), end)),
            Err(e) => Err(ErrorView::BinRead(e)),
        }
    }

    /// The mesh that starts at `at` and the place where it ends; the
    /// failure of the first field that cannot be read otherwise.
    pub open spec fn parse(s: Seq<u8>, at: int) -> Result<(Mesh3View, int), BinErrorView> {
        match Header3::parse(s, at) {
            Err(e) => Err(e),
            Ok(header) => {
                let a1 = at + 29;
                let a2 = a1 + header.full_count() * 40;
                let a3 = a2 + header.truncated_count() * 36;
                let a4 = a3 + header.face_count * 12;
                let end = a4 + header.lod_count * 4;
                if end > s.len() {
                    Err(BinErrorView::UnexpectedEof)
                } else {
                    Ok(
                        (
                            Mesh3View {
                                header,
                                vertices: parse_seq(s, a1, header.full_count()),
                                vertices_truncated: parse_seq(s, a2, header.truncated_count()),
                                faces: parse_seq(s, a3, header.face_count as nat),
                                lods: parse_seq(s, a4, header.lod_count as nat),
                            },
                            end,
                        ),
                    )
                }
            },
        }
    }

    /// What was read is well formed, and writing it gives back exactly the
    /// bytes it was read from.
    pub proof fn lemma_read_write(s: Seq<u8>, at: int, m: Mesh3View, end: int)
        requires
            0 <= at <= s.len(),
            Self::parse(s, at) == Ok::<(Mesh3View, int), BinErrorView>((m, end)),
        ensures
            m.wf(),
            at <= end <= s.len(),
            m.bytes() == s.subrange(at, end),
    {
        let h = m.header;
        Header3::lemma_parse_bytes(s, at, h);
        let a1 = at + 29;
        let a2 = a1 + h.full_count() * 40;
        let a3 = a2 + h.truncated_count() * 36;
        let a4 = a3 + h.face_count * 12;
        lemma_seq_bytes_of_parse::<Vertex2>(s, a1, h.full_count());
        lemma_seq_bytes_of_parse::<Vertex2Truncated>(s, a2, h.truncated_count());
        lemma_seq_bytes_of_parse::<Face2>(s, a3, h.face_count as nat);
        lemma_seq_bytes_of_parse::<Lod3>(s, a4, h.lod_count as nat);
        lemma_join(s, at, a1, a2);
        lemma_join(s, at, a2, a3);
        lemma_join(s, at, a3, a4);
        lemma_join(s, at, a4, end);
    }

    /// A well-formed mesh is read back from its bytes, wherever they stand.
    pub proof fn lemma_write_read(self, s: Seq<u8>, at: int)
        requires
            self.wf(),
            0 <= at,
            at + self.bytes().len() <= s.len(),
            s.subrange(at, at + self.bytes().len()) == self.bytes(),
        ensures
            Self::parse(s, at) == Ok::<(Mesh3View, int), BinErrorView>(
                (self, at + self.bytes().len()),
            ),
    {
        let h = self.header;
        let hb = h.bytes();
        let vb = seq_bytes(self.vertices);
        let tb = seq_bytes(self.vertices_truncated);
        let fb = seq_bytes(self.faces);
        let lb = seq_bytes(self.lods);
        lemma_u16_le(h.lod_count);
        lemma_u32_le(h.vertex_count);
        lemma_u32_le(h.face_count);
        lemma_seq_bytes_len(self.vertices);
        lemma_seq_bytes_len(self.vertices_truncated);
        lemma_seq_bytes_len(self.faces);
        lemma_seq_bytes_len(self.lods);
        assert(hb.len() == 29);
        lemma_split(s, at, hb + vb + tb + fb, lb);
        lemma_split(s, at, hb + vb + tb, fb);
        lemma_split(s, at, hb + vb, tb);
        lemma_split(s, at, hb, vb);
        h.lemma_bytes_parse(s, at);
        lemma_parse_seq_at::<Vertex2>(s, at + 29, self.vertices);
        lemma_parse_seq_at::<Vertex2Truncated>(s, at + 29 + vb.len(), self.vertices_truncated);
        lemma_parse_seq_at::<Face2>(s, at + 29 + vb.len() + tb.len(), self.faces);
        lemma_parse_seq_at::<Lod3>(s, at + 29 + vb.len() + tb.len() + fb.len(), self.lods);
    }

    /// An input cut short inside a mesh that was read ends too early: it is
    /// never read as a shorter mesh.
    pub proof fn lemma_cut(s: Seq<u8>, at: int, m: Mesh3View, end: int, k: int)
        requires
            0 <= at <= k <= s.len(),
            Self::parse(s, at) == Ok::<(Mesh3View, int), BinErrorView>((m, end)),
            k < end,
        ensures
            Self::parse(s.take(k), at) == Err::<(Mesh3View, int), BinErrorView>(
                BinErrorView::UnexpectedEof,
            ),
    {
        Header3::lemma_cut(s, at, k);
    }
}

impl Mesh3 {
    /// Reads the mesh at `at`; gives it with the place where it ends.
    pub fn get(data: &[u8], at: usize) -> (r: Result<(Mesh3, usize), BinError>)
        requires
            at <= data.len(),
        ensures
            match r {
                Ok((m, end)) => Mesh3View::parse(data@, at as int) == Ok::<
                    (Mesh3View, int),
                    BinErrorView,
                >((m@, end as int)),
                Err(e) => Mesh3View::parse(data@, at as int) == Err::<
                    (Mesh3View, int),
                    BinErrorView,
                >(e@),
            },
    {
        let header = Header3::get(data, at)?;
        let (full, truncated) = match header.sizeof_vertex {
            SizeOfVertex2::Full => (header.vertex_count as usize, 0usize),
            SizeOfVertex2::Truncated => (0usize, header.vertex_count as usize),
        };
        let a1 = at + 29;
        let vertices = get_seq::<Vertex2>(data, a1, full)?;
        let a2 = a1 + full * 40;
        let vertices_truncated = get_seq::<Vertex2Truncated>(data, a2, truncated)?;
        let a3 = a2 + truncated * 36;
        let faces = get_seq::<Face2>(data, a3, header.face_count as usize)?;
        let a4 = a3 + header.face_count as usize * 12;
        let lods = get_seq::<Lod3>(data, a4, header.lod_count as usize)?;
        let end = a4 + header.lod_count as usize * 4;
        Ok((Mesh3 { header, vertices, vertices_truncated, faces, lods }, end))
    }

    /// Appends the bytes of the mesh to `out`.
    pub fn write_le(&self, out: &mut Vec<u8>)
        ensures
            final(out)@ == old(out)@ + self@.bytes(),
    {
        self.header.put(out);
        put_seq(&self.vertices, out);
        put_seq(&self.vertices_truncated, out);
        put_seq(&self.faces, out);
        put_seq(&self.lods, out);
        assert(out@ =~= old(out)@ + self@.bytes());
    }
}

/// Replaces the sentinel tangent of every vertex by the default tangent.
pub fn fix3(mesh: &mut Mesh3)
    ensures
        final(mesh)@ == old(mesh)@.fixed(),
{
    fix_vertices(&mut mesh.vertices);
    fix_truncated(&mut mesh.vertices_truncated);
}

/// Reads a mesh of revision 3.00 or 3.01 as the file holds it, from the
/// position of `read` on, and leaves `read` behind its last byte. On a
/// failure `read` stays where it was.
pub fn read3(read: &mut Cursor) -> (r: Result<Mesh3, Error>)
    ensures
        final(read).bytes() == old(read).bytes(),
        match r {
            Ok(m) => Mesh3View::read_raw(old(read).bytes(), old(read).start()) == Ok::<
                (Mesh3View, int),
                ErrorView,
            >((m@, final(read).offset())),
            Err(e) => Mesh3View::read_raw(old(read).bytes(), old(read).start()) == Err::<
                (Mesh3View, int),
                ErrorView,
            >(e@) && final(read).offset() == old(read).offset(),
        },
{
    match Mesh3::get(read.get_ref(), read.index()) {
        Ok((m, end)) => {
            read.set_position(end);
            Ok(m)
        },
        Err(e) => Err(Error::BinRead(e)),
    }
}

/// Reads a mesh of revision 3.00 or 3.01 and applies the tangent fixup.
pub fn read_300(read: &mut Cursor) -> (r: Result<Mesh3, Error>)
    ensures
        final(read).bytes() == old(read).bytes(),
        match r {
            Ok(m) => Mesh3View::read_fixed(old(read).bytes(), old(read).start()) == Ok::<
                (Mesh3View, int),
                ErrorView,
            >((m@, final(read).offset())),
            Err(e) => Mesh3View::read_fixed(old(read).bytes(), old(read).start()) == Err::<
                (Mesh3View, int),
                ErrorView,
            >(e@) && final(read).offset() == old(read).offset(),
        },
{
    let mut mesh = read3(read)?;
    fix3(&mut mesh);
    Ok(mesh)
}

} // verus!
