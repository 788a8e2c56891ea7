//! Solid-geometry revisions 2 and 4, as they read once the pad is taken
//! off: a hash, then vertices of 84 bytes and faces; revision 4 adds a list
//! of numbers whose meaning is not known.

use vstd::prelude::*;
use crate::frame::{
    Checked, Framed, all_wf, frames_bytes, get_count, lemma_count_cut, lemma_count_read_write,
    lemma_count_write_read, parse_count, put_count,
};
use crate::wire::{
    BinError, BinErrorView, CustomError, NormalIDError, Plain, check_need, expect_magic, get_seq,
    get_u32, le_u32, lemma_join, lemma_le_u32, lemma_le_u32_window, lemma_parse_seq_at,
    lemma_parse_seq_cut, lemma_seq_bytes_len, lemma_seq_bytes_of_parse, lemma_split, lemma_u32_le,
    magic_at, need, parse_seq, put_bytes, put_seq, put_u32, seq_bytes, then, u32_le,
};

verus! {

/// The axis along which a normal is largest, and its sign.
#[derive(Debug, Clone, Copy, Hash, PartialEq, Eq)]
pub enum NormalId {
    Right,
    Top,
    Back,
    Left,
    Bottom,
    Front,
}

impl NormalId {
    /// The number that stands for the axis in a file: 1 to 6.
    pub open spec fn tag(self) -> u8 {
        match self {
            NormalId::Right => 1,
            NormalId::Top => 2,
            NormalId::Back => 3,
            NormalId::Left => 4,
            NormalId::Bottom => 5,
            NormalId::Front => 6,
        }
    }

    /// The axis that the number `tag` stands for, if any.
    pub open spec fn of_tag(tag: int) -> Option<NormalId> {
        if tag == 1 {
            Some(NormalId::Right)
        } else if tag == 2 {
            Some(NormalId::Top)
        } else if tag == 3 {
            Some(NormalId::Back)
        } else if tag == 4 {
            Some(NormalId::Left)
        } else if tag == 5 {
            Some(NormalId::Bottom)
        } else if tag == 6 {
            Some(NormalId::Front)
        } else {
            None
        }
    }

    /// The axis that the number `tag` stands for.
    pub fn from_tag(tag: u32) -> (r: Result<NormalId, NormalIDError>)
        ensures
            match r {
                Ok(v) => Self::of_tag(tag as int) == Some(v),
                Err(_) => Self::of_tag(tag as int) is None,
            },
    {
        if tag == 1 {
            Ok(NormalId::Right)
        } else if tag == 2 {
            Ok(NormalId::Top)
        } else if tag == 3 {
            Ok(NormalId::Back)
        } else if tag == 4 {
            Ok(NormalId::Left)
        } else if tag == 5 {
            Ok(NormalId::Bottom)
        } else if tag == 6 {
            Ok(NormalId::Front)
        } else {
            Err(NormalIDError)
        }
    }

    /// The number that stands for the axis.
    pub fn to_tag(&self) -> (r: u8)
        ensures
            r == self.tag(),
            Self::of_tag(r as int) == Some(*self),
    {
        match self {
            NormalId::Right => 1,
            NormalId::Top => 2,
            NormalId::Back => 3,
            NormalId::Left => 4,
            NormalId::Bottom => 5,
            NormalId::Front => 6,
        }
    }
}

/// An axis as revisions 2 and 4 write it: a 32-bit number.
#[derive(Debug, Clone, Copy, Hash, PartialEq, Eq)]
pub struct NormalId2(pub NormalId);

impl NormalId2 {
    /// The axis that `value` stands for; a failure where `value` is not in
    /// `1..=6`.
    pub fn try_from(value: u32) -> (r: Result<NormalId2, NormalIDError>)
        ensures
            match r {
                Ok(v) => NormalId::of_tag(value as int) == Some(v.0),
                Err(_) => NormalId::of_tag(value as int) is None,
            },
    {
        match NormalId::from_tag(value) {
            Ok(v) => Ok(NormalId2(v)),
            Err(e) => Err(e),
        }
    }

    /// The number that stands for the axis.
    pub fn to_u32(&self) -> (r: u32)
        ensures
            r == self.0.tag(),
    {
        self.0.to_tag() as u32
    }
}

/// Sixteen bytes of zero, which stand before and behind every tangent.
pub open spec fn zeros16() -> Seq<u8> {
    Seq::new(16, |i: int| 0u8)
}

/// A vertex of 84 bytes. Every floating-point field is kept as its 32-bit
/// pattern.
#[derive(Debug, Clone, Copy, PartialEq, Eq)]
pub struct Vertex {
    pub pos: [u32; 3],
    pub norm: [u32; 3],
    pub color: [u8; 4],
    /// The axis along which `norm` is largest: it says nothing that `norm`
    /// does not, and serves the placing of textures.
    pub normal_id: NormalId2,
    pub tex: [u32; 2],
    pub tangent: [u32; 3],
}

/// The vertex that starts at `at`, its fields read in their order.
#[verifier::opaque]
pub open spec fn vertex_parse(s: Seq<u8>, at: int) -> Result<(Vertex, int), BinErrorView> {
    if s.len() - at < 32 {
        Err(BinErrorView::UnexpectedEof)
    } else {
        match NormalId::of_tag(le_u32(s, at + 28) as int) {
            None => Err(
                BinErrorView::Custom { pos: at + 28, err: CustomError::NormalId(NormalIDError) },
            ),
            Some(normal_id) => then(
                magic_at(s, at + 40, zeros16()),
                then(
                    magic_at(s, at + 68, zeros16()),
                    Ok(
                        (
                            Vertex {
                                pos: <[u32; 3]>::parse(s.subrange(at, at + 12)),
                                norm: <[u32; 3]>::parse(s.subrange(at + 12, at + 24)),
                                color: <[u8; 4]>::parse(s.subrange(at + 24, at + 28)),
                                normal_id: NormalId2(normal_id),
                                tex: <[u32; 2]>::parse(s.subrange(at + 32, at + 40)),
                                tangent: <[u32; 3]>::parse(s.subrange(at + 56, at + 68)),
                            },
                            at + 84,
                        ),
                    ),
                ),
            ),
        }
    }
}

/// The 84 bytes of a vertex.
pub open spec fn vertex_bytes(v: Vertex) -> Seq<u8> {
    v.pos.bytes() + v.norm.bytes() + v.color.bytes() + u32_le(v.normal_id.0.tag() as u32)
        + v.tex.bytes() + zeros16() + v.tangent.bytes() + zeros16()
}

impl Framed for Vertex {
    open spec fn wf(self) -> bool {
        true
    }

    open spec fn bytes(self) -> Seq<u8> {
        vertex_bytes(self)
    }

    open spec fn parse(s: Seq<u8>, at: int) -> Result<(Self, int), BinErrorView> {
        vertex_parse(s, at)
    }

    proof fn lemma_read_write(s: Seq<u8>, at: int, m: Self, end: int) {
        reveal(vertex_parse);
        <[u32; 3]>::lemma_plain(m.pos, s.subrange(at, at + 12));
        <[u32; 3]>::lemma_plain(m.norm, s.subrange(at + 12, at + 24));
        <[u8; 4]>::lemma_plain(m.color, s.subrange(at + 24, at + 28));
        lemma_le_u32(s, at + 28);
        <[u32; 2]>::lemma_plain(m.tex, s.subrange(at + 32, at + 40));
        <[u32; 3]>::lemma_plain(m.tangent, s.subrange(at + 56, at + 68));
        lemma_join(s, at, at + 12, at + 24);
        lemma_join(s, at, at + 24, at + 28);
        lemma_join(s, at, at + 28, at + 32);
        lemma_join(s, at, at + 32, at + 40);
        lemma_join(s, at, at + 40, at + 56);
        lemma_join(s, at, at + 56, at + 68);
        lemma_join(s, at, at + 68, at + 84);
    }

    proof fn lemma_write_read(self, s: Seq<u8>, at: int) {
        reveal(vertex_parse);
        let tag = self.normal_id.0.tag() as u32;
        <[u32; 3]>::lemma_plain(self.pos, Seq::empty());
        <[u32; 3]>::lemma_plain(self.norm, Seq::empty());
        <[u8; 4]>::lemma_plain(self.color, Seq::empty());
        lemma_u32_le(tag);
        <[u32; 2]>::lemma_plain(self.tex, Seq::empty());
        <[u32; 3]>::lemma_plain(self.tangent, Seq::empty());
        let c1 = self.pos.bytes();
        let c2 = c1 + self.norm.bytes();
        let c3 = c2 + self.color.bytes();
        let c4 = c3 + u32_le(tag);
        let c5 = c4 + self.tex.bytes();
        let c6 = c5 + zeros16();
        let c7 = c6 + self.tangent.bytes();
        lemma_split(s, at, c7, zeros16());
        lemma_split(s, at, c6, self.tangent.bytes());
        lemma_split(s, at, c5, zeros16());
        lemma_split(s, at, c4, self.tex.bytes());
        lemma_split(s, at, c3, u32_le(tag));
        lemma_split(s, at, c2, self.color.bytes());
        lemma_split(s, at, c1, self.norm.bytes());
        lemma_le_u32_window(s, at + 28);
    }

    proof fn lemma_cut(s: Seq<u8>, at: int, m: Self, end: int, k: int) {
        reveal(vertex_parse);
        let t = s.take(k);
        if k >= at + 56 {
            assert(t.subrange(at + 40, at + 56) =~= s.subrange(at + 40, at + 56));
        }
        if k >= at + 84 {
            assert(t.subrange(at + 68, at + 84) =~= s.subrange(at + 68, at + 84));
            assert(t.subrange(at, at + 12) =~= s.subrange(at, at + 12));
            assert(t.subrange(at + 12, at + 24) =~= s.subrange(at + 12, at + 24));
            assert(t.subrange(at + 24, at + 28) =~= s.subrange(at + 24, at + 28));
            assert(t.subrange(at + 32, at + 40) =~= s.subrange(at + 32, at + 40));
            assert(t.subrange(at + 56, at + 68) =~= s.subrange(at + 56, at + 68));
        }
    }
}

impl Checked for Vertex {
    fn get(data: &[u8], at: usize) -> (r: Result<(Self, usize), BinError>) {
        proof {
            reveal(vertex_parse);
        }
        if data.len() - at < 32 {
            return Err(BinError::UnexpectedEof);
        }
        let pos = <[u32; 3]>::get(data, at);
        let norm = <[u32; 3]>::get(data, at + 12);
        let color = <[u8; 4]>::get(data, at + 24);
        let normal_id = match NormalId2::try_from(get_u32(data, at + 28)) {
            Ok(v) => v,
            Err(e) => {
                return Err(
                    BinError::Custom { pos: (at + 28) as u64, err: CustomError::NormalId(e) },
                );
            },
        };
        if data.len() - at < 40 {
            return Err(BinError::UnexpectedEof);
        }
        let tex = <[u32; 2]>::get(data, at + 32);
        let zeros = [0u8; 16];
        assert(zeros@ =~= zeros16());
        expect_magic(data, at + 40, zeros.as_slice())?;
        if data.len() - at < 68 {
            return Err(BinError::UnexpectedEof);
        }
        expect_magic(data, at + 68, zeros.as_slice())?;
        let tangent = <[u32; 3]>::get(data, at + 56);
        Ok((Vertex { pos, norm, color, normal_id, tex, tangent }, at + 84))
    }

    fn put(&self, out: &mut Vec<u8>) {
        let zeros = [0u8; 16];
        assert(zeros@ =~= zeros16());
        self.pos.put(out);
        self.norm.put(out);
        self.color.put(out);
        put_u32(self.normal_id.to_u32(), out);
        self.tex.put(out);
        put_bytes(zeros.as_slice(), out);
        self.tangent.put(out);
        put_bytes(zeros.as_slice(), out);
        assert(out@ =~= old(out)@ + vertex_bytes(*self));
    }
}

/// The index of a vertex in the vertex list of its mesh.
#[derive(Debug, Clone, Copy, PartialEq, Eq)]
pub struct VertexId(pub u32);

impl Plain for [VertexId; 3] {
    open spec fn width() -> nat {
        12
    }

    open spec fn parse(w: Seq<u8>) -> [VertexId; 3] {
        [VertexId(le_u32(w, 0)), VertexId(le_u32(w, 4)), VertexId(le_u32(w, 8))]
    }

    open spec fn bytes(self) -> Seq<u8> {
        u32_le(self[0].0) + u32_le(self[1].0) + u32_le(self[2].0)
    }

    proof fn lemma_plain(x: [VertexId; 3], w: Seq<u8>) {
        lemma_u32_le(x[0].0);
        lemma_u32_le(x[1].0);
        lemma_u32_le(x[2].0);
        assert(Self::parse(x.bytes()) =~= x);
        if w.len() == 12 {
            lemma_le_u32(w, 0);
            lemma_le_u32(w, 4);
            lemma_le_u32(w, 8);
            assert(Self::parse(w).bytes() =~= w);
        }
    }

    fn size() -> (n: usize) {
        12
    }

    fn get(data: &[u8], at: usize) -> (r: [VertexId; 3]) {
        let r = [
            VertexId(get_u32(data, at)),
            VertexId(get_u32(data, at + 4)),
            VertexId(get_u32(data, at + 8)),
        ];
        assert(r =~= Self::parse(data@.subrange(at as int, at + 12)));
        r
    }

    fn put(&self, out: &mut Vec<u8>) {
        put_u32(self[0].0, out);
        put_u32(self[1].0, out);
        put_u32(self[2].0, out);
        assert(out@ =~= old(out)@ + self.bytes());
    }
}

/// The hash of a solid, and sixteen bytes whose meaning is not known.
#[derive(Debug, Clone, Copy, PartialEq, Eq)]
pub struct Hash {
    pub hash: [u8; 16],
    pub _unknown: [u8; 16],
}

impl Plain for Hash {
    open spec fn width() -> nat {
        32
    }

    open spec fn parse(w: Seq<u8>) -> Hash {
        Hash {
            hash: <[u8; 16]>::parse(w.subrange(0, 16)),
            _unknown: <[u8; 16]>::parse(w.subrange(16, 32)),
        }
    }

    open spec fn bytes(self) -> Seq<u8> {
        self.hash.bytes() + self._unknown.bytes()
    }

    proof fn lemma_plain(x: Hash, w: Seq<u8>) {
        let b = x.bytes();
        <[u8; 16]>::lemma_plain(x.hash, w.subrange(0, 16));
        <[u8; 16]>::lemma_plain(x._unknown, w.subrange(16, 32));
        assert(b.subrange(0, 16) =~= x.hash.bytes());
        assert(b.subrange(16, 32) =~= x._unknown.bytes());
        if w.len() == 32 {
            assert(Self::parse(w).bytes() =~= w.subrange(0, 16) + w.subrange(16, 32));
            assert(Self::parse(w).bytes() =~= w);
        }
    }

    fn size() -> (n: usize) {
        32
    }

    fn get(data: &[u8], at: usize) -> (r: Hash) {
        let ghost w = data@.subrange(at as int, at + 32);
        assert(w.subrange(0, 16) =~= data@.subrange(at as int, at + 16));
        assert(w.subrange(16, 32) =~= data@.subrange(at + 16, at + 32));
        Hash { hash: <[u8; 16]>::get(data, at), _unknown: <[u8; 16]>::get(data, at + 16) }
    }

    fn put(&self, out: &mut Vec<u8>) {
        self.hash.put(out);
        self._unknown.put(out);
        assert(out@ =~= old(out)@ + self.bytes());
    }
}

/// The vertices and faces of a solid. `face_count` counts indices: the
/// mesh holds a third as many faces, and what is left over of the count
/// holds no face.
#[derive(Debug, Clone, PartialEq, Eq)]
pub struct Mesh2 {
    pub vertex_count: u32,
    pub vertices: Vec<Vertex>,
    pub face_count: u32,
    pub faces: Vec<[VertexId; 3]>,
}

/// The mathematical value of a [`Mesh2`].
pub struct Mesh2View {
    pub vertex_count: u32,
    pub vertices: Seq<Vertex>,
    pub face_count: u32,
    pub faces: Seq<[VertexId; 3]>,
}

impl View for Mesh2 {
    type V = Mesh2View;

    open spec fn view(&self) -> Mesh2View {
        Mesh2View {
            vertex_count: self.vertex_count,
            vertices: self.vertices@,
            face_count: self.face_count,
            faces: self.faces@,
        }
    }
}

/// The mesh that starts at `at` and the place where it ends.
#[verifier::opaque]
pub open spec fn mesh2_parse(s: Seq<u8>, at: int) -> Result<(Mesh2View, int), BinErrorView> {
    then(
        need(s, at, 4),
        then(
            magic_at(s, at + 4, u32_le(84)),
            match parse_count::<Vertex>(s, at + 8, le_u32(s, at) as nat) {
                Err(e) => Err(e),
                Ok((vertices, a1)) => {
                    let face_count = le_u32(s, a1);
                    let n = (face_count / 3) as nat;
                    let end = a1 + 4 + n * 12;
                    if s.len() - a1 < 4 || end > s.len() {
                        Err(BinErrorView::UnexpectedEof)
                    } else {
                        Ok(
                            (
                                Mesh2View {
                                    vertex_count: le_u32(s, at),
                                    vertices,
                                    face_count,
                                    faces: parse_seq(s, a1 + 4, n),
                                },
                                end,
                            ),
                        )
                    }
                },
            },
        ),
    )
}

impl Framed for Mesh2View {
    open spec fn wf(self) -> bool {
        &&& self.vertices.len() == self.vertex_count
        &&& self.faces.len() == self.face_count / 3
    }

    open spec fn bytes(self) -> Seq<u8> {
        u32_le(self.vertex_count) + u32_le(84) + frames_bytes(self.vertices) + u32_le(
            self.face_count,
        ) + seq_bytes(self.faces)
    }

    open spec fn parse(s: Seq<u8>, at: int) -> Result<(Self, int), BinErrorView> {
        mesh2_parse(s, at)
    }

    proof fn lemma_read_write(s: Seq<u8>, at: int, m: Self, end: int) {
        reveal(mesh2_parse);
        lemma_u32_le(84);
        let r = parse_count::<Vertex>(s, at + 8, le_u32(s, at) as nat);
        let a1 = r->Ok_0.1;
        lemma_count_read_write::<Vertex>(s, at + 8, m.vertex_count as nat, m.vertices, a1);
        lemma_le_u32(s, at);
        lemma_le_u32(s, a1);
        lemma_seq_bytes_of_parse::<[VertexId; 3]>(s, a1 + 4, (m.face_count / 3) as nat);
        lemma_join(s, at, at + 4, at + 8);
        lemma_join(s, at, at + 8, a1);
        lemma_join(s, at, a1, a1 + 4);
        lemma_join(s, at, a1 + 4, end);
    }

    proof fn lemma_write_read(self, s: Seq<u8>, at: int) {
        reveal(mesh2_parse);
        lemma_u32_le(84);
        lemma_u32_le(self.vertex_count);
        lemma_u32_le(self.face_count);
        lemma_seq_bytes_len(self.faces);
        let vb = frames_bytes(self.vertices);
        let c1 = u32_le(self.vertex_count);
        let c2 = c1 + u32_le(84);
        let c3 = c2 + vb;
        let c4 = c3 + u32_le(self.face_count);
        lemma_split(s, at, c4, seq_bytes(self.faces));
        lemma_split(s, at, c3, u32_le(self.face_count));
        lemma_split(s, at, c2, vb);
        lemma_split(s, at, c1, u32_le(84));
        lemma_le_u32_window(s, at);
        assert(all_wf(self.vertices));
        lemma_count_write_read::<Vertex>(self.vertices, s, at + 8);
        let a1 = at + 8 + vb.len();
        lemma_le_u32_window(s, a1);
        lemma_parse_seq_at::<[VertexId; 3]>(s, a1 + 4, self.faces);
    }

    proof fn lemma_cut(s: Seq<u8>, at: int, m: Self, end: int, k: int) {
        reveal(mesh2_parse);
        let t = s.take(k);
        let r = parse_count::<Vertex>(s, at + 8, le_u32(s, at) as nat);
        let a1 = r->Ok_0.1;
        lemma_count_read_write::<Vertex>(s, at + 8, m.vertex_count as nat, m.vertices, a1);
        if k >= at + 8 {
            assert(t.subrange(at + 4, at + 8) =~= s.subrange(at + 4, at + 8));
            lemma_count_cut::<Vertex>(s, at + 8, m.vertex_count as nat, m.vertices, a1, k);
            if k >= end {
                lemma_parse_seq_cut::<[VertexId; 3]>(s, a1 + 4, (m.face_count / 3) as nat, k);
            }
        }
    }
}

impl Mesh2 {
    /// Reads the mesh at `at`; gives it with the place where it ends.
    pub fn get(data: &[u8], at: usize) -> (r: Result<(Mesh2, usize), BinError>)
        requires
            at <= data.len(),
        ensures
            match r {
                Ok((m, end)) => end <= data.len() && mesh2_parse(data@, at as int) == Ok::<
                    (Mesh2View, int),
                    BinErrorView,
                >((m@, end as int)),
                Err(e) => mesh2_parse(data@, at as int) == Err::<(Mesh2View, int), BinErrorView>(
                    e@,
                ),
            },
    {
        proof {
            reveal(mesh2_parse);
            lemma_u32_le(84);
        }
        check_need(data, at, 4)?;
        let vertex_count = get_u32(data, at);
        let width: [u8; 4] = [84, 0, 0, 0];
        assert(width@ =~= u32_le(84));
        expect_magic(data, at + 4, width.as_slice())?;
        let (vertices, a1) = get_count::<Vertex>(data, at + 8, vertex_count as usize)?;
        check_need(data, a1, 4)?;
        let face_count = get_u32(data, a1);
        let n = (face_count / 3) as usize;
        let faces = get_seq::<[VertexId; 3]>(data, a1 + 4, n)?;
        Ok((Mesh2 { vertex_count, vertices, face_count, faces }, a1 + 4 + n * 12))
    }

    /// Appends the bytes of the mesh.
    pub fn put(&self, out: &mut Vec<u8>)
        ensures
            final(out)@ == old(out)@ + self@.bytes(),
    {
        put_u32(self.vertex_count, out);
        put_u32(84, out);
        put_count(&self.vertices, out);
        put_u32(self.face_count, out);
        put_seq(&self.faces, out);
        assert(out@ =~= old(out)@ + self@.bytes());
    }
}

/// The bytes of `CSGMDL`.
pub open spec fn magic_csgmdl() -> Seq<u8> {
    seq![0x43u8, 0x53u8, 0x47u8, 0x4du8, 0x44u8, 0x4cu8]
}

/// The hash and the mesh of a solid of revision `version`, which starts at
/// `at`, and the place where the mesh ends.
#[verifier::opaque]
pub open spec fn solid_parse(s: Seq<u8>, at: int, version: u32) -> Result<
    (Hash, Mesh2View, int),
    BinErrorView,
> {
    then(
        magic_at(s, at, magic_csgmdl()),
        then(
            magic_at(s, at + 6, u32_le(version)),
            then(
                need(s, at + 10, 32),
                match mesh2_parse(s, at + 42) {
                    Err(e) => Err(e),
                    Ok((mesh, end)) => Ok((Hash::parse(s.subrange(at + 10, at + 42)), mesh, end)),
                },
            ),
        ),
    )
}

/// The bytes of the hash and the mesh of a solid of revision `version`.
pub open spec fn solid_bytes(version: u32, hash: Hash, mesh: Mesh2View) -> Seq<u8> {
    magic_csgmdl() + u32_le(version) + hash.bytes() + mesh.bytes()
}

/// What was read of a solid is well formed, and its bytes are the bytes it
/// was read from.
pub proof fn lemma_solid_read_write(
    s: Seq<u8>,
    at: int,
    version: u32,
    hash: Hash,
    mesh: Mesh2View,
    end: int,
)
    requires
        0 <= at <= s.len(),
        solid_parse(s, at, version) == Ok::<(Hash, Mesh2View, int), BinErrorView>(
            (hash, mesh, end),
        ),
    ensures
        mesh.wf(),
        at + 42 <= end <= s.len(),
        solid_bytes(version, hash, mesh) == s.subrange(at, end),
{
    reveal(solid_parse);
    lemma_u32_le(version);
    Hash::lemma_plain(hash, s.subrange(at + 10, at + 42));
    Mesh2View::lemma_read_write(s, at + 42, mesh, end);
    lemma_join(s, at, at + 6, at + 10);
    lemma_join(s, at, at + 10, at + 42);
    lemma_join(s, at, at + 42, end);
}

/// A well-formed solid is read back from its bytes, wherever they stand.
pub proof fn lemma_solid_write_read(
    s: Seq<u8>,
    at: int,
    version: u32,
    hash: Hash,
    mesh: Mesh2View,
)
    requires
        mesh.wf(),
        0 <= at,
        at + solid_bytes(version, hash, mesh).len() <= s.len(),
        s.subrange(at, at + solid_bytes(version, hash, mesh).len()) == solid_bytes(
            version,
            hash,
            mesh,
        ),
    ensures
        solid_bytes(version, hash, mesh).len() == 42 + mesh.bytes().len(),
        solid_parse(s, at, version) == Ok::<(Hash, Mesh2View, int), BinErrorView>(
            (hash, mesh, at + 42 + mesh.bytes().len()),
        ),
{
    reveal(solid_parse);
    lemma_u32_le(version);
    Hash::lemma_plain(hash, Seq::empty());
    let c1 = magic_csgmdl();
    let c2 = c1 + u32_le(version);
    let c3 = c2 + hash.bytes();
    lemma_split(s, at, c3, mesh.bytes());
    lemma_split(s, at, c2, hash.bytes());
    lemma_split(s, at, c1, u32_le(version));
    mesh.lemma_write_read(s, at + 42);
}

/// A solid that the input is cut through is not read at all; one that lies
/// before the cut is read the same.
pub proof fn lemma_solid_cut(
    s: Seq<u8>,
    at: int,
    version: u32,
    hash: Hash,
    mesh: Mesh2View,
    end: int,
    k: int,
)
    requires
        0 <= at <= k <= s.len(),
        solid_parse(s, at, version) == Ok::<(Hash, Mesh2View, int), BinErrorView>(
            (hash, mesh, end),
        ),
    ensures
        k < end ==> solid_parse(s.take(k), at, version) == Err::<
            (Hash, Mesh2View, int),
            BinErrorView,
        >(BinErrorView::UnexpectedEof),
        k >= end ==> solid_parse(s.take(k), at, version) == solid_parse(s, at, version),
{
    lemma_solid_read_write(s, at, version, hash, mesh, end);
    reveal(solid_parse);
    lemma_u32_le(version);
    let t = s.take(k);
    if k >= at + 6 {
        assert(t.subrange(at, at + 6) =~= s.subrange(at, at + 6));
    }
    if k >= at + 10 {
        assert(t.subrange(at + 6, at + 10) =~= s.subrange(at + 6, at + 10));
    }
    if k >= at + 42 {
        assert(t.subrange(at + 10, at + 42) =~= s.subrange(at + 10, at + 42));
        Mesh2View::lemma_cut(s, at + 42, mesh, end, k);
    }
}

/// Reads the hash and the mesh of a solid of revision `version`.
pub fn get_solid(data: &[u8], at: usize, version: u8) -> (r: Result<
    (Hash, Mesh2, usize),
    BinError,
>)
    requires
        at <= data.len(),
    ensures
        match r {
            Ok((hash, mesh, end)) => end <= data.len() && solid_parse(
                data@,
                at as int,
                version as u32,
            ) == Ok::<(Hash, Mesh2View, int), BinErrorView>((hash, mesh@, end as int)),
            Err(e) => solid_parse(data@, at as int, version as u32) == Err::<
                (Hash, Mesh2View, int),
                BinErrorView,
            >(e@),
        },
{
    proof {
        reveal(solid_parse);
    }
    let name: [u8; 6] = [0x43, 0x53, 0x47, 0x4d, 0x44, 0x4c];
    let number: [u8; 4] = [version, 0, 0, 0];
    assert(name@ =~= magic_csgmdl());
    assert(number@ =~= u32_le(version as u32));
    expect_magic(data, at, name.as_slice())?;
    expect_magic(data, at + 6, number.as_slice())?;
    check_need(data, at + 10, 32)?;
    let hash = Hash::get(data, at + 10);
    let (mesh, end) = Mesh2::get(data, at + 42)?;
    Ok((hash, mesh, end))
}

/// Appends the hash and the mesh of a solid of revision `version`.
pub fn put_solid(version: u8, hash: &Hash, mesh: &Mesh2, out: &mut Vec<u8>)
    ensures
        final(out)@ == old(out)@ + solid_bytes(version as u32, *hash, mesh@),
{
    let name: [u8; 6] = [0x43, 0x53, 0x47, 0x4d, 0x44, 0x4c];
    assert(name@ =~= magic_csgmdl());
    put_bytes(name.as_slice(), out);
    put_u32(version as u32, out);
    hash.put(out);
    mesh.put(out);
    assert(out@ =~= old(out)@ + solid_bytes(version as u32, *hash, mesh@));
}

/// A solid of revision 2.
#[derive(Debug, Clone, PartialEq, Eq)]
pub struct CSGMDL2 {
    pub hash: Hash,
    pub mesh: Mesh2,
}

/// The mathematical value of a [`CSGMDL2`].
pub struct CSGMDL2View {
    pub hash: Hash,
    pub mesh: Mesh2View,
}

impl View for CSGMDL2 {
    type V = CSGMDL2View;

    open spec fn view(&self) -> CSGMDL2View {
        CSGMDL2View { hash: self.hash, mesh: self.mesh@ }
    }
}

impl Framed for CSGMDL2View {
    open spec fn wf(self) -> bool {
        self.mesh.wf()
    }

    open spec fn bytes(self) -> Seq<u8> {
        solid_bytes(2, self.hash, self.mesh)
    }

    open spec fn parse(s: Seq<u8>, at: int) -> Result<(Self, int), BinErrorView> {
        match solid_parse(s, at, 2) {
            Err(e) => Err(e),
            Ok((hash, mesh, end)) => Ok((CSGMDL2View { hash, mesh }, end)),
        }
    }

    proof fn lemma_read_write(s: Seq<u8>, at: int, m: Self, end: int) {
        lemma_solid_read_write(s, at, 2, m.hash, m.mesh, end);
    }

    proof fn lemma_write_read(self, s: Seq<u8>, at: int) {
        lemma_solid_write_read(s, at, 2, self.hash, self.mesh);
    }

    proof fn lemma_cut(s: Seq<u8>, at: int, m: Self, end: int, k: int) {
        lemma_solid_cut(s, at, 2, m.hash, m.mesh, end, k);
    }
}

/// A solid of revision 4.
#[derive(Debug, Clone, PartialEq, Eq)]
pub struct CSGMDL4 {
    pub hash: Hash,
    pub mesh: Mesh2,
    pub _unknown1_count: u32,
    pub _unknown1_list: Vec<u32>,
}

/// The mathematical value of a [`CSGMDL4`].
pub struct CSGMDL4View {
    pub hash: Hash,
    pub mesh: Mesh2View,
    pub _unknown1_count: u32,
    pub _unknown1_list: Seq<u32>,
}

impl View for CSGMDL4 {
    type V = CSGMDL4View;

    open spec fn view(&self) -> CSGMDL4View {
        CSGMDL4View {
            hash: self.hash,
            mesh: self.mesh@,
            _unknown1_count: self._unknown1_count,
            _unknown1_list: self._unknown1_list@,
        }
    }
}

impl Framed for CSGMDL4View {
    open spec fn wf(self) -> bool {
        self.mesh.wf() && self._unknown1_list.len() == self._unknown1_count
    }

    open spec fn bytes(self) -> Seq<u8> {
        solid_bytes(4, self.hash, self.mesh) + u32_le(self._unknown1_count) + seq_bytes(
            self._unknown1_list,
        )
    }

    open spec fn parse(s: Seq<u8>, at: int) -> Result<(Self, int), BinErrorView> {
        match solid_parse(s, at, 4) {
            Err(e) => Err(e),
            Ok((hash, mesh, a1)) => {
                let count = le_u32(s, a1);
                let end = a1 + 4 + count * 4;
                if s.len() - a1 < 4 || end > s.len() {
                    Err(BinErrorView::UnexpectedEof)
                } else {
                    Ok(
                        (
                            CSGMDL4View {
                                hash,
                                mesh,
                                _unknown1_count: count,
                                _unknown1_list: parse_seq(s, a1 + 4, count as nat),
                            },
                            end,
                        ),
                    )
                }
            },
        }
    }

    proof fn lemma_read_write(s: Seq<u8>, at: int, m: Self, end: int) {
        let a1 = solid_parse(s, at, 4)->Ok_0.2;
        lemma_solid_read_write(s, at, 4, m.hash, m.mesh, a1);
        lemma_le_u32(s, a1);
        lemma_seq_bytes_of_parse::<u32>(s, a1 + 4, m._unknown1_count as nat);
        lemma_join(s, at, a1, a1 + 4);
        lemma_join(s, at, a1 + 4, end);
    }

    proof fn lemma_write_read(self, s: Seq<u8>, at: int) {
        let sb = solid_bytes(4, self.hash, self.mesh);
        lemma_u32_le(self._unknown1_count);
        lemma_seq_bytes_len(self._unknown1_list);
        lemma_split(s, at, sb + u32_le(self._unknown1_count), seq_bytes(self._unknown1_list));
        lemma_split(s, at, sb, u32_le(self._unknown1_count));
        lemma_solid_write_read(s, at, 4, self.hash, self.mesh);
        let a1 = at + sb.len();
        lemma_le_u32_window(s, a1);
        lemma_parse_seq_at::<u32>(s, a1 + 4, self._unknown1_list);
    }

    proof fn lemma_cut(s: Seq<u8>, at: int, m: Self, end: int, k: int) {
        let a1 = solid_parse(s, at, 4)->Ok_0.2;
        lemma_solid_read_write(s, at, 4, m.hash, m.mesh, a1);
        lemma_solid_cut(s, at, 4, m.hash, m.mesh, a1, k);
        if k >= end {
            lemma_parse_seq_cut::<u32>(s, a1 + 4, m._unknown1_count as nat, k);
        }
    }
}

impl CSGMDL2 {
    /// Reads the solid at `at`; gives it with the place where it ends.
    pub fn get(data: &[u8], at: usize) -> (r: Result<(CSGMDL2, usize), BinError>)
        requires
            at <= data.len(),
        ensures
            match r {
                Ok((m, end)) => end <= data.len() && CSGMDL2View::parse(data@, at as int) == Ok::<
                    (CSGMDL2View, int),
                    BinErrorView,
                >((m@, end as int)),
                Err(e) => CSGMDL2View::parse(data@, at as int) == Err::<
                    (CSGMDL2View, int),
                    BinErrorView,
                >(e@),
            },
    {
        let (hash, mesh, end) = get_solid(data, at, 2)?;
        Ok((CSGMDL2 { hash, mesh }, end))
    }

    /// Appends the bytes of the solid.
    pub fn put(&self, out: &mut Vec<u8>)
        ensures
            final(out)@ == old(out)@ + self@.bytes(),
    {
        put_solid(2, &self.hash, &self.mesh, out);
    }
}

impl CSGMDL4 {
    /// Reads the solid at `at`; gives it with the place where it ends.
    pub fn get(data: &[u8], at: usize) -> (r: Result<(CSGMDL4, usize), BinError>)
        requires
            at <= data.len(),
        ensures
            match r {
                Ok((m, end)) => end <= data.len() && CSGMDL4View::parse(data@, at as int) == Ok::<
                    (CSGMDL4View, int),
                    BinErrorView,
                >((m@, end as int)),
                Err(e) => CSGMDL4View::parse(data@, at as int) == Err::<
                    (CSGMDL4View, int),
                    BinErrorView,
                >(e@),
            },
    {
        let (hash, mesh, a1) = get_solid(data, at, 4)?;
        check_need(data, a1, 4)?;
        let _unknown1_count = get_u32(data, a1);
        let _unknown1_list = get_seq::<u32>(data, a1 + 4, _unknown1_count as usize)?;
        let end = a1 + 4 + _unknown1_count as usize * 4;
        Ok((CSGMDL4 { hash, mesh, _unknown1_count, _unknown1_list }, end))
    }

    /// Appends the bytes of the solid.
    pub fn put(&self, out: &mut Vec<u8>)
        ensures
            final(out)@ == old(out)@ + self@.bytes(),
    {
        put_solid(4, &self.hash, &self.mesh, out);
        put_u32(self._unknown1_count, out);
        put_seq(&self._unknown1_list, out);
        assert(out@ =~= old(out)@ + self@.bytes());
    }
}

} // verus!
