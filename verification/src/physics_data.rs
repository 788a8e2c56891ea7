//! The collision family: files that begin `CSGK` or `CSGPHS`.

use vstd::prelude::*;
use crate::frame::{
    Framed, all_wf, frames_bytes, is_boundary, lemma_all_cut, lemma_all_read_write,
    lemma_all_write_read, parse_all, prepend,
};
use crate::mesh_data::magic_csgk;
use crate::stream::Cursor;
use crate::wire::{
    BinError, BinErrorView, Plain, check_need, expect_magic, get_bytes, get_seq, get_u32, le_u32,
    lemma_join, lemma_le_u32, lemma_le_u32_window, lemma_parse_seq_at, lemma_parse_seq_cut,
    lemma_seq_bytes_len, lemma_seq_bytes_of_parse, lemma_split, lemma_u32_le, magic_at, need,
    parse_seq, put_bytes, put_seq, put_u32, seq_bytes, then, u32_le,
};

pub use crate::wire::BinError as Error;
pub use crate::mesh_data::CSGK;
pub use crate::mesh_data::csgmdl::VertexId;

verus! {

/// What was computed of a solid for the physics: its volume, its center of
/// gravity, and the upper triangle of its inertia matrix, row by row. Every
/// number is kept as its 32-bit pattern.
#[derive(Debug, Clone, Copy, PartialEq, Eq)]
pub struct PhysicsInfo {
    pub volume: u32,
    pub center_of_gravity: [u32; 3],
    pub moment_of_inertia_packed: [u32; 6],
}

impl Plain for PhysicsInfo {
    open spec fn width() -> nat {
        40
    }

    open spec fn parse(w: Seq<u8>) -> PhysicsInfo {
        PhysicsInfo {
            volume: u32::parse(w.subrange(0, 4)),
            center_of_gravity: <[u32; 3]>::parse(w.subrange(4, 16)),
            moment_of_inertia_packed: <[u32; 6]>::parse(w.subrange(16, 40)),
        }
    }

    open spec fn bytes(self) -> Seq<u8> {
        self.volume.bytes() + self.center_of_gravity.bytes() + self.moment_of_inertia_packed.bytes()
    }

    proof fn lemma_plain(x: PhysicsInfo, w: Seq<u8>) {
        let b = x.bytes();
        u32::lemma_plain(x.volume, w.subrange(0, 4));
        <[u32; 3]>::lemma_plain(x.center_of_gravity, w.subrange(4, 16));
        <[u32; 6]>::lemma_plain(x.moment_of_inertia_packed, w.subrange(16, 40));
        assert(b.subrange(0, 4) =~= x.volume.bytes());
        assert(b.subrange(4, 16) =~= x.center_of_gravity.bytes());
        assert(b.subrange(16, 40) =~= x.moment_of_inertia_packed.bytes());
        if w.len() == 40 {
            assert(Self::parse(w).bytes() =~= w.subrange(0, 4) + w.subrange(4, 16) + w.subrange(
                16,
                40,
            ));
            assert(Self::parse(w).bytes() =~= w);
        }
    }

    fn size() -> (n: usize) {
        40
    }

    fn get(data: &[u8], at: usize) -> (r: PhysicsInfo) {
        let ghost w = data@.subrange(at as int, at + 40);
        assert(w.subrange(0, 4) =~= data@.subrange(at as int, at + 4));
        assert(w.subrange(4, 16) =~= data@.subrange(at + 4, at + 16));
        assert(w.subrange(16, 40) =~= data@.subrange(at + 16, at + 40));
        PhysicsInfo {
            volume: u32::get(data, at),
            center_of_gravity: <[u32; 3]>::get(data, at + 4),
            moment_of_inertia_packed: <[u32; 6]>::get(data, at + 16),
        }
    }

    fn put(&self, out: &mut Vec<u8>) {
        self.volume.put(out);
        self.center_of_gravity.put(out);
        self.moment_of_inertia_packed.put(out);
        assert(out@ =~= old(out)@ + self.bytes());
    }
}

/// The 40 bytes that open every collision mesh: the number 16, sixteen
/// bytes of zero, the number 16 again, and the 128-bit number whose top
/// four bytes are the pattern of 1.0.
pub open spec fn magic_mesh() -> Seq<u8> {
    Seq::new(
        40,
        |i: int|
            if i == 0 || i == 20 {
                0x10u8
            } else if i == 38 {
                0x80u8
            } else if i == 39 {
                0x3fu8
            } else {
                0u8
            },
    )
}

/// A collision mesh. `vertex_count` counts coordinates and `face_count`
/// counts indices: the mesh holds a third as many vertices and faces, and
/// what is left over of a count holds nothing. Every coordinate is kept as
/// its 32-bit pattern.
#[derive(Debug, Clone, PartialEq, Eq)]
pub struct Mesh {
    pub vertex_count: u32,
    pub vertices: Vec<[u32; 3]>,
    pub face_count: u32,
    pub faces: Vec<[VertexId; 3]>,
}

/// The mathematical value of a [`Mesh`].
pub struct MeshView {
    pub vertex_count: u32,
    pub vertices: Seq<[u32; 3]>,
    pub face_count: u32,
    pub faces: Seq<[VertexId; 3]>,
}

impl View for Mesh {
    type V = MeshView;

    open spec fn view(&self) -> MeshView {
        MeshView {
            vertex_count: self.vertex_count,
            vertices: self.vertices@,
            face_count: self.face_count,
            faces: self.faces@,
        }
    }
}

/// The vertices and faces that follow the fixed start of the mesh at `at`.
pub open spec fn mesh_lists(s: Seq<u8>, at: int) -> Result<(MeshView, int), BinErrorView> {
    let vertex_count = le_u32(s, at + 40);
    let nv = (vertex_count / 3) as nat;
    let a1 = at + 48 + nv * 12;
    if s.len() - a1 < 4 {
        Err(BinErrorView::UnexpectedEof)
    } else {
        let face_count = le_u32(s, a1);
        let nf = (face_count / 3) as nat;
        let end = a1 + 4 + nf * 12;
        if end > s.len() {
            Err(BinErrorView::UnexpectedEof)
        } else {
            Ok(
                (
                    MeshView {
                        vertex_count,
                        vertices: parse_seq(s, at + 48, nv),
                        face_count,
                        faces: parse_seq(s, a1 + 4, nf),
                    },
                    end,
                ),
            )
        }
    }
}

/// The mesh that starts at `at` and the place where it ends.
#[verifier::opaque]
pub open spec fn mesh_parse(s: Seq<u8>, at: int) -> Result<(MeshView, int), BinErrorView> {
    then(
        magic_at(s, at, magic_mesh()),
        then(need(s, at + 40, 4), then(magic_at(s, at + 44, u32_le(4)), mesh_lists(s, at))),
    )
}

impl Framed for MeshView {
    open spec fn wf(self) -> bool {
        &&& self.vertices.len() == self.vertex_count / 3
        &&& self.faces.len() == self.face_count / 3
    }

    open spec fn bytes(self) -> Seq<u8> {
        magic_mesh() + u32_le(self.vertex_count) + u32_le(4) + seq_bytes(self.vertices) + u32_le(
            self.face_count,
        ) + seq_bytes(self.faces)
    }

    open spec fn parse(s: Seq<u8>, at: int) -> Result<(Self, int), BinErrorView> {
        mesh_parse(s, at)
    }

    proof fn lemma_read_write(s: Seq<u8>, at: int, m: Self, end: int) {
        reveal(mesh_parse);
        lemma_u32_le(4);
        lemma_le_u32(s, at + 40);
        let nv = (m.vertex_count / 3) as nat;
        let a1 = at + 48 + nv * 12;
        lemma_le_u32(s, a1);
        lemma_seq_bytes_of_parse::<[u32; 3]>(s, at + 48, nv);
        lemma_seq_bytes_of_parse::<[VertexId; 3]>(s, a1 + 4, (m.face_count / 3) as nat);
        lemma_join(s, at, at + 40, at + 44);
        lemma_join(s, at, at + 44, at + 48);
        lemma_join(s, at, at + 48, a1);
        lemma_join(s, at, a1, a1 + 4);
        lemma_join(s, at, a1 + 4, end);
    }

    proof fn lemma_write_read(self, s: Seq<u8>, at: int) {
        reveal(mesh_parse);
        lemma_u32_le(4);
        lemma_u32_le(self.vertex_count);
        lemma_u32_le(self.face_count);
        lemma_seq_bytes_len(self.vertices);
        lemma_seq_bytes_len(self.faces);
        let c1 = magic_mesh();
        let c2 = c1 + u32_le(self.vertex_count);
        let c3 = c2 + u32_le(4);
        let c4 = c3 + seq_bytes(self.vertices);
        let c5 = c4 + u32_le(self.face_count);
        lemma_split(s, at, c5, seq_bytes(self.faces));
        lemma_split(s, at, c4, u32_le(self.face_count));
        lemma_split(s, at, c3, seq_bytes(self.vertices));
        lemma_split(s, at, c2, u32_le(4));
        lemma_split(s, at, c1, u32_le(self.vertex_count));
        lemma_le_u32_window(s, at + 40);
        let a1 = at + 48 + seq_bytes(self.vertices).len();
        lemma_le_u32_window(s, a1);
        lemma_parse_seq_at::<[u32; 3]>(s, at + 48, self.vertices);
        lemma_parse_seq_at::<[VertexId; 3]>(s, a1 + 4, self.faces);
    }

    proof fn lemma_cut(s: Seq<u8>, at: int, m: Self, end: int, k: int) {
        reveal(mesh_parse);
        lemma_u32_le(4);
        let t = s.take(k);
        let nv = (m.vertex_count / 3) as nat;
        let a1 = at + 48 + nv * 12;
        if k >= at + 40 {
            assert(t.subrange(at, at + 40) =~= s.subrange(at, at + 40));
        }
        if k >= at + 48 {
            assert(t.subrange(at + 44, at + 48) =~= s.subrange(at + 44, at + 48));
        }
        if k >= end {
            lemma_parse_seq_cut::<[u32; 3]>(s, at + 48, nv, k);
            lemma_parse_seq_cut::<[VertexId; 3]>(s, a1 + 4, (m.face_count / 3) as nat, k);
        }
    }
}

/// A mesh takes at least 52 bytes.
pub proof fn lemma_mesh_len(m: MeshView)
    ensures
        m.bytes().len() >= 52,
{
    lemma_u32_le(4);
    lemma_u32_le(m.vertex_count);
    lemma_u32_le(m.face_count);
}

impl Mesh {
    /// Reads the mesh at `at`; gives it with the place where it ends.
    pub fn get(data: &[u8], at: usize) -> (r: Result<(Mesh, usize), BinError>)
        requires
            at <= data.len(),
        ensures
            match r {
                Ok((m, end)) => at < end <= data.len() && mesh_parse(data@, at as int) == Ok::<
                    (MeshView, int),
                    BinErrorView,
                >((m@, end as int)),
                Err(e) => mesh_parse(data@, at as int) == Err::<(MeshView, int), BinErrorView>(e@),
            },
    {
        proof {
            reveal(mesh_parse);
            lemma_u32_le(4);
        }
        let mut start = [0u8; 40];
        start[0] = 0x10;
        start[20] = 0x10;
        start[38] = 0x80;
        start[39] = 0x3f;
        assert(start@ =~= magic_mesh());
        let width: [u8; 4] = [4, 0, 0, 0];
        assert(width@ =~= u32_le(4));
        expect_magic(data, at, start.as_slice())?;
        check_need(data, at + 40, 4)?;
        let vertex_count = get_u32(data, at + 40);
        expect_magic(data, at + 44, width.as_slice())?;
        let nv = (vertex_count / 3) as usize;
        let vertices = get_seq::<[u32; 3]>(data, at + 48, nv)?;
        let a1 = at + 48 + nv * 12;
        if data.len() - a1 < 4 {
            return Err(BinError::UnexpectedEof);
        }
        let face_count = get_u32(data, a1);
        let nf = (face_count / 3) as usize;
        let faces = get_seq::<[VertexId; 3]>(data, a1 + 4, nf)?;
        Ok((Mesh { vertex_count, vertices, face_count, faces }, a1 + 4 + nf * 12))
    }

    /// Appends the bytes of the mesh.
    pub fn put(&self, out: &mut Vec<u8>)
        ensures
            final(out)@ == old(out)@ + self@.bytes(),
    {
        let mut start = [0u8; 40];
        start[0] = 0x10;
        start[20] = 0x10;
        start[38] = 0x80;
        start[39] = 0x3f;
        assert(start@ =~= magic_mesh());
        put_bytes(start.as_slice(), out);
        put_u32(self.vertex_count, out);
        put_u32(4, out);
        put_seq(&self.vertices, out);
        put_u32(self.face_count, out);
        put_seq(&self.faces, out);
        assert(out@ =~= old(out)@ + self@.bytes());
    }
}

/// The mathematical values of a list of meshes.
pub open spec fn mesh_views(v: Seq<Mesh>) -> Seq<MeshView> {
    v.map_values(|m: Mesh| m@)
}

/// Reads the meshes that follow each other from `at` to the end of the
/// input.
pub fn get_meshes(data: &[u8], at: usize) -> (r: Result<Vec<Mesh>, BinError>)
    requires
        at <= data.len(),
    ensures
        match r {
            Ok(v) => parse_all::<MeshView>(data@, at as int) == Ok::<Seq<MeshView>, BinErrorView>(
                mesh_views(v@),
            ),
            Err(e) => parse_all::<MeshView>(data@, at as int) == Err::<
                Seq<MeshView>,
                BinErrorView,
            >(e@),
        },
{
    let mut v: Vec<Mesh> = Vec::new();
    let mut cur: usize = at;
    assert(mesh_views(v@) + parse_all::<MeshView>(data@, cur as int)->Ok_0 =~= parse_all::<
        MeshView,
    >(data@, cur as int)->Ok_0);
    while cur < data.len()
        invariant
            at <= cur <= data.len(),
            parse_all::<MeshView>(data@, at as int) == prepend(
                mesh_views(v@),
                parse_all::<MeshView>(data@, cur as int),
            ),
        decreases data.len() - cur,
    {
        match Mesh::get(data, cur) {
            Err(e) => {
                return Err(e);
            },
            Ok((m, end)) => {
                proof {
                    let rest = parse_all::<MeshView>(data@, end as int);
                    assert(parse_all::<MeshView>(data@, cur as int) == prepend(seq![m@], rest));
                    if rest is Ok {
                        assert(mesh_views(v@) + (seq![m@] + rest->Ok_0) =~= mesh_views(
                            v@.push(m),
                        ) + rest->Ok_0);
                    }
                }
                v.push(m);
                cur = end;
            },
        }
    }
    assert(mesh_views(v@) + Seq::<MeshView>::empty() =~= mesh_views(v@));
    Ok(v)
}

/// Appends the meshes of `v`.
pub fn put_meshes(v: &Vec<Mesh>, out: &mut Vec<u8>)
    ensures
        final(out)@ == old(out)@ + frames_bytes(mesh_views(v@)),
{
    let mut i: usize = 0;
    while i < v.len()
        invariant
            i <= v.len(),
            out@ == old(out)@ + frames_bytes(mesh_views(v@.subrange(0, i as int))),
        decreases v.len() - i,
    {
        v[i].put(out);
        proof {
            let a = mesh_views(v@.subrange(0, i + 1));
            assert(a.drop_last() =~= mesh_views(v@.subrange(0, i as int)));
            assert(a.last() == v@[i as int]@);
            assert(out@ =~= old(out)@ + frames_bytes(a));
        }
        i += 1;
    }
    assert(v@.subrange(0, v.len() as int) =~= v@);
}

/// The meshes of a solid, one after the other to the end of the file.
#[derive(Debug, Clone, PartialEq, Eq)]
pub struct CSGPHS3 {
    pub meshes: Vec<Mesh>,
}

/// What was computed of a solid, and its one mesh.
#[derive(Debug, Clone, PartialEq, Eq)]
pub struct CSGPHS6 {
    pub physics_info: PhysicsInfo,
    pub mesh: Mesh,
}

/// What was computed of a solid, and its meshes, one after the other to
/// the end of the file.
#[derive(Debug, Clone, PartialEq, Eq)]
pub struct CSGPHS7 {
    pub physics_info: PhysicsInfo,
    pub meshes: Vec<Mesh>,
}

/// A collision file of one of the five kinds.
#[derive(Debug, Clone, PartialEq, Eq)]
pub enum CSGPHS {
    /// The solid is a plain block and needs no mesh.
    Block,
    V3(CSGPHS3),
    V5(CSGPHS3),
    V6(CSGPHS6),
    V7(CSGPHS7),
}

/// The mathematical value of a [`CSGPHS`].
pub enum CSGPHSView {
    Block,
    V3 { meshes: Seq<MeshView> },
    V5 { meshes: Seq<MeshView> },
    V6 { physics_info: PhysicsInfo, mesh: MeshView },
    V7 { physics_info: PhysicsInfo, meshes: Seq<MeshView> },
}

impl View for CSGPHS {
    type V = CSGPHSView;

    open spec fn view(&self) -> CSGPHSView {
        match *self {
            CSGPHS::Block => CSGPHSView::Block,
            CSGPHS::V3(m) => CSGPHSView::V3 { meshes: mesh_views(m.meshes@) },
            CSGPHS::V5(m) => CSGPHSView::V5 { meshes: mesh_views(m.meshes@) },
            CSGPHS::V6(m) => CSGPHSView::V6 { physics_info: m.physics_info, mesh: m.mesh@ },
            CSGPHS::V7(m) => CSGPHSView::V7 {
                physics_info: m.physics_info,
                meshes: mesh_views(m.meshes@),
            },
        }
    }
}

/// What a file of the family holds.
#[derive(Debug, Clone, PartialEq, Eq)]
pub enum PhysicsData {
    CSGK(CSGK),
    CSGPHS(CSGPHS),
}

/// The mathematical value of a [`PhysicsData`].
pub enum PhysicsDataView {
    CSGK(CSGK),
    CSGPHS(CSGPHSView),
}

impl View for PhysicsData {
    type V = PhysicsDataView;

    open spec fn view(&self) -> PhysicsDataView {
        match *self {
            PhysicsData::CSGK(c) => PhysicsDataView::CSGK(c),
            PhysicsData::CSGPHS(m) => PhysicsDataView::CSGPHS(m@),
        }
    }
}

/// The bytes of `CSGPHS`.
pub open spec fn magic_csgphs() -> Seq<u8> {
    seq![0x43u8, 0x53u8, 0x47u8, 0x50u8, 0x48u8, 0x53u8]
}

/// The number 0 and the bytes of `BLOCK`.
pub open spec fn magic_block() -> Seq<u8> {
    seq![0u8, 0u8, 0u8, 0u8, 0x42u8, 0x4cu8, 0x4fu8, 0x43u8, 0x4bu8]
}

/// The one byte 3 that follows the number of revision 7.
pub open spec fn magic_seven() -> Seq<u8> {
    seq![3u8]
}

impl CSGPHSView {
    /// Every mesh is well formed.
    pub open spec fn wf(self) -> bool {
        match self {
            CSGPHSView::Block => true,
            CSGPHSView::V3 { meshes } => all_wf(meshes),
            CSGPHSView::V5 { meshes } => all_wf(meshes),
            CSGPHSView::V6 { physics_info, mesh } => mesh.wf(),
            CSGPHSView::V7 { physics_info, meshes } => all_wf(meshes),
        }
    }

    /// The value runs to the end of its file: it holds a list of meshes
    /// that no count announces.
    pub open spec fn open_ended(self) -> bool {
        self is V3 || self is V5 || self is V7
    }

    /// The bytes of the value behind the name `CSGPHS`.
    pub open spec fn bytes(self) -> Seq<u8> {
        match self {
            CSGPHSView::Block => magic_block(),
            CSGPHSView::V3 { meshes } => u32_le(3) + frames_bytes(meshes),
            CSGPHSView::V5 { meshes } => u32_le(5) + frames_bytes(meshes),
            CSGPHSView::V6 { physics_info, mesh } => u32_le(6) + physics_info.bytes()
                + mesh.bytes(),
            CSGPHSView::V7 { physics_info, meshes } => u32_le(7) + magic_seven()
                + physics_info.bytes() + frames_bytes(meshes),
        }
    }
}

/// The value of revision 6 that follows its number at `at`.
pub open spec fn six_parse(s: Seq<u8>, at: int) -> Result<(CSGPHSView, int), BinErrorView> {
    match need(s, at + 4, 40) {
        Err(e) => Err(e),
        Ok(_) => match mesh_parse(s, at + 44) {
            Err(e) => Err(e),
            Ok((mesh, end)) => Ok(
                (
                    CSGPHSView::V6 {
                        physics_info: PhysicsInfo::parse(s.subrange(at + 4, at + 44)),
                        mesh,
                    },
                    end,
                ),
            ),
        },
    }
}

/// The value of revision 7 that follows its number at `at`.
pub open spec fn seven_parse(s: Seq<u8>, at: int) -> Result<(CSGPHSView, int), BinErrorView> {
    match magic_at(s, at + 4, magic_seven()) {
        Err(e) => Err(e),
        Ok(_) => match need(s, at + 5, 40) {
            Err(e) => Err(e),
            Ok(_) => match parse_all::<MeshView>(s, at + 45) {
                Err(e) => Err(e),
                Ok(meshes) => Ok(
                    (
                        CSGPHSView::V7 {
                            physics_info: PhysicsInfo::parse(s.subrange(at + 5, at + 45)),
                            meshes,
                        },
                        s.len() as int,
                    ),
                ),
            },
        },
    }
}

/// How many bytes of the block constant can be looked for at `at`: all
/// nine, or as many as the input still holds.
pub open spec fn block_span(s: Seq<u8>, at: int) -> int {
    if s.len() - at < 9 {
        s.len() - at
    } else {
        9
    }
}

/// The bytes at `at` are the start of the block constant, as far as the
/// input goes.
pub open spec fn block_begins(s: Seq<u8>, at: int) -> bool {
    s.subrange(at, at + block_span(s, at)) == magic_block().subrange(0, block_span(s, at))
}

/// The value that follows the name `CSGPHS`, which ends at `at`, and the
/// place where it ends: a block where the block constant stands there, and
/// otherwise the revision that the number at `at` names. An input that
/// ends inside the block constant is cut short, and is not taken for
/// another revision.
#[verifier::opaque]
pub open spec fn csgphs_parse(s: Seq<u8>, at: int) -> Result<(CSGPHSView, int), BinErrorView> {
    if block_begins(s, at) {
        if block_span(s, at) == 9 {
            Ok((CSGPHSView::Block, at + 9))
        } else {
            Err(BinErrorView::UnexpectedEof)
        }
    } else if s.len() - at < 4 {
        Err(BinErrorView::UnexpectedEof)
    } else if le_u32(s, at) == 3 {
        match parse_all::<MeshView>(s, at + 4) {
            Err(e) => Err(e),
            Ok(meshes) => Ok((CSGPHSView::V3 { meshes }, s.len() as int)),
        }
    } else if le_u32(s, at) == 5 {
        match parse_all::<MeshView>(s, at + 4) {
            Err(e) => Err(e),
            Ok(meshes) => Ok((CSGPHSView::V5 { meshes }, s.len() as int)),
        }
    } else if le_u32(s, at) == 6 {
        six_parse(s, at)
    } else if le_u32(s, at) == 7 {
        seven_parse(s, at)
    } else {
        Err(BinErrorView::BadMagic { pos: at, found: s.subrange(at, at + 4) })
    }
}

impl PhysicsDataView {
    /// Every mesh is well formed.
    pub open spec fn wf(self) -> bool {
        match self {
            PhysicsDataView::CSGK(_) => true,
            PhysicsDataView::CSGPHS(m) => m.wf(),
        }
    }

    /// The value runs to the end of its file.
    pub open spec fn open_ended(self) -> bool {
        self matches PhysicsDataView::CSGPHS(m) && m.open_ended()
    }

    /// The bytes of the file.
    pub open spec fn bytes(self) -> Seq<u8> {
        match self {
            PhysicsDataView::CSGK(c) => c.bytes(),
            PhysicsDataView::CSGPHS(m) => magic_csgphs() + m.bytes(),
        }
    }
}

/// What the file holds from `at` on, and the place where the value ends.
#[verifier::opaque]
pub open spec fn physics_parse(s: Seq<u8>, at: int) -> Result<
    (PhysicsDataView, int),
    BinErrorView,
> {
    if s.len() - at < 4 {
        Err(BinErrorView::UnexpectedEof)
    } else if s.subrange(at, at + 4) == magic_csgk() {
        match CSGK::parse(s, at) {
            Err(e) => Err(e),
            Ok(c) => Ok((PhysicsDataView::CSGK(c), at + 36)),
        }
    } else {
        match magic_at(s, at, magic_csgphs()) {
            Err(e) => Err(e),
            Ok(_) => match csgphs_parse(s, at + 6) {
                Err(e) => Err(e),
                Ok((m, end)) => Ok((PhysicsDataView::CSGPHS(m), end)),
            },
        }
    }
}

/// Reads the value that follows the name `CSGPHS`, which ends at `at`.
pub fn get_csgphs(data: &[u8], at: usize) -> (r: Result<(CSGPHS, usize), BinError>)
    requires
        at <= data.len(),
    ensures
        match r {
            Ok((m, end)) => end <= data.len() && csgphs_parse(data@, at as int) == Ok::<
                (CSGPHSView, int),
                BinErrorView,
            >((m@, end as int)),
            Err(e) => csgphs_parse(data@, at as int) == Err::<(CSGPHSView, int), BinErrorView>(e@),
        },
{
    proof {
        reveal(csgphs_parse);
    }
    let block: [u8; 9] = [0, 0, 0, 0, 0x42, 0x4c, 0x4f, 0x43, 0x4b];
    assert(block@ =~= magic_block());
    let span: usize = if data.len() - at < 9 {
        data.len() - at
    } else {
        9
    };
    let mut begins = true;
    let mut i: usize = 0;
    assert(data@.subrange(at as int, at + 0) =~= magic_block().subrange(0, 0));
    while i < span
        invariant
            i <= span <= 9,
            at + span <= data.len(),
            block@ == magic_block(),
            begins == (data@.subrange(at as int, at + i) == magic_block().subrange(0, i as int)),
        decreases span - i,
    {
        let same = data[at + i] == block[i];
        proof {
            let a = data@.subrange(at as int, at + i);
            let b = magic_block().subrange(0, i as int);
            let a2 = data@.subrange(at as int, at + i + 1);
            let b2 = magic_block().subrange(0, i + 1);
            assert(a =~= a2.subrange(0, i as int));
            assert(b =~= b2.subrange(0, i as int));
            if a == b && same {
                assert(a2 =~= b2);
            }
            if a2 == b2 {
                assert(a2[i as int] == b2[i as int]);
            }
        }
        begins = begins && same;
        i += 1;
    }
    if begins {
        if span == 9 {
            assert(magic_block().subrange(0, 9) =~= magic_block());
            return Ok((CSGPHS::Block, at + 9));
        }
        return Err(BinError::UnexpectedEof);
    }
    if data.len() - at < 4 {
        return Err(BinError::UnexpectedEof);
    }
    let number = get_u32(data, at);
    if number == 3 {
        let meshes = get_meshes(data, at + 4)?;
        Ok((CSGPHS::V3(CSGPHS3 { meshes }), data.len()))
    } else if number == 5 {
        let meshes = get_meshes(data, at + 4)?;
        Ok((CSGPHS::V5(CSGPHS3 { meshes }), data.len()))
    } else if number == 6 {
        check_need(data, at + 4, 40)?;
        let physics_info = PhysicsInfo::get(data, at + 4);
        let (mesh, end) = Mesh::get(data, at + 44)?;
        Ok((CSGPHS::V6(CSGPHS6 { physics_info, mesh }), end))
    } else if number == 7 {
        let three: [u8; 1] = [3];
        assert(three@ =~= magic_seven());
        expect_magic(data, at + 4, three.as_slice())?;
        check_need(data, at + 5, 40)?;
        let physics_info = PhysicsInfo::get(data, at + 5);
        let meshes = get_meshes(data, at + 45)?;
        Ok((CSGPHS::V7(CSGPHS7 { physics_info, meshes }), data.len()))
    } else {
        let found = get_bytes(data, at, 4)?;
        Err(BinError::BadMagic { pos: at as u64, found })
    }
}

/// Reads what a file holds from the position of `read` on, and leaves
/// `read` behind the last byte of the value. On a failure `read` stays
/// where it was.
pub fn read_versioned(read: &mut Cursor) -> (r: Result<PhysicsData, Error>)
    ensures
        final(read).bytes() == old(read).bytes(),
        match r {
            Ok(m) => physics_parse(old(read).bytes(), old(read).start()) == Ok::<
                (PhysicsDataView, int),
                BinErrorView,
            >((m@, final(read).offset())),
            Err(e) => physics_parse(old(read).bytes(), old(read).start()) == Err::<
                (PhysicsDataView, int),
                BinErrorView,
            >(e@) && final(read).offset() == old(read).offset(),
        },
{
    proof {
        reveal(physics_parse);
    }
    let data = read.get_ref();
    let at = read.index();
    if data.len() - at < 4 {
        return Err(BinError::UnexpectedEof);
    }
    let key = data[at] == 0x43 && data[at + 1] == 0x53 && data[at + 2] == 0x47 && data[at + 3]
        == 0x4b;
    proof {
        let w = data@.subrange(at as int, at + 4);
        assert(w[0] == data@[at as int] && w[1] == data@[at + 1] && w[2] == data@[at + 2] && w[3]
            == data@[at + 3]);
        assert(key == (w =~= magic_csgk()));
    }
    if key {
        let c = CSGK::get(data, at)?;
        read.set_position(at + 36);
        Ok(PhysicsData::CSGK(c))
    } else {
        let name: [u8; 6] = [0x43, 0x53, 0x47, 0x50, 0x48, 0x53];
        assert(name@ =~= magic_csgphs());
        expect_magic(data, at, name.as_slice())?;
        let (m, end) = get_csgphs(data, at + 6)?;
        read.set_position(end);
        Ok(PhysicsData::CSGPHS(m))
    }
}

impl PhysicsData {
    /// Appends the file of the value to `out`.
    pub fn write_le(&self, out: &mut Vec<u8>)
        ensures
            final(out)@ == old(out)@ + self@.bytes(),
    {
        match self {
            PhysicsData::CSGK(c) => {
                c.put(out);
            },
            PhysicsData::CSGPHS(m) => {
                let name: [u8; 6] = [0x43, 0x53, 0x47, 0x50, 0x48, 0x53];
                assert(name@ =~= magic_csgphs());
                put_bytes(name.as_slice(), out);
                match m {
                    CSGPHS::Block => {
                        let block: [u8; 9] = [0, 0, 0, 0, 0x42, 0x4c, 0x4f, 0x43, 0x4b];
                        assert(block@ =~= magic_block());
                        put_bytes(block.as_slice(), out);
                    },
                    CSGPHS::V3(v) => {
                        put_u32(3, out);
                        put_meshes(&v.meshes, out);
                    },
                    CSGPHS::V5(v) => {
                        put_u32(5, out);
                        put_meshes(&v.meshes, out);
                    },
                    CSGPHS::V6(v) => {
                        put_u32(6, out);
                        v.physics_info.put(out);
                        v.mesh.put(out);
                    },
                    CSGPHS::V7(v) => {
                        put_u32(7, out);
                        out.push(3);
                        v.physics_info.put(out);
                        put_meshes(&v.meshes, out);
                    },
                }
                assert(out@ =~= old(out)@ + self@.bytes());
            },
        }
    }
}

impl PhysicsDataView {
    /// Where the meshes of an open-ended value start that was read from
    /// `at` on.
    pub open spec fn meshes_start(self, at: int) -> int {
        match self {
            PhysicsDataView::CSGPHS(CSGPHSView::V7 { physics_info, meshes }) => at + 51,
            _ => at + 10,
        }
    }
}

/// No revision number begins like the block constant, and no two revisions
/// share a number.
proof fn lemma_number_is_no_block(s: Seq<u8>, at: int, number: u32)
    requires
        0 <= at,
        at + 4 <= s.len(),
        s.subrange(at, at + 4) == u32_le(number),
        number != 0,
        number < 0x100,
    ensures
        !block_begins(s, at),
        le_u32(s, at) == number,
{
    lemma_u32_le(number);
    lemma_le_u32_window(s, at);
    let n = block_span(s, at);
    assert(s.subrange(at, at + 4)[0] == s[at]);
    assert(s.subrange(at, at + n)[0] == s[at]);
    assert(magic_block().subrange(0, n)[0] == 0);
}

/// What was read is well formed, and its bytes are the bytes it was read
/// from; an open-ended value ends where the input ends.
pub proof fn lemma_physics_read_write(s: Seq<u8>, at: int, m: PhysicsDataView, end: int)
    requires
        0 <= at <= s.len(),
        physics_parse(s, at) == Ok::<(PhysicsDataView, int), BinErrorView>((m, end)),
    ensures
        m.wf(),
        at <= end <= s.len(),
        m.bytes() == s.subrange(at, end),
        m.open_ended() ==> end == s.len(),
{
    reveal(physics_parse);
    reveal(csgphs_parse);
    match m {
        PhysicsDataView::CSGK(c) => {
            c.lemma_csgk(s, at);
        },
        PhysicsDataView::CSGPHS(CSGPHSView::Block) => {
            assert(magic_block().subrange(0, 9) =~= magic_block());
            lemma_join(s, at, at + 6, at + 15);
        },
        PhysicsDataView::CSGPHS(CSGPHSView::V3 { meshes }) => {
            lemma_le_u32(s, at + 6);
            lemma_all_read_write::<MeshView>(s, at + 10, meshes);
            lemma_join(s, at, at + 6, at + 10);
            lemma_join(s, at, at + 10, end);
        },
        PhysicsDataView::CSGPHS(CSGPHSView::V5 { meshes }) => {
            lemma_le_u32(s, at + 6);
            lemma_all_read_write::<MeshView>(s, at + 10, meshes);
            lemma_join(s, at, at + 6, at + 10);
            lemma_join(s, at, at + 10, end);
        },
        PhysicsDataView::CSGPHS(CSGPHSView::V6 { physics_info, mesh }) => {
            lemma_le_u32(s, at + 6);
            PhysicsInfo::lemma_plain(physics_info, s.subrange(at + 10, at + 50));
            MeshView::lemma_read_write(s, at + 50, mesh, end);
            lemma_join(s, at, at + 6, at + 10);
            lemma_join(s, at, at + 10, at + 50);
            lemma_join(s, at, at + 50, end);
        },
        PhysicsDataView::CSGPHS(CSGPHSView::V7 { physics_info, meshes }) => {
            lemma_le_u32(s, at + 6);
            PhysicsInfo::lemma_plain(physics_info, s.subrange(at + 11, at + 51));
            lemma_all_read_write::<MeshView>(s, at + 51, meshes);
            lemma_join(s, at, at + 6, at + 10);
            lemma_join(s, at, at + 10, at + 11);
            lemma_join(s, at, at + 11, at + 51);
            lemma_join(s, at, at + 51, end);
        },
    }
}

/// Every mesh of a list takes some bytes.
proof fn lemma_meshes_not_empty(meshes: Seq<MeshView>)
    ensures
        forall|i: int| 0 <= i < meshes.len() ==> (#[trigger] meshes[i]).bytes().len() > 0,
{
    assert forall|i: int| 0 <= i < meshes.len() implies (#[trigger] meshes[i]).bytes().len()
        > 0 by {
        lemma_mesh_len(meshes[i]);
    }
}

/// A well-formed value is read back from its bytes, wherever they stand;
/// the bytes of an open-ended value must run to the end of the input.
pub proof fn lemma_physics_write_read(m: PhysicsDataView, s: Seq<u8>, at: int)
    requires
        m.wf(),
        0 <= at,
        at + m.bytes().len() <= s.len(),
        s.subrange(at, at + m.bytes().len()) == m.bytes(),
        m.open_ended() ==> at + m.bytes().len() == s.len(),
    ensures
        physics_parse(s, at) == Ok::<(PhysicsDataView, int), BinErrorView>(
            (m, at + m.bytes().len()),
        ),
{
    match m {
        PhysicsDataView::CSGK(c) => {
            c.lemma_csgk(c.bytes() + Seq::new(36, |i: int| 0u8), 0);
            c.lemma_csgk(s, at);
            lemma_split(s, at, magic_csgk(), c.uuid_ascii_hex.bytes());
            reveal(physics_parse);
        },
        PhysicsDataView::CSGPHS(v) => {
            lemma_split(s, at, magic_csgphs(), v.bytes());
            assert(s.subrange(at, at + 4) != magic_csgk()) by {
                assert(s.subrange(at, at + 4)[3] == s.subrange(at, at + 6)[3]);
            }
            lemma_csgphs_write_read(v, s, at + 6);
            reveal(physics_parse);
        },
    }
}

/// A list of well-formed meshes behind the number 3 or 5 is read back.
proof fn lemma_open_write_read(number: u32, meshes: Seq<MeshView>, s: Seq<u8>, at: int)
    requires
        number == 3 || number == 5,
        all_wf(meshes),
        0 <= at,
        at + 4 + frames_bytes(meshes).len() == s.len(),
        s.subrange(at, s.len() as int) == u32_le(number) + frames_bytes(meshes),
    ensures
        !block_begins(s, at),
        le_u32(s, at) == number,
        parse_all::<MeshView>(s, at + 4) == Ok::<Seq<MeshView>, BinErrorView>(meshes),
{
    lemma_u32_le(number);
    lemma_split(s, at, u32_le(number), frames_bytes(meshes));
    lemma_number_is_no_block(s, at, number);
    lemma_meshes_not_empty(meshes);
    lemma_all_write_read::<MeshView>(meshes, s, at + 4);
}

/// What was computed and one well-formed mesh behind the number 6 are read
/// back.
proof fn lemma_six_write_read(physics_info: PhysicsInfo, mesh: MeshView, s: Seq<u8>, at: int)
    requires
        mesh.wf(),
        0 <= at,
        at + 44 + mesh.bytes().len() <= s.len(),
        s.subrange(at, at + 44 + mesh.bytes().len()) == u32_le(6) + physics_info.bytes()
            + mesh.bytes(),
    ensures
        !block_begins(s, at),
        le_u32(s, at) == 6,
        six_parse(s, at) == Ok::<(CSGPHSView, int), BinErrorView>(
            (CSGPHSView::V6 { physics_info, mesh }, at + 44 + mesh.bytes().len()),
        ),
{
    lemma_u32_le(6);
    PhysicsInfo::lemma_plain(physics_info, Seq::empty());
    lemma_split(s, at, u32_le(6) + physics_info.bytes(), mesh.bytes());
    lemma_split(s, at, u32_le(6), physics_info.bytes());
    lemma_number_is_no_block(s, at, 6);
    mesh.lemma_write_read(s, at + 44);
}

/// What was computed and a list of well-formed meshes behind the number 7
/// are read back.
proof fn lemma_seven_write_read(
    physics_info: PhysicsInfo,
    meshes: Seq<MeshView>,
    s: Seq<u8>,
    at: int,
)
    requires
        all_wf(meshes),
        0 <= at,
        at + 45 + frames_bytes(meshes).len() == s.len(),
        s.subrange(at, s.len() as int) == u32_le(7) + magic_seven() + physics_info.bytes()
            + frames_bytes(meshes),
    ensures
        !block_begins(s, at),
        le_u32(s, at) == 7,
        seven_parse(s, at) == Ok::<(CSGPHSView, int), BinErrorView>(
            (CSGPHSView::V7 { physics_info, meshes }, s.len() as int),
        ),
{
    lemma_u32_le(7);
    PhysicsInfo::lemma_plain(physics_info, Seq::empty());
    let c1 = u32_le(7);
    let c2 = c1 + magic_seven();
    let c3 = c2 + physics_info.bytes();
    lemma_split(s, at, c3, frames_bytes(meshes));
    lemma_split(s, at, c2, physics_info.bytes());
    lemma_split(s, at, c1, magic_seven());
    lemma_number_is_no_block(s, at, 7);
    lemma_meshes_not_empty(meshes);
    lemma_all_write_read::<MeshView>(meshes, s, at + 45);
}

/// A well-formed value is read back from the bytes that follow the name
/// `CSGPHS`.
proof fn lemma_csgphs_write_read(v: CSGPHSView, s: Seq<u8>, at: int)
    requires
        v.wf(),
        0 <= at,
        at + v.bytes().len() <= s.len(),
        s.subrange(at, at + v.bytes().len()) == v.bytes(),
        v.open_ended() ==> at + v.bytes().len() == s.len(),
    ensures
        csgphs_parse(s, at) == Ok::<(CSGPHSView, int), BinErrorView>((v, at + v.bytes().len())),
{
    match v {
        CSGPHSView::Block => {
            assert(magic_block().subrange(0, 9) =~= magic_block());
            reveal(csgphs_parse);
        },
        CSGPHSView::V3 { meshes } => {
            lemma_u32_le(3);
            lemma_open_write_read(3, meshes, s, at);
            reveal(csgphs_parse);
        },
        CSGPHSView::V5 { meshes } => {
            lemma_u32_le(5);
            lemma_open_write_read(5, meshes, s, at);
            reveal(csgphs_parse);
        },
        CSGPHSView::V6 { physics_info, mesh } => {
            lemma_u32_le(6);
            PhysicsInfo::lemma_plain(physics_info, Seq::empty());
            lemma_six_write_read(physics_info, mesh, s, at);
            reveal(csgphs_parse);
        },
        CSGPHSView::V7 { physics_info, meshes } => {
            lemma_u32_le(7);
            PhysicsInfo::lemma_plain(physics_info, Seq::empty());
            lemma_seven_write_read(physics_info, meshes, s, at);
            reveal(csgphs_parse);
        },
    }
}

/// An input cut short inside the value that was read ends too early: it is
/// never read as a shorter value. The one cut that leaves a readable input
/// lies between two meshes of an open-ended value, which no count
/// announces, and is left out here.
pub proof fn lemma_physics_cut(s: Seq<u8>, at: int, m: PhysicsDataView, end: int, k: int)
    requires
        0 <= at <= k <= s.len(),
        physics_parse(s, at) == Ok::<(PhysicsDataView, int), BinErrorView>((m, end)),
        k < end,
        m.open_ended() && k >= m.meshes_start(at) ==> !is_boundary::<MeshView>(
            s,
            m.meshes_start(at),
            k,
        ),
    ensures
        physics_parse(s.take(k), at) == Err::<(PhysicsDataView, int), BinErrorView>(
            BinErrorView::UnexpectedEof,
        ),
{
    let t = s.take(k);
    lemma_physics_read_write(s, at, m, end);
    reveal(physics_parse);
    if k >= at + 4 {
        assert(t.subrange(at, at + 4) =~= s.subrange(at, at + 4));
    }
    match m {
        PhysicsDataView::CSGK(c) => {},
        PhysicsDataView::CSGPHS(v) => {
            if k >= at + 6 {
                assert(t.subrange(at, at + 6) =~= s.subrange(at, at + 6));
                lemma_csgphs_cut(s, at + 6, v, end, k);
            }
        },
    }
}

/// An input cut short inside the value that follows the name `CSGPHS` ends
/// too early.
proof fn lemma_csgphs_cut(s: Seq<u8>, at: int, v: CSGPHSView, end: int, k: int)
    requires
        0 <= at <= k <= s.len(),
        csgphs_parse(s, at) == Ok::<(CSGPHSView, int), BinErrorView>((v, end)),
        k < end <= s.len(),
        v.open_ended() && k >= PhysicsDataView::CSGPHS(v).meshes_start(at - 6)
            ==> !is_boundary::<MeshView>(s, PhysicsDataView::CSGPHS(v).meshes_start(at - 6), k),
    ensures
        csgphs_parse(s.take(k), at) == Err::<(CSGPHSView, int), BinErrorView>(
            BinErrorView::UnexpectedEof,
        ),
{
    let t = s.take(k);
    reveal(csgphs_parse);
    let n = block_span(s, at);
    let m = block_span(t, at);
    assert(t.subrange(at, at + m) =~= s.subrange(at, at + n).subrange(0, m));
    assert(magic_block().subrange(0, m) =~= magic_block().subrange(0, n).subrange(0, m));
    match v {
        CSGPHSView::Block => {},
        _ => {
            if k >= at + 4 {
                assert(t.subrange(at, at + m)[0] == s[at]);
                assert(s.subrange(at, at + n)[0] == s[at]);
                assert(!block_begins(t, at)) by {
                    if block_begins(t, at) {
                        let a = t.subrange(at, at + m);
                        let b = magic_block().subrange(0, m);
                        assert(a[0] == s[at] && a[1] == s[at + 1] && a[2] == s[at + 2] && a[3]
                            == s[at + 3]);
                        assert(b[0] == 0 && b[1] == 0 && b[2] == 0 && b[3] == 0);
                    }
                }
                match v {
                    CSGPHSView::V3 { meshes } => {
                        lemma_all_cut::<MeshView>(s, at + 4, meshes, k);
                    },
                    CSGPHSView::V5 { meshes } => {
                        lemma_all_cut::<MeshView>(s, at + 4, meshes, k);
                    },
                    CSGPHSView::V6 { physics_info, mesh } => {
                        if k >= at + 44 {
                            MeshView::lemma_cut(s, at + 44, mesh, end, k);
                        }
                    },
                    CSGPHSView::V7 { physics_info, meshes } => {
                        if k >= at + 5 {
                            assert(t.subrange(at + 4, at + 5) =~= s.subrange(at + 4, at + 5));
                        }
                        if k >= at + 45 {
                            lemma_all_cut::<MeshView>(s, at + 45, meshes, k);
                        }
                    },
                    _ => {},
                }
            }
        },
    }
}

} // verus!
