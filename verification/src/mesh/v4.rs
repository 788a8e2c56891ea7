//! Mesh revisions 4.00 and 4.01: skinned meshes, with envelopes, bones and
//! subsets.

use vstd::prelude::*;
use crate::mesh::{Error, ErrorView};
use crate::mesh::v2::{
    Face2, Vertex2, fix_vertices, lemma_names_revision, magic_version, names_revision,
};
use crate::mesh::v3::Lod3;
use crate::stream::Cursor;
use crate::wire::{
    BinError, BinErrorView, Plain, check_need, expect_magic, get_bytes, get_seq, get_u16, get_u32,
    le_u16, le_u32, lemma_assoc, lemma_join, lemma_le_u16, lemma_le_u32, lemma_le_u32_window,
    lemma_parse_seq_at, lemma_parse_seq_cut, lemma_seq_bytes_len, lemma_seq_bytes_of_parse,
    lemma_split, lemma_u16_le,
    lemma_u32_le, magic_at, need, parse_seq, put_bytes, put_seq, put_u16, put_u32, seq_bytes, then,
    u16_le, u32_le,
};

verus! {

/// The bytes of `4.00`.
pub open spec fn magic_400() -> Seq<u8> {
    seq![0x34u8, 0x2eu8, 0x30u8, 0x30u8]
}

/// The bytes of `4.01`.
pub open spec fn magic_401() -> Seq<u8> {
    seq![0x34u8, 0x2eu8, 0x30u8, 0x31u8]
}

/// A line feed, then the header's own size (24) as a 16-bit number.
pub open spec fn magic_header_size4() -> Seq<u8> {
    seq![0x0au8, 0x18u8, 0x00u8]
}

/// Which of the two revisions of this layout a mesh is.
#[derive(Debug, Clone, Copy, PartialEq, Eq)]
pub enum Revision4 {
    Version400,
    Version401,
}

impl Revision4 {
    /// The four bytes that name the revision.
    pub open spec fn tag(self) -> Seq<u8> {
        match self {
            Revision4::Version400 => magic_400(),
            Revision4::Version401 => magic_401(),
        }
    }

    /// The revision named by the four bytes at `at`.
    pub open spec fn parse(s: Seq<u8>, at: int) -> Result<Revision4, BinErrorView> {
        if s.len() - at < 4 {
            Err(BinErrorView::UnexpectedEof)
        } else if s.subrange(at, at + 4) == magic_400() {
            Ok(Revision4::Version400)
        } else if s.subrange(at, at + 4) == magic_401() {
            Ok(Revision4::Version401)
        } else {
            Err(BinErrorView::BadMagic { pos: at, found: s.subrange(at, at + 4) })
        }
    }

    /// Reads the revision at `at`.
    pub fn get(data: &[u8], at: usize) -> (r: Result<Revision4, BinError>)
        requires
            at <= data.len(),
        ensures
            match r {
                Ok(v) => Self::parse(data@, at as int) == Ok::<Revision4, BinErrorView>(v),
                Err(e) => Self::parse(data@, at as int) == Err::<Revision4, BinErrorView>(e@),
            },
    {
        let found = get_bytes(data, at, 4)?;
        let minor = found[3];
        let stem = found[0] == 0x34 && found[1] == 0x2e && found[2] == 0x30;
        assert((stem && minor == 0x30) == (found@ =~= magic_400()));
        assert((stem && minor == 0x31) == (found@ =~= magic_401()));
        if stem && minor == 0x30 {
            Ok(Revision4::Version400)
        } else if stem && minor == 0x31 {
            Ok(Revision4::Version401)
        } else {
            Err(BinError::BadMagic { pos: at as u64, found })
        }
    }

    /// Appends the four bytes that name the revision.
    pub fn put(&self, out: &mut Vec<u8>)
        ensures
            final(out)@ == old(out)@ + self.tag(),
    {
        out.push(0x34);
        out.push(0x2e);
        out.push(0x30);
        match self {
            Revision4::Version400 => out.push(0x30),
            Revision4::Version401 => out.push(0x31),
        }
        assert(out@ =~= old(out)@ + self.tag());
    }
}

/// How the levels of detail of a mesh were made.
#[derive(Debug, Clone, Copy, PartialEq, Eq)]
pub enum LodType4 {
    /// The mesh has no levels of detail of its own.
    NoLod,
    Unknown,
    RbxSimplifier,
    ZeuxMeshOptimizer,
    /// Seen in files; its meaning is not known.
    Type4,
}

impl LodType4 {
    /// The number that stands for the variant in a header.
    pub open spec fn tag(self) -> u16 {
        match self {
            LodType4::NoLod => 0,
            LodType4::Unknown => 1,
            LodType4::RbxSimplifier => 2,
            LodType4::ZeuxMeshOptimizer => 3,
            LodType4::Type4 => 4,
        }
    }

    /// The variant that the number `tag` stands for.
    pub open spec fn of_tag(tag: u16) -> Option<LodType4> {
        if tag == 0 {
            Some(LodType4::NoLod)
        } else if tag == 1 {
            Some(LodType4::Unknown)
        } else if tag == 2 {
            Some(LodType4::RbxSimplifier)
        } else if tag == 3 {
            Some(LodType4::ZeuxMeshOptimizer)
        } else if tag == 4 {
            Some(LodType4::Type4)
        } else {
            None
        }
    }

    /// The variant named by the 16-bit number at `at`.
    pub open spec fn parse(s: Seq<u8>, at: int) -> Result<LodType4, BinErrorView> {
        if s.len() - at < 2 {
            Err(BinErrorView::UnexpectedEof)
        } else {
            match Self::of_tag(le_u16(s, at)) {
                Some(v) => Ok(v),
                None => Err(BinErrorView::NoVariantMatch { pos: at }),
            }
        }
    }

    /// Reads the variant at `at`.
    pub fn get(data: &[u8], at: usize) -> (r: Result<LodType4, BinError>)
        requires
            at <= data.len(),
        ensures
            match r {
                Ok(v) => Self::parse(data@, at as int) == Ok::<LodType4, BinErrorView>(v),
                Err(e) => Self::parse(data@, at as int) == Err::<LodType4, BinErrorView>(e@),
            },
    {
        if data.len() - at < 2 {
            return Err(BinError::UnexpectedEof);
        }
        let tag = get_u16(data, at);
        if tag == 0 {
            Ok(LodType4::NoLod)
        } else if tag == 1 {
            Ok(LodType4::Unknown)
        } else if tag == 2 {
            Ok(LodType4::RbxSimplifier)
        } else if tag == 3 {
            Ok(LodType4::ZeuxMeshOptimizer)
        } else if tag == 4 {
            Ok(LodType4::Type4)
        } else {
            Err(BinError::NoVariantMatch { pos: at as u64 })
        }
    }

    /// The number of the variant.
    pub fn to_u16(&self) -> (r: u16)
        ensures
            r == self.tag(),
    {
        match self {
            LodType4::NoLod => 0,
            LodType4::Unknown => 1,
            LodType4::RbxSimplifier => 2,
            LodType4::ZeuxMeshOptimizer => 3,
            LodType4::Type4 => 4,
        }
    }
}

/// The header of revisions 4.00 and 4.01. `_padding` is a byte without
/// meaning that is kept for the sake of writing back what was read.
#[derive(Debug, Clone, Copy, PartialEq, Eq)]
pub struct Header4 {
    pub revision: Revision4,
    pub lod_type: LodType4,
    pub vertex_count: u32,
    pub face_count: u32,
    pub lod_count: u16,
    pub bone_count: u16,
    pub bone_names_len: u32,
    pub subset_count: u16,
    pub lod_hq_count: u8,
    pub _padding: u8,
}

impl Header4 {
    /// The 20 bytes of the counts, which follow the kind of the levels of
    /// detail.
    pub open spec fn counts(self) -> Seq<u8> {
        u32_le(self.vertex_count) + u32_le(self.face_count) + u16_le(self.lod_count) + u16_le(
            self.bone_count,
        ) + u32_le(self.bone_names_len) + u16_le(self.subset_count) + seq![
            self.lod_hq_count,
            self._padding,
        ]
    }

    /// The 37 bytes of the header.
    pub open spec fn bytes(self) -> Seq<u8> {
        magic_version() + self.revision.tag() + magic_header_size4() + u16_le(self.lod_type.tag())
            + self.counts()
    }

    /// The header at `at`, its fields read in their order; the failure of
    /// the first field that cannot be read otherwise.
    #[verifier::opaque]
    pub open spec fn parse(s: Seq<u8>, at: int) -> Result<Header4, BinErrorView> {
        then(
            magic_at(s, at, magic_version()),
            match Revision4::parse(s, at + 8) {
                Err(e) => Err(e),
                Ok(revision) => then(
                    magic_at(s, at + 12, magic_header_size4()),
                    match LodType4::parse(s, at + 15) {
                        Err(e) => Err(e),
                        Ok(lod_type) => then(
                            need(s, at + 17, 20),
                            Ok(
                                Header4 {
                                    revision,
                                    lod_type,
                                    vertex_count: le_u32(s, at + 17),
                                    face_count: le_u32(s, at + 21),
                                    lod_count: le_u16(s, at + 25),
                                    bone_count: le_u16(s, at + 27),
                                    bone_names_len: le_u32(s, at + 29),
                                    subset_count: le_u16(s, at + 33),
                                    lod_hq_count: s[at + 35],
                                    _padding: s[at + 36],
                                },
                            ),
                        ),
                    },
                ),
            },
        )
    }

    /// Reads the header at `at`.
    pub fn get(data: &[u8], at: usize) -> (r: Result<Header4, BinError>)
        requires
            at <= data.len(),
        ensures
            match r {
                Ok(h) => at + 37 <= data.len() && Self::parse(data@, at as int) == Ok::<
                    Header4,
                    BinErrorView,
                >(h),
                Err(e) => Self::parse(data@, at as int) == Err::<Header4, BinErrorView>(e@),
            },
    {
        proof {
            reveal(Header4::parse);
        }
        let version: [u8; 8] = [0x76, 0x65, 0x72, 0x73, 0x69, 0x6f, 0x6e, 0x20];
        let header_size: [u8; 3] = [0x0a, 0x18, 0x00];
        assert(version@ =~= magic_version());
        assert(header_size@ =~= magic_header_size4());
        expect_magic(data, at, version.as_slice())?;
        let revision = Revision4::get(data, at + 8)?;
        expect_magic(data, at + 12, header_size.as_slice())?;
        let lod_type = LodType4::get(data, at + 15)?;
        check_need(data, at + 17, 20)?;
        Ok(
            Header4 {
                revision,
                lod_type,
                vertex_count: get_u32(data, at + 17),
                face_count: get_u32(data, at + 21),
                lod_count: get_u16(data, at + 25),
                bone_count: get_u16(data, at + 27),
                bone_names_len: get_u32(data, at + 29),
                subset_count: get_u16(data, at + 33),
                lod_hq_count: data[at + 35],
                _padding: data[at + 36],
            },
        )
    }

    /// Appends the counts.
    pub fn put_counts(&self, out: &mut Vec<u8>)
        ensures
            final(out)@ == old(out)@ + self.counts(),
    {
        put_u32(self.vertex_count, out);
        put_u32(self.face_count, out);
        put_u16(self.lod_count, out);
        put_u16(self.bone_count, out);
        put_u32(self.bone_names_len, out);
        put_u16(self.subset_count, out);
        out.push(self.lod_hq_count);
        out.push(self._padding);
        assert(out@ =~= old(out)@ + self.counts());
    }

    /// Appends the header.
    pub fn put(&self, out: &mut Vec<u8>)
        ensures
            final(out)@ == old(out)@ + self.bytes(),
    {
        let version: [u8; 8] = [0x76, 0x65, 0x72, 0x73, 0x69, 0x6f, 0x6e, 0x20];
        let header_size: [u8; 3] = [0x0a, 0x18, 0x00];
        assert(version@ =~= magic_version());
        assert(header_size@ =~= magic_header_size4());
        put_bytes(version.as_slice(), out);
        self.revision.put(out);
        put_bytes(header_size.as_slice(), out);
        put_u16(self.lod_type.to_u16(), out);
        self.put_counts(out);
        assert(out@ =~= old(out)@ + self.bytes());
    }

    /// The counts are 20 bytes, and they are the counts that those bytes
    /// spell.
    pub proof fn lemma_counts(self, s: Seq<u8>, at: int)
        requires
            0 <= at,
            at + 20 <= s.len(),
        ensures
            self.counts().len() == 20,
            s.subrange(at, at + 20) == self.counts() <==> {
                &&& self.vertex_count == le_u32(s, at)
                &&& self.face_count == le_u32(s, at + 4)
                &&& self.lod_count == le_u16(s, at + 8)
                &&& self.bone_count == le_u16(s, at + 10)
                &&& self.bone_names_len == le_u32(s, at + 12)
                &&& self.subset_count == le_u16(s, at + 16)
                &&& self.lod_hq_count == s[at + 18]
                &&& self._padding == s[at + 19]
            },
    {
        lemma_u32_le(self.vertex_count);
        lemma_u32_le(self.face_count);
        lemma_u16_le(self.lod_count);
        lemma_u16_le(self.bone_count);
        lemma_u32_le(self.bone_names_len);
        lemma_u16_le(self.subset_count);
        let tail = seq![self.lod_hq_count, self._padding];
        let c1 = u32_le(self.vertex_count);
        let c2 = c1 + u32_le(self.face_count);
        let c3 = c2 + u16_le(self.lod_count);
        let c4 = c3 + u16_le(self.bone_count);
        let c5 = c4 + u32_le(self.bone_names_len);
        let c6 = c5 + u16_le(self.subset_count);
        if s.subrange(at, at + 20) == self.counts() {
            lemma_split(s, at, c6, tail);
            lemma_split(s, at, c5, u16_le(self.subset_count));
            lemma_split(s, at, c4, u32_le(self.bone_names_len));
            lemma_split(s, at, c3, u16_le(self.bone_count));
            lemma_split(s, at, c2, u16_le(self.lod_count));
            lemma_split(s, at, c1, u32_le(self.face_count));
            lemma_le_u32_window(s, at);
            lemma_le_u32_window(s, at + 4);
            assert(le_u16(s, at + 8) == le_u16(s.subrange(at + 8, at + 10), 0));
            assert(le_u16(s, at + 10) == le_u16(s.subrange(at + 10, at + 12), 0));
            lemma_le_u32_window(s, at + 12);
            assert(le_u16(s, at + 16) == le_u16(s.subrange(at + 16, at + 18), 0));
            assert(s.subrange(at + 18, at + 20)[0] == s[at + 18]);
            assert(s.subrange(at + 18, at + 20)[1] == s[at + 19]);
        }
        if self.vertex_count == le_u32(s, at) && self.face_count == le_u32(s, at + 4)
            && self.lod_count == le_u16(s, at + 8) && self.bone_count == le_u16(s, at + 10)
            && self.bone_names_len == le_u32(s, at + 12) && self.subset_count == le_u16(
            s,
            at + 16,
        ) && self.lod_hq_count == s[at + 18] && self._padding == s[at + 19] {
            lemma_le_u32(s, at);
            lemma_le_u32(s, at + 4);
            lemma_le_u16(s, at + 8);
            lemma_le_u16(s, at + 10);
            lemma_le_u32(s, at + 12);
            lemma_le_u16(s, at + 16);
            assert(tail =~= s.subrange(at + 18, at + 20));
            lemma_join(s, at, at + 4, at + 8);
            lemma_join(s, at, at + 8, at + 10);
            lemma_join(s, at, at + 10, at + 12);
            lemma_join(s, at, at + 12, at + 16);
            lemma_join(s, at, at + 16, at + 18);
            lemma_join(s, at, at + 18, at + 20);
        }
    }

    /// A header that was read begins with the twelve bytes that name its
    /// revision.
    pub proof fn lemma_revision(s: Seq<u8>, at: int)
        requires
            0 <= at <= s.len(),
            Self::parse(s, at) is Ok,
        ensures
            at + 12 <= s.len(),
            names_revision(
                s.subrange(at, at + 12),
                0x34,
                if Self::parse(s, at)->Ok_0.revision is Version400 {
                    0x30u8
                } else {
                    0x31u8
                },
            ),
    {
        reveal(Header4::parse);
        lemma_names_revision(s, at, Self::parse(s, at)->Ok_0.revision.tag());
    }

    /// A header that was read is the header that its 37 bytes spell.
    pub proof fn lemma_parse_bytes(s: Seq<u8>, at: int, h: Header4)
        requires
            0 <= at <= s.len(),
            Self::parse(s, at) == Ok::<Header4, BinErrorView>(h),
        ensures
            at + 37 <= s.len(),
            h.bytes() == s.subrange(at, at + 37),
    {
        reveal(Header4::parse);
        h.lemma_counts(s, at + 17);
        lemma_le_u16(s, at + 15);
        lemma_join(s, at, at + 8, at + 12);
        lemma_join(s, at, at + 12, at + 15);
        lemma_join(s, at, at + 15, at + 17);
        lemma_join(s, at, at + 17, at + 37);
    }

    /// The bytes of a header are read as that header, wherever they stand.
    pub proof fn lemma_bytes_parse(self, s: Seq<u8>, at: int)
        requires
            0 <= at,
            at + 37 <= s.len(),
            s.subrange(at, at + 37) == self.bytes(),
        ensures
            self.bytes().len() == 37,
            Self::parse(s, at) == Ok::<Header4, BinErrorView>(self),
    {
        reveal(Header4::parse);
        self.lemma_counts(s, at + 17);
        lemma_u16_le(self.lod_type.tag());
        let c1 = magic_version();
        let c2 = c1 + self.revision.tag();
        let c3 = c2 + magic_header_size4();
        let c4 = c3 + u16_le(self.lod_type.tag());
        lemma_split(s, at, c4, self.counts());
        lemma_split(s, at, c3, u16_le(self.lod_type.tag()));
        lemma_split(s, at, c2, magic_header_size4());
        lemma_split(s, at, c1, self.revision.tag());
        assert(magic_400() != magic_401()) by {
            assert(magic_400()[3] != magic_401()[3]);
        }
        assert(le_u16(s, at + 15) == le_u16(s.subrange(at + 15, at + 17), 0));
    }

    /// Cutting the input inside a header that was read leaves an input that
    /// ends too early; cutting it behind the header changes nothing.
    pub proof fn lemma_cut(s: Seq<u8>, at: int, k: int)
        requires
            0 <= at <= k <= s.len(),
            Self::parse(s, at) is Ok,
        ensures
            k < at + 37 ==> Self::parse(s.take(k), at) == Err::<Header4, BinErrorView>(
                BinErrorView::UnexpectedEof,
            ),
            k >= at + 37 ==> Self::parse(s.take(k), at) == Self::parse(s, at),
    {
        reveal(Header4::parse);
        let t = s.take(k);
        if k >= at + 8 {
            assert(t.subrange(at, at + 8) =~= s.subrange(at, at + 8));
        }
        if k >= at + 12 {
            assert(t.subrange(at + 8, at + 12) =~= s.subrange(at + 8, at + 12));
        }
        if k >= at + 15 {
            assert(t.subrange(at + 12, at + 15) =~= s.subrange(at + 12, at + 15));
        }
    }
}

/// The bones that move a vertex, and how much each of them does.
#[derive(Debug, Clone, Copy, PartialEq, Eq)]
pub struct Envelope4 {
    pub bones: [u8; 4],
    pub weights: [u8; 4],
}

impl Plain for Envelope4 {
    open spec fn width() -> nat {
        8
    }

    open spec fn parse(w: Seq<u8>) -> Envelope4 {
        Envelope4 {
            bones: <[u8; 4]>::parse(w.subrange(0, 4)),
            weights: <[u8; 4]>::parse(w.subrange(4, 8)),
        }
    }

    open spec fn bytes(self) -> Seq<u8> {
        self.bones.bytes() + self.weights.bytes()
    }

    proof fn lemma_plain(x: Envelope4, w: Seq<u8>) {
        let b = x.bytes();
        <[u8; 4]>::lemma_plain(x.bones, w.subrange(0, 4));
        <[u8; 4]>::lemma_plain(x.weights, w.subrange(4, 8));
        assert(b.subrange(0, 4) =~= x.bones.bytes());
        assert(b.subrange(4, 8) =~= x.weights.bytes());
        if w.len() == 8 {
            assert(Self::parse(w).bytes() =~= w);
        }
    }

    fn size() -> (n: usize) {
        8
    }

    fn get(data: &[u8], at: usize) -> (r: Envelope4) {
        let ghost w = data@.subrange(at as int, at + 8);
        assert(w.subrange(0, 4) =~= data@.subrange(at as int, at + 4));
        assert(w.subrange(4, 8) =~= data@.subrange(at + 4, at + 8));
        Envelope4 { bones: <[u8; 4]>::get(data, at), weights: <[u8; 4]>::get(data, at + 4) }
    }

    fn put(&self, out: &mut Vec<u8>) {
        self.bones.put(out);
        self.weights.put(out);
        assert(out@ =~= old(out)@ + self.bytes());
    }
}

/// The number of a bone, or none: the file writes `0xFFFF` for none.
#[derive(Debug, Clone, Copy, PartialEq, Eq, Hash)]
pub struct BoneId4(u16);

impl BoneId4 {
    /// The number as the file holds it.
    pub closed spec fn raw(self) -> u16 {
        self.0
    }

    /// The bone that the number names, if any.
    pub open spec fn value(self) -> Option<u16> {
        if self.raw() == 0xFFFF {
            None
        } else {
            Some(self.raw())
        }
    }

    /// The id of the bone `value`; the id of no bone for `None`, and for
    /// `Some(0xFFFF)`, which the file cannot tell from it.
    pub fn new(value: Option<u16>) -> (r: Self)
        ensures
            r.raw() == match value {
                None => 0xFFFFu16,
                Some(other) => other,
            },
    {
        BoneId4(
            match value {
                None => 0xFFFF,
                Some(other) => other,
            },
        )
    }

    /// The bone that the id names, if any.
    pub fn get(&self) -> (r: Option<u16>)
        ensures
            r == self.value(),
    {
        if self.0 == 0xFFFF {
            None
        } else {
            Some(self.0)
        }
    }
}

impl Plain for BoneId4 {
    open spec fn width() -> nat {
        2
    }

    closed spec fn parse(w: Seq<u8>) -> BoneId4 {
        BoneId4(le_u16(w, 0))
    }

    closed spec fn bytes(self) -> Seq<u8> {
        u16_le(self.0)
    }

    proof fn lemma_plain(x: BoneId4, w: Seq<u8>) {
        lemma_u16_le(x.0);
        if w.len() == 2 {
            lemma_le_u16(w, 0);
            assert(w.subrange(0, 2) =~= w);
        }
    }

    fn size() -> (n: usize) {
        2
    }

    fn get(data: &[u8], at: usize) -> (r: BoneId4) {
        BoneId4(get_u16(data, at))
    }

    fn put(&self, out: &mut Vec<u8>) {
        put_u16(self.0, out);
    }
}

/// The bytes of a bone id are the two bytes of its number, and the id that
/// two bytes spell has the number that they spell.
pub proof fn lemma_bone_id(x: BoneId4, w: Seq<u8>)
    ensures
        x.bytes() == u16_le(x.raw()),
        BoneId4::parse(w).raw() == le_u16(w, 0),
{
}

/// A rotation and a position: the nine cells of the rotation row by row,
/// then the position, each kept as its 32-bit pattern.
#[derive(Debug, Clone, Copy, PartialEq, Eq)]
pub struct CFrame4 {
    pub r00: u32,
    pub r01: u32,
    pub r02: u32,
    pub r10: u32,
    pub r11: u32,
    pub r12: u32,
    pub r20: u32,
    pub r21: u32,
    pub r22: u32,
    pub x: u32,
    pub y: u32,
    pub z: u32,
}

/// The frame that 48 bytes spell.
#[verifier::opaque]
pub open spec fn cframe_parse(w: Seq<u8>) -> CFrame4 {
    let a = <[u32; 3]>::parse(w.subrange(0, 12));
    let b = <[u32; 3]>::parse(w.subrange(12, 24));
    let c = <[u32; 3]>::parse(w.subrange(24, 36));
    let d = <[u32; 3]>::parse(w.subrange(36, 48));
    CFrame4 {
        r00: a[0],
        r01: a[1],
        r02: a[2],
        r10: b[0],
        r11: b[1],
        r12: b[2],
        r20: c[0],
        r21: c[1],
        r22: c[2],
        x: d[0],
        y: d[1],
        z: d[2],
    }
}

/// The 48 bytes of a frame.
#[verifier::opaque]
pub open spec fn cframe_bytes(c: CFrame4) -> Seq<u8> {
    [c.r00, c.r01, c.r02].bytes() + [c.r10, c.r11, c.r12].bytes() + [c.r20, c.r21, c.r22].bytes()
        + [c.x, c.y, c.z].bytes()
}

/// The four rows of a frame at their places in its bytes.
proof fn lemma_cframe_rows(x: CFrame4)
    ensures
        cframe_bytes(x).len() == 48,
        cframe_bytes(x).subrange(0, 12) == [x.r00, x.r01, x.r02].bytes(),
        cframe_bytes(x).subrange(12, 24) == [x.r10, x.r11, x.r12].bytes(),
        cframe_bytes(x).subrange(24, 36) == [x.r20, x.r21, x.r22].bytes(),
        cframe_bytes(x).subrange(36, 48) == [x.x, x.y, x.z].bytes(),
{
    reveal(cframe_bytes);
    let r0 = [x.r00, x.r01, x.r02].bytes();
    let r1 = [x.r10, x.r11, x.r12].bytes();
    let r2 = [x.r20, x.r21, x.r22].bytes();
    let p = [x.x, x.y, x.z].bytes();
    assert(r0.len() == 12 && r1.len() == 12 && r2.len() == 12 && p.len() == 12) by {
        <[u32; 3]>::lemma_plain([x.r00, x.r01, x.r02], Seq::empty());
        <[u32; 3]>::lemma_plain([x.r10, x.r11, x.r12], Seq::empty());
        <[u32; 3]>::lemma_plain([x.r20, x.r21, x.r22], Seq::empty());
        <[u32; 3]>::lemma_plain([x.x, x.y, x.z], Seq::empty());
    }
    let b = r0 + r1 + r2 + p;
    assert(b.subrange(0, 12) =~= r0);
    assert(b.subrange(12, 24) =~= r1);
    assert(b.subrange(24, 36) =~= r2);
    assert(b.subrange(36, 48) =~= p);
}

/// A frame is read back from its bytes.
proof fn lemma_cframe_parse_bytes(x: CFrame4)
    ensures
        cframe_bytes(x).len() == 48,
        cframe_parse(cframe_bytes(x)) == x,
{
    lemma_cframe_rows(x);
    reveal(cframe_parse);
    let b = cframe_bytes(x);
    assert(<[u32; 3]>::parse(b.subrange(0, 12)) == [x.r00, x.r01, x.r02]) by {
        <[u32; 3]>::lemma_plain([x.r00, x.r01, x.r02], Seq::empty());
    }
    assert(<[u32; 3]>::parse(b.subrange(12, 24)) == [x.r10, x.r11, x.r12]) by {
        <[u32; 3]>::lemma_plain([x.r10, x.r11, x.r12], Seq::empty());
    }
    assert(<[u32; 3]>::parse(b.subrange(24, 36)) == [x.r20, x.r21, x.r22]) by {
        <[u32; 3]>::lemma_plain([x.r20, x.r21, x.r22], Seq::empty());
    }
    assert(<[u32; 3]>::parse(b.subrange(36, 48)) == [x.x, x.y, x.z]) by {
        <[u32; 3]>::lemma_plain([x.x, x.y, x.z], Seq::empty());
    }
}

/// The frame read from 48 bytes has those bytes.
proof fn lemma_cframe_bytes_parse(w: Seq<u8>)
    requires
        w.len() == 48,
    ensures
        cframe_bytes(cframe_parse(w)) == w,
{
    let y = cframe_parse(w);
    let a = <[u32; 3]>::parse(w.subrange(0, 12));
    let b = <[u32; 3]>::parse(w.subrange(12, 24));
    let c = <[u32; 3]>::parse(w.subrange(24, 36));
    let d = <[u32; 3]>::parse(w.subrange(36, 48));
    assert([y.r00, y.r01, y.r02] == a && [y.r10, y.r11, y.r12] == b && [y.r20, y.r21, y.r22] == c
        && [y.x, y.y, y.z] == d) by {
        reveal(cframe_parse);
        assert([y.r00, y.r01, y.r02] =~= a);
        assert([y.r10, y.r11, y.r12] =~= b);
        assert([y.r20, y.r21, y.r22] =~= c);
        assert([y.x, y.y, y.z] =~= d);
    }
    assert(a.bytes() == w.subrange(0, 12)) by {
        <[u32; 3]>::lemma_plain(a, w.subrange(0, 12));
    }
    assert(b.bytes() == w.subrange(12, 24)) by {
        <[u32; 3]>::lemma_plain(b, w.subrange(12, 24));
    }
    assert(c.bytes() == w.subrange(24, 36)) by {
        <[u32; 3]>::lemma_plain(c, w.subrange(24, 36));
    }
    assert(d.bytes() == w.subrange(36, 48)) by {
        <[u32; 3]>::lemma_plain(d, w.subrange(36, 48));
    }
    assert(cframe_bytes(y) == a.bytes() + b.bytes() + c.bytes() + d.bytes()) by {
        reveal(cframe_bytes);
    }
    assert(w.subrange(0, 12) + w.subrange(12, 24) + w.subrange(24, 36) + w.subrange(36, 48) =~= w);
}

impl Plain for CFrame4 {
    open spec fn width() -> nat {
        48
    }

    open spec fn parse(w: Seq<u8>) -> CFrame4 {
        cframe_parse(w)
    }

    open spec fn bytes(self) -> Seq<u8> {
        cframe_bytes(self)
    }

    proof fn lemma_plain(x: CFrame4, w: Seq<u8>) {
        lemma_cframe_parse_bytes(x);
        if w.len() == 48 {
            lemma_cframe_bytes_parse(w);
        }
    }

    fn size() -> (n: usize) {
        48
    }

    fn get(data: &[u8], at: usize) -> (r: CFrame4) {
        proof {
            reveal(cframe_parse);
        }
        let ghost w = data@.subrange(at as int, at + 48);
        assert(w.subrange(0, 12) =~= data@.subrange(at as int, at + 12));
        assert(w.subrange(12, 24) =~= data@.subrange(at + 12, at + 24));
        assert(w.subrange(24, 36) =~= data@.subrange(at + 24, at + 36));
        assert(w.subrange(36, 48) =~= data@.subrange(at + 36, at + 48));
        let a = <[u32; 3]>::get(data, at);
        let b = <[u32; 3]>::get(data, at + 12);
        let c = <[u32; 3]>::get(data, at + 24);
        let d = <[u32; 3]>::get(data, at + 36);
        CFrame4 {
            r00: a[0],
            r01: a[1],
            r02: a[2],
            r10: b[0],
            r11: b[1],
            r12: b[2],
            r20: c[0],
            r21: c[1],
            r22: c[2],
            x: d[0],
            y: d[1],
            z: d[2],
        }
    }

    fn put(&self, out: &mut Vec<u8>) {
        proof {
            reveal(cframe_bytes);
        }
        let r0 = [self.r00, self.r01, self.r02];
        let r1 = [self.r10, self.r11, self.r12];
        let r2 = [self.r20, self.r21, self.r22];
        let p = [self.x, self.y, self.z];
        r0.put(out);
        r1.put(out);
        r2.put(out);
        p.put(out);
        assert(out@ =~= old(out)@ + self.bytes());
    }
}

/// A bone of the skeleton.
#[derive(Debug, Clone, Copy, PartialEq, Eq)]
pub struct Bone4 {
    /// Where the name of the bone starts in the names of the mesh.
    pub bone_name_pos: u32,
    pub parent: BoneId4,
    pub lod_parent: BoneId4,
    /// Kept as its 32-bit pattern.
    pub cull_distance: u32,
    pub cframe: CFrame4,
}

impl Plain for Bone4 {
    open spec fn width() -> nat {
        60
    }

    open spec fn parse(w: Seq<u8>) -> Bone4 {
        Bone4 {
            bone_name_pos: u32::parse(w.subrange(0, 4)),
            parent: BoneId4::parse(w.subrange(4, 6)),
            lod_parent: BoneId4::parse(w.subrange(6, 8)),
            cull_distance: u32::parse(w.subrange(8, 12)),
            cframe: CFrame4::parse(w.subrange(12, 60)),
        }
    }

    open spec fn bytes(self) -> Seq<u8> {
        self.bone_name_pos.bytes() + self.parent.bytes() + self.lod_parent.bytes()
            + self.cull_distance.bytes() + self.cframe.bytes()
    }

    proof fn lemma_plain(x: Bone4, w: Seq<u8>) {
        let b = x.bytes();
        u32::lemma_plain(x.bone_name_pos, w.subrange(0, 4));
        BoneId4::lemma_plain(x.parent, w.subrange(4, 6));
        BoneId4::lemma_plain(x.lod_parent, w.subrange(6, 8));
        u32::lemma_plain(x.cull_distance, w.subrange(8, 12));
        CFrame4::lemma_plain(x.cframe, w.subrange(12, 60));
        assert(b.subrange(0, 4) =~= x.bone_name_pos.bytes());
        assert(b.subrange(4, 6) =~= x.parent.bytes());
        assert(b.subrange(6, 8) =~= x.lod_parent.bytes());
        assert(b.subrange(8, 12) =~= x.cull_distance.bytes());
        assert(b.subrange(12, 60) =~= x.cframe.bytes());
        if w.len() == 60 {
            assert(Self::parse(w).bytes() =~= w.subrange(0, 4) + w.subrange(4, 6) + w.subrange(
                6,
                8,
            ) + w.subrange(8, 12) + w.subrange(12, 60));
            assert(Self::parse(w).bytes() =~= w);
        }
    }

    fn size() -> (n: usize) {
        60
    }

    fn get(data: &[u8], at: usize) -> (r: Bone4) {
        let ghost w = data@.subrange(at as int, at + 60);
        assert(w.subrange(0, 4) =~= data@.subrange(at as int, at + 4));
        assert(w.subrange(4, 6) =~= data@.subrange(at + 4, at + 6));
        assert(w.subrange(6, 8) =~= data@.subrange(at + 6, at + 8));
        assert(w.subrange(8, 12) =~= data@.subrange(at + 8, at + 12));
        assert(w.subrange(12, 60) =~= data@.subrange(at + 12, at + 60));
        Bone4 {
            bone_name_pos: u32::get(data, at),
            parent: <BoneId4 as Plain>::get(data, at + 4),
            lod_parent: <BoneId4 as Plain>::get(data, at + 6),
            cull_distance: u32::get(data, at + 8),
            cframe: CFrame4::get(data, at + 12),
        }
    }

    fn put(&self, out: &mut Vec<u8>) {
        self.bone_name_pos.put(out);
        self.parent.put(out);
        self.lod_parent.put(out);
        self.cull_distance.put(out);
        self.cframe.put(out);
        assert(out@ =~= old(out)@ + self.bytes());
    }
}

/// The 52 bytes of the bones of a subset.
pub open spec fn bone_ids_bytes(ids: [BoneId4; 26]) -> Seq<u8> {
    Seq::new(52, |k: int| u16_le(ids[k / 2].raw())[k % 2])
}

/// The 26 bone ids that 52 bytes spell.
pub closed spec fn bone_ids_parse(w: Seq<u8>) -> [BoneId4; 26] {
    [
            BoneId4(le_u16(w, 0)),
            BoneId4(le_u16(w, 2)),
            BoneId4(le_u16(w, 4)),
            BoneId4(le_u16(w, 6)),
            BoneId4(le_u16(w, 8)),
            BoneId4(le_u16(w, 10)),
            BoneId4(le_u16(w, 12)),
            BoneId4(le_u16(w, 14)),
            BoneId4(le_u16(w, 16)),
            BoneId4(le_u16(w, 18)),
            BoneId4(le_u16(w, 20)),
            BoneId4(le_u16(w, 22)),
            BoneId4(le_u16(w, 24)),
            BoneId4(le_u16(w, 26)),
            BoneId4(le_u16(w, 28)),
            BoneId4(le_u16(w, 30)),
            BoneId4(le_u16(w, 32)),
            BoneId4(le_u16(w, 34)),
            BoneId4(le_u16(w, 36)),
            BoneId4(le_u16(w, 38)),
            BoneId4(le_u16(w, 40)),
            BoneId4(le_u16(w, 42)),
            BoneId4(le_u16(w, 44)),
            BoneId4(le_u16(w, 46)),
            BoneId4(le_u16(w, 48)),
            BoneId4(le_u16(w, 50)),
    ]
}

/// Each of the 26 ids is the 16-bit number at its place.
pub proof fn lemma_bone_ids_parse(w: Seq<u8>, i: int)
    requires
        0 <= i < 26,
    ensures
        bone_ids_parse(w)[i].raw() == le_u16(w, 2 * i),
{
}

/// Reads 26 bone ids.
pub fn get_bone_ids(data: &[u8], at: usize) -> (r: [BoneId4; 26])
    requires
        at + 52 <= data.len(),
    ensures
        r == bone_ids_parse(data@.subrange(at as int, at + 52)),
{
    let mut r = [BoneId4(0); 26];
    let mut i: usize = 0;
    while i < 26
        invariant
            i <= 26,
            at + 52 <= data.len(),
            forall|j: int| 0 <= j < i ==> r[j].raw() == le_u16(data@, at + 2 * j),
        decreases 26 - i,
    {
        r[i] = BoneId4(get_u16(data, at + 2 * i));
        i += 1;
    }
    proof {
        let w = data@.subrange(at as int, at + 52);
        assert forall|j: int| 0 <= j < 26 implies r[j] == bone_ids_parse(w)[j] by {
            lemma_bone_ids_parse(w, j);
        }
        assert(r =~= bone_ids_parse(w));
    }
    r
}

/// Appends 26 bone ids.
pub fn put_bone_ids(ids: &[BoneId4; 26], out: &mut Vec<u8>)
    ensures
        final(out)@ == old(out)@ + bone_ids_bytes(*ids),
{
    let mut i: usize = 0;
    while i < 26
        invariant
            i <= 26,
            out@ == old(out)@ + bone_ids_bytes(*ids).subrange(0, 2 * i),
        decreases 26 - i,
    {
        let ghost before = out@;
        ids[i].put(out);
        proof {
            lemma_u16_le(ids[i as int].raw());
            assert(out@ =~= old(out)@ + bone_ids_bytes(*ids).subrange(0, 2 * i + 2));
        }
        i += 1;
    }
    assert(bone_ids_bytes(*ids).subrange(0, 52) =~= bone_ids_bytes(*ids));
}

/// Reading and writing 26 bone ids undo each other.
pub proof fn lemma_bone_ids(x: [BoneId4; 26], w: Seq<u8>)
    ensures
        bone_ids_bytes(x).len() == 52,
        bone_ids_parse(bone_ids_bytes(x)) == x,
        w.len() == 52 ==> bone_ids_bytes(bone_ids_parse(w)) == w,
{
    let b = bone_ids_bytes(x);
    assert forall|i: int| 0 <= i < 26 implies bone_ids_parse(b)[i] == x[i] by {
        lemma_bone_ids_parse(b, i);
        lemma_u16_le(x[i].raw());
        assert(b[2 * i] == u16_le(x[i].raw())[0]);
        assert(b[2 * i + 1] == u16_le(x[i].raw())[1]);
    }
    assert(bone_ids_parse(b) =~= x);
    if w.len() == 52 {
        let y = bone_ids_parse(w);
        assert forall|k: int| 0 <= k < 52 implies bone_ids_bytes(y)[k] == w[k] by {
            lemma_bone_ids_parse(w, k / 2);
            lemma_le_u16(w, 2 * (k / 2));
            assert(w.subrange(2 * (k / 2), 2 * (k / 2) + 2)[k % 2] == w[k]);
        }
        assert(bone_ids_bytes(y) =~= w);
    }
}

/// A run of faces and vertices that the same bones move.
#[derive(Debug, Clone, Copy, PartialEq, Eq)]
pub struct Subset4 {
    pub faces_offset: u32,
    pub faces_len: u32,
    pub vertices_offset: u32,
    pub vertices_len: u32,
    pub bone_count: u32,
    pub bones: [BoneId4; 26],
}

impl Plain for Subset4 {
    open spec fn width() -> nat {
        72
    }

    open spec fn parse(w: Seq<u8>) -> Subset4 {
        Subset4 {
            faces_offset: le_u32(w, 0),
            faces_len: le_u32(w, 4),
            vertices_offset: le_u32(w, 8),
            vertices_len: le_u32(w, 12),
            bone_count: le_u32(w, 16),
            bones: bone_ids_parse(w.subrange(20, 72)),
        }
    }

    open spec fn bytes(self) -> Seq<u8> {
        u32_le(self.faces_offset) + u32_le(self.faces_len) + u32_le(self.vertices_offset) + u32_le(
            self.vertices_len,
        ) + u32_le(self.bone_count) + bone_ids_bytes(self.bones)
    }

    proof fn lemma_plain(x: Subset4, w: Seq<u8>) {
        let b = x.bytes();
        lemma_u32_le(x.faces_offset);
        lemma_u32_le(x.faces_len);
        lemma_u32_le(x.vertices_offset);
        lemma_u32_le(x.vertices_len);
        lemma_u32_le(x.bone_count);
        lemma_bone_ids(x.bones, w.subrange(20, 72));
        assert(b.subrange(20, 72) =~= bone_ids_bytes(x.bones));
        if w.len() == 72 {
            lemma_le_u32(w, 0);
            lemma_le_u32(w, 4);
            lemma_le_u32(w, 8);
            lemma_le_u32(w, 12);
            lemma_le_u32(w, 16);
            assert(Self::parse(w).bytes() =~= w.subrange(0, 4) + w.subrange(4, 8) + w.subrange(
                8,
                12,
            ) + w.subrange(12, 16) + w.subrange(16, 20) + w.subrange(20, 72));
            assert(Self::parse(w).bytes() =~= w);
        }
    }

    fn size() -> (n: usize) {
        72
    }

    fn get(data: &[u8], at: usize) -> (r: Subset4) {
        let ghost w = data@.subrange(at as int, at + 72);
        assert(w.subrange(20, 72) =~= data@.subrange(at + 20, at + 72));
        Subset4 {
            faces_offset: get_u32(data, at),
            faces_len: get_u32(data, at + 4),
            vertices_offset: get_u32(data, at + 8),
            vertices_len: get_u32(data, at + 12),
            bone_count: get_u32(data, at + 16),
            bones: get_bone_ids(data, at + 20),
        }
    }

    fn put(&self, out: &mut Vec<u8>) {
        put_u32(self.faces_offset, out);
        put_u32(self.faces_len, out);
        put_u32(self.vertices_offset, out);
        put_u32(self.vertices_len, out);
        put_u32(self.bone_count, out);
        put_bone_ids(&self.bones, out);
        assert(out@ =~= old(out)@ + self.bytes());
    }
}

/// The counts that size the lists of a skinned mesh.
#[derive(Debug, Clone, Copy, PartialEq, Eq)]
pub struct Counts4 {
    pub vertex_count: u32,
    pub face_count: u32,
    pub lod_count: u16,
    pub bone_count: u16,
    pub bone_names_len: u32,
    pub subset_count: u16,
}

impl Counts4 {
    /// How many envelopes follow the vertices: one for each vertex where
    /// the mesh has bones, none otherwise.
    pub open spec fn envelope_count(self) -> nat {
        if self.bone_count == 0 {
            0
        } else {
            self.vertex_count as nat
        }
    }
}

/// The lists of a skinned mesh, in the order of the file.
pub struct Body4 {
    pub vertices: Vec<Vertex2>,
    pub envelopes: Vec<Envelope4>,
    pub faces: Vec<Face2>,
    pub lods: Vec<Lod3>,
    pub bones: Vec<Bone4>,
    pub bone_names: Vec<u8>,
    pub subsets: Vec<Subset4>,
}

/// The mathematical value of a [`Body4`].
pub struct Body4View {
    pub vertices: Seq<Vertex2>,
    pub envelopes: Seq<Envelope4>,
    pub faces: Seq<Face2>,
    pub lods: Seq<Lod3>,
    pub bones: Seq<Bone4>,
    pub bone_names: Seq<u8>,
    pub subsets: Seq<Subset4>,
}

impl View for Body4 {
    type V = Body4View;

    open spec fn view(&self) -> Body4View {
        Body4View {
            vertices: self.vertices@,
            envelopes: self.envelopes@,
            faces: self.faces@,
            lods: self.lods@,
            bones: self.bones@,
            bone_names: self.bone_names@,
            subsets: self.subsets@,
        }
    }
}

impl Body4View {
    /// Every count is the length of the list it governs.
    pub open spec fn wf(self, c: Counts4) -> bool {
        &&& self.vertices.len() == c.vertex_count
        &&& self.envelopes.len() == c.envelope_count()
        &&& self.faces.len() == c.face_count
        &&& self.lods.len() == c.lod_count
        &&& self.bones.len() == c.bone_count
        &&& self.bone_names.len() == c.bone_names_len
        &&& self.subsets.len() == c.subset_count
    }

    /// The bytes of the lists, one after the other.
    pub open spec fn bytes(self) -> Seq<u8> {
        seq_bytes(self.vertices) + seq_bytes(self.envelopes) + seq_bytes(self.faces) + seq_bytes(
            self.lods,
        ) + seq_bytes(self.bones) + self.bone_names + seq_bytes(self.subsets)
    }

    /// The lists with the tangent fixup applied to each vertex.
    pub open spec fn fixed(self) -> Body4View {
        Body4View { vertices: self.vertices.map_values(|v: Vertex2| v.fixed()), ..self }
    }

    /// The lists that start at `at`, sized by `c`, and the place where they
    /// end; the input ends too early where it does not hold them all.
    #[verifier::opaque]
    pub open spec fn parse(s: Seq<u8>, at: int, c: Counts4) -> Result<
        (Body4View, int),
        BinErrorView,
    > {
        let a1 = at + c.vertex_count * 40;
        let a2 = a1 + c.envelope_count() * 8;
        let a3 = a2 + c.face_count * 12;
        let a4 = a3 + c.lod_count * 4;
        let a5 = a4 + c.bone_count * 60;
        let a6 = a5 + c.bone_names_len;
        let end = a6 + c.subset_count * 72;
        if end > s.len() {
            Err(BinErrorView::UnexpectedEof)
        } else {
            Ok(
                (
                    Body4View {
                        vertices: parse_seq(s, at, c.vertex_count as nat),
                        envelopes: parse_seq(s, a1, c.envelope_count()),
                        faces: parse_seq(s, a2, c.face_count as nat),
                        lods: parse_seq(s, a3, c.lod_count as nat),
                        bones: parse_seq(s, a4, c.bone_count as nat),
                        bone_names: s.subrange(a5, a6),
                        subsets: parse_seq(s, a6, c.subset_count as nat),
                    },
                    end,
                ),
            )
        }
    }

    /// What was read is well formed, and writing it gives back exactly the
    /// bytes it was read from.
    pub proof fn lemma_read_write(s: Seq<u8>, at: int, c: Counts4, m: Body4View, end: int)
        requires
            0 <= at <= s.len(),
            Self::parse(s, at, c) == Ok::<(Body4View, int), BinErrorView>((m, end)),
        ensures
            m.wf(c),
            at <= end <= s.len(),
            m.bytes() == s.subrange(at, end),
    {
        reveal(Body4View::parse);
        let a1 = at + c.vertex_count * 40;
        let a2 = a1 + c.envelope_count() * 8;
        let a3 = a2 + c.face_count * 12;
        let a4 = a3 + c.lod_count * 4;
        let a5 = a4 + c.bone_count * 60;
        let a6 = a5 + c.bone_names_len;
        lemma_seq_bytes_of_parse::<Vertex2>(s, at, c.vertex_count as nat);
        lemma_seq_bytes_of_parse::<Envelope4>(s, a1, c.envelope_count());
        lemma_seq_bytes_of_parse::<Face2>(s, a2, c.face_count as nat);
        lemma_seq_bytes_of_parse::<Lod3>(s, a3, c.lod_count as nat);
        lemma_seq_bytes_of_parse::<Bone4>(s, a4, c.bone_count as nat);
        lemma_seq_bytes_of_parse::<Subset4>(s, a6, c.subset_count as nat);
        lemma_join(s, at, a1, a2);
        lemma_join(s, at, a2, a3);
        lemma_join(s, at, a3, a4);
        lemma_join(s, at, a4, a5);
        lemma_join(s, at, a5, a6);
        lemma_join(s, at, a6, end);
    }

    /// Well-formed lists are read back from their bytes, wherever they
    /// stand.
    pub proof fn lemma_write_read(self, s: Seq<u8>, at: int, c: Counts4)
        requires
            self.wf(c),
            0 <= at,
            at + self.bytes().len() <= s.len(),
            s.subrange(at, at + self.bytes().len()) == self.bytes(),
        ensures
            Self::parse(s, at, c) == Ok::<(Body4View, int), BinErrorView>(
                (self, at + self.bytes().len()),
            ),
    {
        reveal(Body4View::parse);
        let vb = seq_bytes(self.vertices);
        let eb = seq_bytes(self.envelopes);
        let fb = seq_bytes(self.faces);
        let lb = seq_bytes(self.lods);
        let bb = seq_bytes(self.bones);
        let nb = self.bone_names;
        let sb = seq_bytes(self.subsets);
        lemma_seq_bytes_len(self.vertices);
        lemma_seq_bytes_len(self.envelopes);
        lemma_seq_bytes_len(self.faces);
        lemma_seq_bytes_len(self.lods);
        lemma_seq_bytes_len(self.bones);
        lemma_seq_bytes_len(self.subsets);
        lemma_split(s, at, vb + eb + fb + lb + bb + nb, sb);
        lemma_split(s, at, vb + eb + fb + lb + bb, nb);
        lemma_split(s, at, vb + eb + fb + lb, bb);
        lemma_split(s, at, vb + eb + fb, lb);
        lemma_split(s, at, vb + eb, fb);
        lemma_split(s, at, vb, eb);
        let a1 = at + vb.len();
        let a2 = a1 + eb.len();
        let a3 = a2 + fb.len();
        let a4 = a3 + lb.len();
        let a5 = a4 + bb.len();
        let a6 = a5 + nb.len();
        lemma_parse_seq_at::<Vertex2>(s, at, self.vertices);
        lemma_parse_seq_at::<Envelope4>(s, a1, self.envelopes);
        lemma_parse_seq_at::<Face2>(s, a2, self.faces);
        lemma_parse_seq_at::<Lod3>(s, a3, self.lods);
        lemma_parse_seq_at::<Bone4>(s, a4, self.bones);
        lemma_parse_seq_at::<Subset4>(s, a6, self.subsets);
    }

    /// Lists that lie before a cut are read the same from the cut input;
    /// lists that the cut runs through are not read at all.
    pub proof fn lemma_cut(s: Seq<u8>, at: int, c: Counts4, m: Body4View, end: int, k: int)
        requires
            0 <= at <= k <= s.len(),
            at <= s.len(),
            Self::parse(s, at, c) == Ok::<(Body4View, int), BinErrorView>((m, end)),
        ensures
            k < end ==> Self::parse(s.take(k), at, c) == Err::<(Body4View, int), BinErrorView>(
                BinErrorView::UnexpectedEof,
            ),
            k >= end ==> Self::parse(s.take(k), at, c) == Self::parse(s, at, c),
    {
        reveal(Body4View::parse);
        if k >= end {
            let a1 = at + c.vertex_count * 40;
            let a2 = a1 + c.envelope_count() * 8;
            let a3 = a2 + c.face_count * 12;
            let a4 = a3 + c.lod_count * 4;
            let a5 = a4 + c.bone_count * 60;
            let a6 = a5 + c.bone_names_len;
            lemma_parse_seq_cut::<Vertex2>(s, at, c.vertex_count as nat, k);
            lemma_parse_seq_cut::<Envelope4>(s, a1, c.envelope_count(), k);
            lemma_parse_seq_cut::<Face2>(s, a2, c.face_count as nat, k);
            lemma_parse_seq_cut::<Lod3>(s, a3, c.lod_count as nat, k);
            lemma_parse_seq_cut::<Bone4>(s, a4, c.bone_count as nat, k);
            lemma_parse_seq_cut::<Subset4>(s, a6, c.subset_count as nat, k);
            assert(s.take(k).subrange(a5, a6) =~= s.subrange(a5, a6));
        }
    }
}

impl Body4 {
    /// Reads the lists at `at`; gives them with the place where they end.
    pub fn get(data: &[u8], at: usize, c: Counts4) -> (r: Result<(Body4, usize), BinError>)
        requires
            at <= data.len(),
        ensures
            match r {
                Ok((m, end)) => end <= data.len() && Body4View::parse(data@, at as int, c) == Ok::<
                    (Body4View, int),
                    BinErrorView,
                >((m@, end as int)),
                Err(e) => e == BinError::UnexpectedEof && Body4View::parse(data@, at as int, c)
                    == Err::<(Body4View, int), BinErrorView>(BinErrorView::UnexpectedEof),
            },
    {
        proof {
            reveal(Body4View::parse);
        }
        let nv = c.vertex_count as usize;
        let ne = if c.bone_count == 0 {
            0
        } else {
            nv
        };
        let vertices = get_seq::<Vertex2>(data, at, nv)?;
        let a1 = at + nv * 40;
        let envelopes = get_seq::<Envelope4>(data, a1, ne)?;
        let a2 = a1 + ne * 8;
        let faces = get_seq::<Face2>(data, a2, c.face_count as usize)?;
        let a3 = a2 + c.face_count as usize * 12;
        let lods = get_seq::<Lod3>(data, a3, c.lod_count as usize)?;
        let a4 = a3 + c.lod_count as usize * 4;
        let bones = get_seq::<Bone4>(data, a4, c.bone_count as usize)?;
        let a5 = a4 + c.bone_count as usize * 60;
        let bone_names = get_bytes(data, a5, c.bone_names_len as usize)?;
        let a6 = a5 + c.bone_names_len as usize;
        let subsets = get_seq::<Subset4>(data, a6, c.subset_count as usize)?;
        let end = a6 + c.subset_count as usize * 72;
        Ok((Body4 { vertices, envelopes, faces, lods, bones, bone_names, subsets }, end))
    }
}

/// Appends the lists of a skinned mesh, in the order of the file.
pub fn put_body4(
    vertices: &Vec<Vertex2>,
    envelopes: &Vec<Envelope4>,
    faces: &Vec<Face2>,
    lods: &Vec<Lod3>,
    bones: &Vec<Bone4>,
    bone_names: &Vec<u8>,
    subsets: &Vec<Subset4>,
    out: &mut Vec<u8>,
)
    ensures
        final(out)@ == old(out)@ + (Body4View {
            vertices: vertices@,
            envelopes: envelopes@,
            faces: faces@,
            lods: lods@,
            bones: bones@,
            bone_names: bone_names@,
            subsets: subsets@,
        }).bytes(),
{
    let ghost b0 = out@;
    let ghost vb = seq_bytes(vertices@);
    let ghost eb = seq_bytes(envelopes@);
    let ghost fb = seq_bytes(faces@);
    let ghost lb = seq_bytes(lods@);
    let ghost bb = seq_bytes(bones@);
    let ghost nb = bone_names@;
    let ghost sb = seq_bytes(subsets@);
    put_seq(vertices, out);
    put_seq(envelopes, out);
    proof {
        lemma_assoc(b0, vb, eb);
    }
    put_seq(faces, out);
    proof {
        lemma_assoc(b0, vb + eb, fb);
    }
    put_seq(lods, out);
    proof {
        lemma_assoc(b0, vb + eb + fb, lb);
    }
    put_seq(bones, out);
    proof {
        lemma_assoc(b0, vb + eb + fb + lb, bb);
    }
    put_bytes(bone_names.as_slice(), out);
    proof {
        lemma_assoc(b0, vb + eb + fb + lb + bb, nb);
    }
    put_seq(subsets, out);
    proof {
        lemma_assoc(b0, vb + eb + fb + lb + bb + nb, sb);
    }
}

/// A mesh of revision 4.00 or 4.01. `envelopes` is as long as `vertices`
/// where `header.bone_count` is not 0, and empty otherwise.
#[derive(Debug, Clone, PartialEq, Eq)]
pub struct Mesh4 {
    pub header: Header4,
    pub vertices: Vec<Vertex2>,
    pub envelopes: Vec<Envelope4>,
    pub faces: Vec<Face2>,
    pub lods: Vec<Lod3>,
    pub bones: Vec<Bone4>,
    pub bone_names: Vec<u8>,
    pub subsets: Vec<Subset4>,
}

/// The mathematical value of a [`Mesh4`].
pub struct Mesh4View {
    pub header: Header4,
    pub body: Body4View,
}

impl View for Mesh4 {
    type V = Mesh4View;

    open spec fn view(&self) -> Mesh4View {
        Mesh4View {
            header: self.header,
            body: Body4View {
                vertices: self.vertices@,
                envelopes: self.envelopes@,
                faces: self.faces@,
                lods: self.lods@,
                bones: self.bones@,
                bone_names: self.bone_names@,
                subsets: self.subsets@,
            },
        }
    }
}

impl Header4 {
    /// The counts of the header.
    pub open spec fn sizes(self) -> Counts4 {
        Counts4 {
            vertex_count: self.vertex_count,
            face_count: self.face_count,
            lod_count: self.lod_count,
            bone_count: self.bone_count,
            bone_names_len: self.bone_names_len,
            subset_count: self.subset_count,
        }
    }

    /// The counts of the header.
    pub fn counts4(&self) -> (r: Counts4)
        ensures
            r == self.sizes(),
    {
        Counts4 {
            vertex_count: self.vertex_count,
            face_count: self.face_count,
            lod_count: self.lod_count,
            bone_count: self.bone_count,
            bone_names_len: self.bone_names_len,
            subset_count: self.subset_count,
        }
    }
}

impl Mesh4View {
    /// Every count of the header is the length of the list it governs.
    pub open spec fn wf(self) -> bool {
        self.body.wf(self.header.sizes())
    }

    /// The bytes of the mesh: the header, then the lists.
    pub open spec fn bytes(self) -> Seq<u8> {
        self.header.bytes() + self.body.bytes()
    }

    /// The mesh after the tangent fixup of each vertex.
    pub open spec fn fixed(self) -> Mesh4View {
        Mesh4View { header: self.header, body: self.body.fixed() }
    }

    /// What reading a mesh as the file holds it gives at `at`: the mesh and
    /// the place where it ends, or the failure of the layout.
    pub open spec fn read_raw(s: Seq<u8>, at: int) -> Result<(Mesh4View, int), ErrorView> {
        match Self::parse(s, at) {
            Ok(r) => Ok(r),
            Err(e) => Err(ErrorView::BinRead(e)),
        }
    }

    /// What reading a mesh gives at `at` once the tangent fixup is applied.
    pub open spec fn read_fixed(s: Seq<u8>, at: int) -> Result<(Mesh4View, int), ErrorView> {
        match Self::parse(s, at) {
            Ok((m, end)) => Ok((m.fixed(), end)),
            Err(e) => Err(ErrorView::BinRead(e)),
        }
    }

    /// The mesh that starts at `at` and the place where it ends; the
    /// failure of the first field that cannot be read otherwise.
    pub open spec fn parse(s: Seq<u8>, at: int) -> Result<(Mesh4View, int), BinErrorView> {
        match Header4::parse(s, at) {
            Err(e) => Err(e),
            Ok(header) => match Body4View::parse(s, at + 37, header.sizes()) {
                Err(e) => Err(e),
                Ok((body, end)) => Ok((Mesh4View { header, body }, end)),
            },
        }
    }

    /// What was read is well formed, and writing it gives back exactly the
    /// bytes it was read from.
    pub proof fn lemma_read_write(s: Seq<u8>, at: int, m: Mesh4View, end: int)
        requires
            0 <= at <= s.len(),
            Self::parse(s, at) == Ok::<(Mesh4View, int), BinErrorView>((m, end)),
        ensures
            m.wf(),
            at <= end <= s.len(),
            m.bytes() == s.subrange(at, end),
    {
        Header4::lemma_parse_bytes(s, at, m.header);
        Body4View::lemma_read_write(s, at + 37, m.header.sizes(), m.body, end);
        lemma_join(s, at, at + 37, end);
    }

    /// A well-formed mesh is read back from its bytes, wherever they stand.
    pub proof fn lemma_write_read(self, s: Seq<u8>, at: int)
        requires
            self.wf(),
            0 <= at,
            at + self.bytes().len() <= s.len(),
            s.subrange(at, at + self.bytes().len()) == self.bytes(),
        ensures
            Self::parse(s, at) == Ok::<(Mesh4View, int), BinErrorView>(
                (self, at + self.bytes().len()),
            ),
    {
        let hb = self.header.bytes();
        assert(hb.len() == 37) by {
            self.header.lemma_counts(hb, 17);
            lemma_u16_le(self.header.lod_type.tag());
        }
        lemma_split(s, at, hb, self.body.bytes());
        self.header.lemma_bytes_parse(s, at);
        self.body.lemma_write_read(s, at + 37, self.header.sizes());
    }

    /// An input cut short inside a mesh that was read ends too early: it is
    /// never read as a shorter mesh.
    pub proof fn lemma_cut(s: Seq<u8>, at: int, m: Mesh4View, end: int, k: int)
        requires
            0 <= at <= k <= s.len(),
            Self::parse(s, at) == Ok::<(Mesh4View, int), BinErrorView>((m, end)),
            k < end,
        ensures
            Self::parse(s.take(k), at) == Err::<(Mesh4View, int), BinErrorView>(
                BinErrorView::UnexpectedEof,
            ),
    {
        Header4::lemma_parse_bytes(s, at, m.header);
        Header4::lemma_cut(s, at, k);
        if k >= at + 37 {
            Body4View::lemma_cut(s, at + 37, m.header.sizes(), m.body, end, k);
        }
    }
}

impl Mesh4 {
    /// Reads the mesh at `at`; gives it with the place where it ends.
    pub fn get(data: &[u8], at: usize) -> (r: Result<(Mesh4, usize), BinError>)
        requires
            at <= data.len(),
        ensures
            match r {
                Ok((m, end)) => Mesh4View::parse(data@, at as int) == Ok::<
                    (Mesh4View, int),
                    BinErrorView,
                >((m@, end as int)),
                Err(e) => Mesh4View::parse(data@, at as int) == Err::<
                    (Mesh4View, int),
                    BinErrorView,
                >(e@),
            },
    {
        let header = Header4::get(data, at)?;
        let (body, end) = Body4::get(data, at + 37, header.counts4())?;
        Ok(
            (
                Mesh4 {
                    header,
                    vertices: body.vertices,
                    envelopes: body.envelopes,
                    faces: body.faces,
                    lods: body.lods,
                    bones: body.bones,
                    bone_names: body.bone_names,
                    subsets: body.subsets,
                },
                end,
            ),
        )
    }

    /// Appends the bytes of the mesh to `out`.
    pub fn write_le(&self, out: &mut Vec<u8>)
        ensures
            final(out)@ == old(out)@ + self@.bytes(),
    {
        let ghost b0 = out@;
        self.header.put(out);
        put_body4(
            &self.vertices,
            &self.envelopes,
            &self.faces,
            &self.lods,
            &self.bones,
            &self.bone_names,
            &self.subsets,
            out,
        );
        proof {
            lemma_assoc(b0, self@.header.bytes(), self@.body.bytes());
        }
    }
}

/// Replaces the sentinel tangent of every vertex by the default tangent.
pub fn fix4(mesh: &mut Mesh4)
    ensures
        final(mesh)@ == old(mesh)@.fixed(),
{
    fix_vertices(&mut mesh.vertices);
}

/// Reads a mesh of revision 4.00 or 4.01 as the file holds it, from the
/// position of `read` on, and leaves `read` behind its last byte. On a
/// failure `read` stays where it was.
pub fn read4(read: &mut Cursor) -> (r: Result<Mesh4, Error>)
    ensures
        final(read).bytes() == old(read).bytes(),
        match r {
            Ok(m) => Mesh4View::read_raw(old(read).bytes(), old(read).start()) == Ok::<
                (Mesh4View, int),
                ErrorView,
            >((m@, final(read).offset())),
            Err(e) => Mesh4View::read_raw(old(read).bytes(), old(read).start()) == Err::<
                (Mesh4View, int),
                ErrorView,
            >(e@) && final(read).offset() == old(read).offset(),
        },
{
    match Mesh4::get(read.get_ref(), read.index()) {
        Ok((m, end)) => {
            read.set_position(end);
            Ok(m)
        },
        Err(e) => Err(Error::BinRead(e)),
    }
}

/// Reads a mesh of revision 4.00 or 4.01 and applies the tangent fixup.
pub fn read_400(read: &mut Cursor) -> (r: Result<Mesh4, Error>)
    ensures
        final(read).bytes() == old(read).bytes(),
        match r {
            Ok(m) => Mesh4View::read_fixed(old(read).bytes(), old(read).start()) == Ok::<
                (Mesh4View, int),
                ErrorView,
            >((m@, final(read).offset())),
            Err(e) => Mesh4View::read_fixed(old(read).bytes(), old(read).start()) == Err::<
                (Mesh4View, int),
                ErrorView,
            >(e@) && final(read).offset() == old(read).offset(),
        },
{
    let mut mesh = read4(read)?;
    fix4(&mut mesh);
    Ok(mesh)
}

} // verus!
