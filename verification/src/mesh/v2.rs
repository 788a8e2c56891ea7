//! Mesh revision 2.00: a fixed header, then vertices of one of two widths,
//! then faces.

use vstd::prelude::*;
use crate::mesh::{Error, ErrorView};
use crate::stream::Cursor;
use crate::wire::{
    BinError, BinErrorView, Plain, expect_magic, get_seq, get_u32, put_bytes, put_seq, put_u32,
    check_need, le_u32, lemma_join, lemma_le_u32, lemma_le_u32_window, lemma_parse_seq_at,
    lemma_seq_bytes_len, lemma_seq_bytes_of_parse, lemma_split, lemma_u32_le, magic_at, need,
    parse_seq, seq_bytes, then, u32_le,
};

verus! {

/// The tangent that stands in for the "not computed" tangent of a file.
pub const DEFAULT_VERTEX_TANGENT: [i8; 4] = [0, 0, -128, 127];

/// The tangent that a file holds where none was computed.
pub open spec fn sentinel_tangent() -> Seq<i8> {
    seq![-128i8, -128i8, -128i8, -128i8]
}

/// The bytes of `version `, which open every binary mesh.
pub open spec fn magic_version() -> Seq<u8> {
    seq![0x76u8, 0x65u8, 0x72u8, 0x73u8, 0x69u8, 0x6fu8, 0x6eu8, 0x20u8]
}

/// The twelve bytes `p` spell `version `, then the digit `major`, a dot, a
/// zero and the digit `minor`.
pub open spec fn names_revision(p: Seq<u8>, major: u8, minor: u8) -> bool {
    &&& p.len() == 12
    &&& p[0] == 0x76
    &&& p[1] == 0x65
    &&& p[2] == 0x72
    &&& p[3] == 0x73
    &&& p[4] == 0x69
    &&& p[5] == 0x6f
    &&& p[6] == 0x6e
    &&& p[7] == 0x20
    &&& p[8] == major
    &&& p[9] == 0x2e
    &&& p[10] == 0x30
    &&& p[11] == minor
}

/// Where `version ` and the four bytes of a revision stand at `at`, the
/// twelve bytes at `at` name that revision.
pub proof fn lemma_names_revision(s: Seq<u8>, at: int, revision: Seq<u8>)
    requires
        0 <= at,
        at + 12 <= s.len(),
        s.subrange(at, at + 8) == magic_version(),
        s.subrange(at + 8, at + 12) == revision,
        revision.len() == 4,
        revision[1] == 0x2e,
        revision[2] == 0x30,
    ensures
        names_revision(s.subrange(at, at + 12), revision[0], revision[3]),
{
    let p = s.subrange(at, at + 12);
    let a = s.subrange(at, at + 8);
    let b = s.subrange(at + 8, at + 12);
    assert(p[0] == a[0] && p[1] == a[1] && p[2] == a[2] && p[3] == a[3] && p[4] == a[4] && p[5]
        == a[5] && p[6] == a[6] && p[7] == a[7]);
    assert(p[8] == b[0] && p[9] == b[1] && p[10] == b[2] && p[11] == b[3]);
}

/// The bytes of `2.00`.
pub open spec fn magic_200() -> Seq<u8> {
    seq![0x32u8, 0x2eu8, 0x30u8, 0x30u8]
}

/// A line feed, then the header's own size (12) as a 16-bit number.
pub open spec fn magic_header_size2() -> Seq<u8> {
    seq![0x0au8, 0x0cu8, 0x00u8]
}

/// The size of a face (12) as one byte.
pub open spec fn magic_face_size() -> Seq<u8> {
    seq![0x0cu8]
}

/// The one revision of this layout.
#[derive(Debug, Clone, Copy, PartialEq, Eq)]
pub enum Revision2 {
    Version200,
}

/// Which of the two vertex widths a file holds.
#[derive(Debug, Clone, Copy, PartialEq, Eq)]
pub enum SizeOfVertex2 {
    /// 36 bytes: no color.
    Truncated,
    /// 40 bytes.
    Full,
}

impl SizeOfVertex2 {
    /// The byte that stands for the width in a header.
    pub open spec fn tag(self) -> u8 {
        match self {
            SizeOfVertex2::Truncated => 36,
            SizeOfVertex2::Full => 40,
        }
    }

    /// The width named by the byte at `at`: the first of the two whose tag
    /// stands there.
    pub open spec fn parse(s: Seq<u8>, at: int) -> Result<SizeOfVertex2, BinErrorView> {
        if s.len() - at < 1 {
            Err(BinErrorView::UnexpectedEof)
        } else if s[at] == 36 {
            Ok(SizeOfVertex2::Truncated)
        } else if s[at] == 40 {
            Ok(SizeOfVertex2::Full)
        } else {
            Err(BinErrorView::BadMagic { pos: at, found: s.subrange(at, at + 1) })
        }
    }

    /// Reads the width byte at `at`.
    pub fn get(data: &[u8], at: usize) -> (r: Result<SizeOfVertex2, BinError>)
        requires
            at <= data.len(),
        ensures
            match r {
                Ok(v) => Self::parse(data@, at as int) == Ok::<SizeOfVertex2, BinErrorView>(v),
                Err(e) => Self::parse(data@, at as int) == Err::<SizeOfVertex2, BinErrorView>(e@),
            },
    {
        if data.len() - at < 1 {
            Err(BinError::UnexpectedEof)
        } else if data[at] == 36 {
            Ok(SizeOfVertex2::Truncated)
        } else if data[at] == 40 {
            Ok(SizeOfVertex2::Full)
        } else {
            let mut found: Vec<u8> = Vec::new();
            found.push(data[at]);
            assert(found@ =~= data@.subrange(at as int, at + 1));
            Err(BinError::BadMagic { pos: at as u64, found })
        }
    }

    /// The tag byte.
    pub fn to_byte(&self) -> (r: u8)
        ensures
            r == self.tag(),
    {
        match self {
            SizeOfVertex2::Truncated => 36,
            SizeOfVertex2::Full => 40,
        }
    }
}

/// The header of revision 2.00: the width of the vertices and the two counts.
#[derive(Debug, Clone, Copy, PartialEq, Eq)]
pub struct Header2 {
    pub revision: Revision2,
    pub sizeof_vertex: SizeOfVertex2,
    pub vertex_count: u32,
    pub face_count: u32,
}

impl Header2 {
    /// The 25 bytes of the header.
    pub open spec fn bytes(self) -> Seq<u8> {
        magic_version() + magic_200() + magic_header_size2() + seq![self.sizeof_vertex.tag()]
            + magic_face_size() + u32_le(self.vertex_count) + u32_le(self.face_count)
    }

    /// The header at `at`, its fields read in their order; the failure of
    /// the first field that cannot be read otherwise.
    #[verifier::opaque]
    pub open spec fn parse(s: Seq<u8>, at: int) -> Result<Header2, BinErrorView> {
        then(
            magic_at(s, at, magic_version()),
            then(
                magic_at(s, at + 8, magic_200()),
                then(
                    magic_at(s, at + 12, magic_header_size2()),
                    match SizeOfVertex2::parse(s, at + 15) {
                        Err(e) => Err(e),
                        Ok(sizeof_vertex) => then(
                            magic_at(s, at + 16, magic_face_size()),
                            then(
                                need(s, at + 17, 8),
                                Ok(
                                    Header2 {
                                        revision: Revision2::Version200,
                                        sizeof_vertex,
                                        vertex_count: le_u32(s, at + 17),
                                        face_count: le_u32(s, at + 21),
                                    },
                                ),
                            ),
                        ),
                    },
                ),
            ),
        )
    }

    /// How many full vertices follow the header.
    pub open spec fn full_count(self) -> nat {
        match self.sizeof_vertex {
            SizeOfVertex2::Full => self.vertex_count as nat,
            SizeOfVertex2::Truncated => 0,
        }
    }

    /// How many truncated vertices follow the header.
    pub open spec fn truncated_count(self) -> nat {
        match self.sizeof_vertex {
            SizeOfVertex2::Full => 0,
            SizeOfVertex2::Truncated => self.vertex_count as nat,
        }
    }

    /// Reads the header at `at`.
    pub fn get(data: &[u8], at: usize) -> (r: Result<Header2, BinError>)
        requires
            at <= data.len(),
        ensures
            match r {
                Ok(h) => at + 25 <= data.len() && Self::parse(data@, at as int) == Ok::<
                    Header2,
                    BinErrorView,
                >(h),
                Err(e) => Self::parse(data@, at as int) == Err::<Header2, BinErrorView>(e@),
            },
    {
        proof {
            reveal(Header2::parse);
        }
        let version: [u8; 8] = [0x76, 0x65, 0x72, 0x73, 0x69, 0x6f, 0x6e, 0x20];
        let revision: [u8; 4] = [0x32, 0x2e, 0x30, 0x30];
        let header_size: [u8; 3] = [0x0a, 0x0c, 0x00];
        let face_size: [u8; 1] = [0x0c];
        assert(version@ =~= magic_version());
        assert(revision@ =~= magic_200());
        assert(header_size@ =~= magic_header_size2());
        assert(face_size@ =~= magic_face_size());
        expect_magic(data, at, version.as_slice())?;
        expect_magic(data, at + 8, revision.as_slice())?;
        expect_magic(data, at + 12, header_size.as_slice())?;
        let sizeof_vertex = SizeOfVertex2::get(data, at + 15)?;
        expect_magic(data, at + 16, face_size.as_slice())?;
        check_need(data, at + 17, 8)?;
        Ok(
            Header2 {
                revision: Revision2::Version200,
                sizeof_vertex,
                vertex_count: get_u32(data, at + 17),
                face_count: get_u32(data, at + 21),
            },
        )
    }

    /// Appends the header.
    pub fn put(&self, out: &mut Vec<u8>)
        ensures
            final(out)@ == old(out)@ + self.bytes(),
    {
        let version: [u8; 8] = [0x76, 0x65, 0x72, 0x73, 0x69, 0x6f, 0x6e, 0x20];
        let revision: [u8; 4] = [0x32, 0x2e, 0x30, 0x30];
        let header_size: [u8; 3] = [0x0a, 0x0c, 0x00];
        assert(version@ =~= magic_version());
        assert(revision@ =~= magic_200());
        assert(header_size@ =~= magic_header_size2());
        put_bytes(version.as_slice(), out);
        put_bytes(revision.as_slice(), out);
        put_bytes(header_size.as_slice(), out);
        out.push(self.sizeof_vertex.to_byte());
        out.push(0x0c);
        put_u32(self.vertex_count, out);
        put_u32(self.face_count, out);
        assert(out@ =~= old(out)@ + self.bytes());
    }

    /// A header that was read begins with the twelve bytes that name its
    /// revision.
    pub proof fn lemma_revision(s: Seq<u8>, at: int)
        requires
            0 <= at <= s.len(),
            Self::parse(s, at) is Ok,
        ensures
            at + 12 <= s.len(),
            names_revision(s.subrange(at, at + 12), 0x32, 0x30),
    {
        reveal(Header2::parse);
        lemma_names_revision(s, at, magic_200());
    }

    /// A header that was read is the header that its 25 bytes spell.
    pub proof fn lemma_parse_bytes(s: Seq<u8>, at: int, h: Header2)
        requires
            0 <= at <= s.len(),
            Self::parse(s, at) == Ok::<Header2, BinErrorView>(h),
        ensures
            at + 25 <= s.len(),
            h.bytes() == s.subrange(at, at + 25),
    {
        reveal(Header2::parse);
        lemma_le_u32(s, at + 17);
        lemma_le_u32(s, at + 21);
        assert(seq![h.sizeof_vertex.tag()] =~= s.subrange(at + 15, at + 16));
        lemma_join(s, at, at + 8, at + 12);
        lemma_join(s, at, at + 12, at + 15);
        lemma_join(s, at, at + 15, at + 16);
        lemma_join(s, at, at + 16, at + 17);
        lemma_join(s, at, at + 17, at + 21);
        lemma_join(s, at, at + 21, at + 25);
    }

    /// The bytes of a header are read as that header, wherever they stand.
    pub proof fn lemma_bytes_parse(self, s: Seq<u8>, at: int)
        requires
            0 <= at,
            at + 25 <= s.len(),
            s.subrange(at, at + 25) == self.bytes(),
        ensures
            self.bytes().len() == 25,
            Self::parse(s, at) == Ok::<Header2, BinErrorView>(self),
    {
        reveal(Header2::parse);
        lemma_u32_le(self.vertex_count);
        lemma_u32_le(self.face_count);
        let c1 = magic_version();
        let c2 = c1 + magic_200();
        let c3 = c2 + magic_header_size2();
        let c4 = c3 + seq![self.sizeof_vertex.tag()];
        let c5 = c4 + magic_face_size();
        let c6 = c5 + u32_le(self.vertex_count);
        lemma_split(s, at, c6, u32_le(self.face_count));
        lemma_split(s, at, c5, u32_le(self.vertex_count));
        lemma_split(s, at, c4, magic_face_size());
        lemma_split(s, at, c3, seq![self.sizeof_vertex.tag()]);
        lemma_split(s, at, c2, magic_header_size2());
        lemma_split(s, at, c1, magic_200());
        assert(s.subrange(at + 15, at + 16)[0] == s[at + 15]);
        lemma_le_u32_window(s, at + 17);
        lemma_le_u32_window(s, at + 21);
    }

    /// Cutting the input inside a header that was read leaves an input that
    /// ends too early; cutting it behind the header changes nothing.
    pub proof fn lemma_cut(s: Seq<u8>, at: int, k: int)
        requires
            0 <= at <= k <= s.len(),
            Self::parse(s, at) is Ok,
        ensures
            k < at + 25 ==> Self::parse(s.take(k), at) == Err::<Header2, BinErrorView>(
                BinErrorView::UnexpectedEof,
            ),
            k >= at + 25 ==> Self::parse(s.take(k), at) == Self::parse(s, at),
    {
        reveal(Header2::parse);
        let t = s.take(k);
        if k >= at + 8 {
            assert(t.subrange(at, at + 8) =~= s.subrange(at, at + 8));
        }
        if k >= at + 12 {
            assert(t.subrange(at + 8, at + 12) =~= s.subrange(at + 8, at + 12));
        }
        if k >= at + 15 {
            assert(t.subrange(at + 12, at + 15) =~= s.subrange(at + 12, at + 15));
        }
        if k >= at + 17 {
            assert(t.subrange(at + 16, at + 17) =~= s.subrange(at + 16, at + 17));
        }
    }
}

/// A vertex of 40 bytes. Every floating-point field is kept as its 32-bit
/// pattern.
#[derive(Debug, Clone, Copy, PartialEq, Eq)]
pub struct Vertex2 {
    pub pos: [u32; 3],
    pub norm: [u32; 3],
    pub tex: [u32; 2],
    /// Tangent vector and bi-normal direction.
    pub tangent: [i8; 4],
    pub color: [u8; 4],
}

/// A vertex of 36 bytes: a [`Vertex2`] without its color.
#[derive(Debug, Clone, Copy, PartialEq, Eq)]
pub struct Vertex2Truncated {
    pub pos: [u32; 3],
    pub norm: [u32; 3],
    pub tex: [u32; 2],
    /// Tangent vector and bi-normal direction.
    pub tangent: [i8; 4],
}

/// The tangent after the fixup: the default where the file held the
/// sentinel, the tangent of the file otherwise.
pub open spec fn fixed_tangent(t: [i8; 4]) -> [i8; 4] {
    if t@ == sentinel_tangent() {
        DEFAULT_VERTEX_TANGENT
    } else {
        t
    }
}

/// Computes [`fixed_tangent`].
pub fn fix_tangent(t: [i8; 4]) -> (r: [i8; 4])
    ensures
        r == fixed_tangent(t),
{
    let hit = t[0] == -128 && t[1] == -128 && t[2] == -128 && t[3] == -128;
    assert(hit == (t@ =~= sentinel_tangent()));
    if hit {
        DEFAULT_VERTEX_TANGENT
    } else {
        t
    }
}

impl Vertex2 {
    /// The vertex after the tangent fixup.
    pub open spec fn fixed(self) -> Vertex2 {
        Vertex2 { tangent: fixed_tangent(self.tangent), ..self }
    }

    /// The vertex without its color.
    pub open spec fn truncated(self) -> Vertex2Truncated {
        Vertex2Truncated { pos: self.pos, norm: self.norm, tex: self.tex, tangent: self.tangent }
    }

    /// Strips the color.
    pub fn truncate(&self) -> (r: Vertex2Truncated)
        ensures
            r == self.truncated(),
    {
        Vertex2Truncated { pos: self.pos, norm: self.norm, tex: self.tex, tangent: self.tangent }
    }
}

impl Vertex2Truncated {
    /// The vertex after the tangent fixup.
    pub open spec fn fixed(self) -> Vertex2Truncated {
        Vertex2Truncated { tangent: fixed_tangent(self.tangent), ..self }
    }

    /// The full vertex with the color `color`.
    pub open spec fn filled(self, color: [u8; 4]) -> Vertex2 {
        Vertex2 { pos: self.pos, norm: self.norm, tex: self.tex, tangent: self.tangent, color }
    }

    /// Widens the vertex with a color of the caller's choice.
    pub fn fill_color(&self, color: [u8; 4]) -> (r: Vertex2)
        ensures
            r == self.filled(color),
    {
        Vertex2 { pos: self.pos, norm: self.norm, tex: self.tex, tangent: self.tangent, color }
    }
}

/// Stripping the color of a vertex and filling one in again changes nothing
/// but the color; and filling a color into a truncated vertex and stripping
/// it again changes nothing at all.
pub proof fn lemma_truncate_fill(v: Vertex2, t: Vertex2Truncated, color: [u8; 4])
    ensures
        v.truncated().filled(color).pos == v.pos,
        v.truncated().filled(color).norm == v.norm,
        v.truncated().filled(color).tex == v.tex,
        v.truncated().filled(color).tangent == v.tangent,
        v.truncated().filled(color).color == color,
        v.truncated().filled(v.color) == v,
        t.filled(color).truncated() == t,
{
}

impl Plain for Vertex2 {
    open spec fn width() -> nat {
        40
    }

    open spec fn parse(w: Seq<u8>) -> Vertex2 {
        Vertex2 {
            pos: <[u32; 3]>::parse(w.subrange(0, 12)),
            norm: <[u32; 3]>::parse(w.subrange(12, 24)),
            tex: <[u32; 2]>::parse(w.subrange(24, 32)),
            tangent: <[i8; 4]>::parse(w.subrange(32, 36)),
            color: <[u8; 4]>::parse(w.subrange(36, 40)),
        }
    }

    open spec fn bytes(self) -> Seq<u8> {
        self.pos.bytes() + self.norm.bytes() + self.tex.bytes() + self.tangent.bytes()
            + self.color.bytes()
    }

    proof fn lemma_plain(x: Vertex2, w: Seq<u8>) {
        let b = x.bytes();
        let p = x.pos.bytes();
        let n = x.norm.bytes();
        let t = x.tex.bytes();
        let g = x.tangent.bytes();
        let c = x.color.bytes();
        assert(p.len() == 12 && <[u32; 3]>::parse(p) == x.pos) by {
            <[u32; 3]>::lemma_plain(x.pos, Seq::empty());
        }
        assert(n.len() == 12 && <[u32; 3]>::parse(n) == x.norm) by {
            <[u32; 3]>::lemma_plain(x.norm, Seq::empty());
        }
        assert(t.len() == 8 && <[u32; 2]>::parse(t) == x.tex) by {
            <[u32; 2]>::lemma_plain(x.tex, Seq::empty());
        }
        assert(g.len() == 4 && <[i8; 4]>::parse(g) == x.tangent) by {
            <[i8; 4]>::lemma_plain(x.tangent, Seq::empty());
        }
        assert(c.len() == 4 && <[u8; 4]>::parse(c) == x.color) by {
            <[u8; 4]>::lemma_plain(x.color, Seq::empty());
        }
        assert(b == p + n + t + g + c);
        assert(b.subrange(0, 12) =~= p);
        assert(b.subrange(12, 24) =~= n);
        assert(b.subrange(24, 32) =~= t);
        assert(b.subrange(32, 36) =~= g);
        assert(b.subrange(36, 40) =~= c);
        if w.len() == 40 {
            let y = Self::parse(w);
            assert(y.pos.bytes() == w.subrange(0, 12)) by {
                <[u32; 3]>::lemma_plain(y.pos, w.subrange(0, 12));
            }
            assert(y.norm.bytes() == w.subrange(12, 24)) by {
                <[u32; 3]>::lemma_plain(y.norm, w.subrange(12, 24));
            }
            assert(y.tex.bytes() == w.subrange(24, 32)) by {
                <[u32; 2]>::lemma_plain(y.tex, w.subrange(24, 32));
            }
            assert(y.tangent.bytes() == w.subrange(32, 36)) by {
                <[i8; 4]>::lemma_plain(y.tangent, w.subrange(32, 36));
            }
            assert(y.color.bytes() == w.subrange(36, 40)) by {
                <[u8; 4]>::lemma_plain(y.color, w.subrange(36, 40));
            }
            assert(w.subrange(0, 12) + w.subrange(12, 24) + w.subrange(24, 32) + w.subrange(32, 36)
                + w.subrange(36, 40) =~= w);
        }
    }

    fn size() -> (n: usize) {
        40
    }

    fn get(data: &[u8], at: usize) -> (r: Vertex2) {
        let ghost w = data@.subrange(at as int, at + 40);
        assert(w.subrange(0, 12) =~= data@.subrange(at as int, at + 12));
        assert(w.subrange(12, 24) =~= data@.subrange(at + 12, at + 24));
        assert(w.subrange(24, 32) =~= data@.subrange(at + 24, at + 32));
        assert(w.subrange(32, 36) =~= data@.subrange(at + 32, at + 36));
        assert(w.subrange(36, 40) =~= data@.subrange(at + 36, at + 40));
        Vertex2 {
            pos: <[u32; 3]>::get(data, at),
            norm: <[u32; 3]>::get(data, at + 12),
            tex: <[u32; 2]>::get(data, at + 24),
            tangent: <[i8; 4]>::get(data, at + 32),
            color: <[u8; 4]>::get(data, at + 36),
        }
    }

    fn put(&self, out: &mut Vec<u8>) {
        self.pos.put(out);
        self.norm.put(out);
        self.tex.put(out);
        self.tangent.put(out);
        self.color.put(out);
        assert(out@ =~= old(out)@ + self.bytes());
    }
}

impl Plain for Vertex2Truncated {
    open spec fn width() -> nat {
        36
    }

    open spec fn parse(w: Seq<u8>) -> Vertex2Truncated {
        Vertex2Truncated {
            pos: <[u32; 3]>::parse(w.subrange(0, 12)),
            norm: <[u32; 3]>::parse(w.subrange(12, 24)),
            tex: <[u32; 2]>::parse(w.subrange(24, 32)),
            tangent: <[i8; 4]>::parse(w.subrange(32, 36)),
        }
    }

    open spec fn bytes(self) -> Seq<u8> {
        self.pos.bytes() + self.norm.bytes() + self.tex.bytes() + self.tangent.bytes()
    }

    proof fn lemma_plain(x: Vertex2Truncated, w: Seq<u8>) {
        let b = x.bytes();
        let p = x.pos.bytes();
        let n = x.norm.bytes();
        let t = x.tex.bytes();
        let g = x.tangent.bytes();
        assert(p.len() == 12 && <[u32; 3]>::parse(p) == x.pos) by {
            <[u32; 3]>::lemma_plain(x.pos, Seq::empty());
        }
        assert(n.len() == 12 && <[u32; 3]>::parse(n) == x.norm) by {
            <[u32; 3]>::lemma_plain(x.norm, Seq::empty());
        }
        assert(t.len() == 8 && <[u32; 2]>::parse(t) == x.tex) by {
            <[u32; 2]>::lemma_plain(x.tex, Seq::empty());
        }
        assert(g.len() == 4 && <[i8; 4]>::parse(g) == x.tangent) by {
            <[i8; 4]>::lemma_plain(x.tangent, Seq::empty());
        }
        assert(b == p + n + t + g);
        assert(b.subrange(0, 12) =~= p);
        assert(b.subrange(12, 24) =~= n);
        assert(b.subrange(24, 32) =~= t);
        assert(b.subrange(32, 36) =~= g);
        if w.len() == 36 {
            let y = Self::parse(w);
            assert(y.pos.bytes() == w.subrange(0, 12)) by {
                <[u32; 3]>::lemma_plain(y.pos, w.subrange(0, 12));
            }
            assert(y.norm.bytes() == w.subrange(12, 24)) by {
                <[u32; 3]>::lemma_plain(y.norm, w.subrange(12, 24));
            }
            assert(y.tex.bytes() == w.subrange(24, 32)) by {
                <[u32; 2]>::lemma_plain(y.tex, w.subrange(24, 32));
            }
            assert(y.tangent.bytes() == w.subrange(32, 36)) by {
                <[i8; 4]>::lemma_plain(y.tangent, w.subrange(32, 36));
            }
            assert(w.subrange(0, 12) + w.subrange(12, 24) + w.subrange(24, 32) + w.subrange(32, 36)
                =~= w);
        }
    }

    fn size() -> (n: usize) {
        36
    }

    fn get(data: &[u8], at: usize) -> (r: Vertex2Truncated) {
        let ghost w = data@.subrange(at as int, at + 36);
        assert(w.subrange(0, 12) =~= data@.subrange(at as int, at + 12));
        assert(w.subrange(12, 24) =~= data@.subrange(at + 12, at + 24));
        assert(w.subrange(24, 32) =~= data@.subrange(at + 24, at + 32));
        assert(w.subrange(32, 36) =~= data@.subrange(at + 32, at + 36));
        Vertex2Truncated {
            pos: <[u32; 3]>::get(data, at),
            norm: <[u32; 3]>::get(data, at + 12),
            tex: <[u32; 2]>::get(data, at + 24),
            tangent: <[i8; 4]>::get(data, at + 32),
        }
    }

    fn put(&self, out: &mut Vec<u8>) {
        self.pos.put(out);
        self.norm.put(out);
        self.tex.put(out);
        self.tangent.put(out);
        assert(out@ =~= old(out)@ + self.bytes());
    }
}

/// The index of a vertex in the vertex list of its mesh.
#[derive(Debug, Clone, Copy, PartialEq, Eq, Hash)]
pub struct VertexId2(pub u32);

/// A triangle: three vertices of the mesh.
#[derive(Debug, Clone, Copy, PartialEq, Eq)]
pub struct Face2(pub VertexId2, pub VertexId2, pub VertexId2);

impl Plain for Face2 {
    open spec fn width() -> nat {
        12
    }

    open spec fn parse(w: Seq<u8>) -> Face2 {
        Face2(VertexId2(le_u32(w, 0)), VertexId2(le_u32(w, 4)), VertexId2(le_u32(w, 8)))
    }

    open spec fn bytes(self) -> Seq<u8> {
        u32_le(self.0.0) + u32_le(self.1.0) + u32_le(self.2.0)
    }

    proof fn lemma_plain(x: Face2, w: Seq<u8>) {
        lemma_u32_le(x.0.0);
        lemma_u32_le(x.1.0);
        lemma_u32_le(x.2.0);
        if w.len() == 12 {
            lemma_le_u32(w, 0);
            lemma_le_u32(w, 4);
            lemma_le_u32(w, 8);
            assert(Self::parse(w).bytes() =~= w);
        }
    }

    fn size() -> (n: usize) {
        12
    }

    fn get(data: &[u8], at: usize) -> (r: Face2) {
        Face2(
            VertexId2(get_u32(data, at)),
            VertexId2(get_u32(data, at + 4)),
            VertexId2(get_u32(data, at + 8)),
        )
    }

    fn put(&self, out: &mut Vec<u8>) {
        put_u32(self.0.0, out);
        put_u32(self.1.0, out);
        put_u32(self.2.0, out);
        assert(out@ =~= old(out)@ + self.bytes());
    }
}

/// A mesh of revision 2.00. Only one of `vertices` and `vertices_truncated`
/// is populated, as `header.sizeof_vertex` says.
#[derive(Debug, Clone, PartialEq, Eq)]
pub struct Mesh2 {
    pub header: Header2,
    pub vertices: Vec<Vertex2>,
    pub vertices_truncated: Vec<Vertex2Truncated>,
    pub faces: Vec<Face2>,
}

/// The mathematical value of a [`Mesh2`].
pub struct Mesh2View {
    pub header: Header2,
    pub vertices: Seq<Vertex2>,
    pub vertices_truncated: Seq<Vertex2Truncated>,
    pub faces: Seq<Face2>,
}

impl View for Mesh2 {
    type V = Mesh2View;

    open spec fn view(&self) -> Mesh2View {
        Mesh2View {
            header: self.header,
            vertices: self.vertices@,
            vertices_truncated: self.vertices_truncated@,
            faces: self.faces@,
        }
    }
}

impl Mesh2View {
    /// Every count of the header is the length of the list it governs.
    pub open spec fn wf(self) -> bool {
        &&& self.vertices.len() == self.header.full_count()
        &&& self.vertices_truncated.len() == self.header.truncated_count()
        &&& self.faces.len() == self.header.face_count
    }

    /// The bytes of the mesh: header, vertices, faces.
    pub open spec fn bytes(self) -> Seq<u8> {
        self.header.bytes() + seq_bytes(self.vertices) + seq_bytes(self.vertices_truncated)
            + seq_bytes(self.faces)
    }

    /// The mesh after the tangent fixup of each vertex.
    pub open spec fn fixed(self) -> Mesh2View {
        Mesh2View {
            header: self.header,
            vertices: self.vertices.map_values(|v: Vertex2| v.fixed()),
            vertices_truncated: self.vertices_truncated.map_values(|v: Vertex2Truncated| v.fixed()),
            faces: self.faces,
        }
    }

    /// What reading a mesh as the file holds it gives at `at`: the mesh and
    /// the place where it ends, or the failure of the layout.
    pub open spec fn read_raw(s: Seq<u8>, at: int) -> Result<(Mesh2View, int), ErrorView> {
        match Self::parse(s, at) {
            Ok(r) => Ok(r),
            Err(e) => Err(ErrorView::BinRead(e)),
        }
    }

    /// What reading a mesh gives at `at` once the tangent fixup is applied.
    pub open spec fn read_fixed(s: Seq<u8>, at: int) -> Result<(Mesh2View, int), ErrorView> {
        match Self::parse(s, at) {
            Ok((m, end)) => Ok((m.fixed(), end)),
            Err(e) => Err(ErrorView::BinRead(e)),
        }
    }

    /// The mesh that starts at `at` and the place where it ends; the
    /// failure of the first field that cannot be read otherwise.
    pub open spec fn parse(s: Seq<u8>, at: int) -> Result<(Mesh2View, int), BinErrorView> {
        match Header2::parse(s, at) {
            Err(e) => Err(e),
            Ok(header) => {
                let a1 = at + 25;
                let a2 = a1 + header.full_count() * 40;
                let a3 = a2 + header.truncated_count() * 36;
                let end = a3 + header.face_count * 12;
                if end > s.len() {
                    Err(BinErrorView::UnexpectedEof)
                } else {
                    Ok(
                        (
                            Mesh2View {
                                header,
                                vertices: parse_seq(s, a1, header.full_count()),
                                vertices_truncated: parse_seq(s, a2, header.truncated_count()),
                                faces: parse_seq(s, a3, header.face_count as nat),
                            },
                            end,
                        ),
                    )
                }
            },
        }
    }

    /// What was read is well formed, and writing it gives back exactly the
    /// bytes it was read from.
    pub proof fn lemma_read_write(s: Seq<u8>, at: int, m: Mesh2View, end: int)
        requires
            0 <= at <= s.len(),
            Self::parse(s, at) == Ok::<(Mesh2View, int), BinErrorView>((m, end)),
        ensures
            m.wf(),
            at <= end <= s.len(),
            m.bytes() == s.subrange(at, end),
    {
        let h = m.header;
        Header2::lemma_parse_bytes(s, at, h);
        let a1 = at + 25;
        let a2 = a1 + h.full_count() * 40;
        let a3 = a2 + h.truncated_count() * 36;
        lemma_seq_bytes_of_parse::<Vertex2>(s, a1, h.full_count());
        lemma_seq_bytes_of_parse::<Vertex2Truncated>(s, a2, h.truncated_count());
        lemma_seq_bytes_of_parse::<Face2>(s, a3, h.face_count as nat);
        lemma_join(s, at, a1, a2);
        lemma_join(s, at, a2, a3);
        lemma_join(s, at, a3, end);
    }

    /// A well-formed mesh is read back from its bytes, wherever they stand.
    pub proof fn lemma_write_read(self, s: Seq<u8>, at: int)
        requires
            self.wf(),
            0 <= at,
            at + self.bytes().len() <= s.len(),
            s.subrange(at, at + self.bytes().len()) == self.bytes(),
        ensures
            Self::parse(s, at) == Ok::<(Mesh2View, int), BinErrorView>(
                (self, at + self.bytes().len()),
            ),
    {
        let h = self.header;
        let hb = h.bytes();
        let vb = seq_bytes(self.vertices);
        let tb = seq_bytes(self.vertices_truncated);
        let fb = seq_bytes(self.faces);
        lemma_u32_le(h.vertex_count);
        lemma_u32_le(h.face_count);
        lemma_seq_bytes_len(self.vertices);
        lemma_seq_bytes_len(self.vertices_truncated);
        lemma_seq_bytes_len(self.faces);
        assert(hb.len() == 25);
        lemma_split(s, at, hb + vb + tb, fb);
        lemma_split(s, at, hb + vb, tb);
        lemma_split(s, at, hb, vb);
        h.lemma_bytes_parse(s, at);
        lemma_parse_seq_at::<Vertex2>(s, at + 25, self.vertices);
        lemma_parse_seq_at::<Vertex2Truncated>(s, at + 25 + vb.len(), self.vertices_truncated);
        lemma_parse_seq_at::<Face2>(s, at + 25 + vb.len() + tb.len(), self.faces);
    }

    /// An input cut short inside a mesh that was read ends too early: it is
    /// never read as a shorter mesh.
    pub proof fn lemma_cut(s: Seq<u8>, at: int, m: Mesh2View, end: int, k: int)
        requires
            0 <= at <= k <= s.len(),
            Self::parse(s, at) == Ok::<(Mesh2View, int), BinErrorView>((m, end)),
            k < end,
        ensures
            Self::parse(s.take(k), at) == Err::<(Mesh2View, int), BinErrorView>(
                BinErrorView::UnexpectedEof,
            ),
    {
        Header2::lemma_cut(s, at, k);
    }
}

impl Mesh2 {
    /// Reads the mesh at `at`; gives it with the place where it ends.
    pub fn get(data: &[u8], at: usize) -> (r: Result<(Mesh2, usize), BinError>)
        requires
            at <= data.len(),
        ensures
            match r {
                Ok((m, end)) => Mesh2View::parse(data@, at as int) == Ok::<
                    (Mesh2View, int),
                    BinErrorView,
                >((m@, end as int)),
                Err(e) => Mesh2View::parse(data@, at as int) == Err::<
                    (Mesh2View, int),
                    BinErrorView,
                >(e@),
            },
    {
        let header = Header2::get(data, at)?;
        let (full, truncated) = match header.sizeof_vertex {
            SizeOfVertex2::Full => (header.vertex_count as usize, 0usize),
            SizeOfVertex2::Truncated => (0usize, header.vertex_count as usize),
        };
        let a1 = at + 25;
        let vertices = get_seq::<Vertex2>(data, a1, full)?;
        let a2 = a1 + full * 40;
        let vertices_truncated = get_seq::<Vertex2Truncated>(data, a2, truncated)?;
        let a3 = a2 + truncated * 36;
        let faces = get_seq::<Face2>(data, a3, header.face_count as usize)?;
        let end = a3 + header.face_count as usize * 12;
        Ok((Mesh2 { header, vertices, vertices_truncated, faces }, end))
    }

    /// Appends the bytes of the mesh to `out`.
    pub fn write_le(&self, out: &mut Vec<u8>)
        ensures
            final(out)@ == old(out)@ + self@.bytes(),
    {
        self.header.put(out);
        put_seq(&self.vertices, out);
        put_seq(&self.vertices_truncated, out);
        put_seq(&self.faces, out);
        assert(out@ =~= old(out)@ + self@.bytes());
    }
}

/// Replaces the sentinel tangent of every vertex of `vertices` by the
/// default tangent.
pub fn fix_vertices(vertices: &mut Vec<Vertex2>)
    ensures
        final(vertices)@ == old(vertices)@.map_values(|v: Vertex2| v.fixed()),
{
    let mut i: usize = 0;
    while i < vertices.len()
        invariant
            i <= vertices.len(),
            vertices.len() == old(vertices).len(),
            forall|j: int| 0 <= j < i ==> vertices@[j] == old(vertices)@[j].fixed(),
            forall|j: int| i <= j < vertices.len() ==> vertices@[j] == old(vertices)@[j],
        decreases vertices.len() - i,
    {
        let v = vertices[i];
        vertices[i] = Vertex2 { tangent: fix_tangent(v.tangent), ..v };
        i += 1;
    }
    assert(vertices@ =~= old(vertices)@.map_values(|v: Vertex2| v.fixed()));
}

/// Replaces the sentinel tangent of every vertex of `vertices` by the
/// default tangent.
pub fn fix_truncated(vertices: &mut Vec<Vertex2Truncated>)
    ensures
        final(vertices)@ == old(vertices)@.map_values(|v: Vertex2Truncated| v.fixed()),
{
    let mut i: usize = 0;
    while i < vertices.len()
        invariant
            i <= vertices.len(),
            vertices.len() == old(vertices).len(),
            forall|j: int| 0 <= j < i ==> vertices@[j] == old(vertices)@[j].fixed(),
            forall|j: int| i <= j < vertices.len() ==> vertices@[j] == old(vertices)@[j],
        decreases vertices.len() - i,
    {
        let v = vertices[i];
        vertices[i] = Vertex2Truncated { tangent: fix_tangent(v.tangent), ..v };
        i += 1;
    }
    assert(vertices@ =~= old(vertices)@.map_values(|v: Vertex2Truncated| v.fixed()));
}

/// Replaces the sentinel tangent of every vertex by the default tangent.
pub fn fix2(mesh: &mut Mesh2)
    ensures
        final(mesh)@ == old(mesh)@.fixed(),
{
    fix_vertices(&mut mesh.vertices);
    fix_truncated(&mut mesh.vertices_truncated);
}

/// Reads a mesh of revision 2.00 as the file holds it, from the position of
/// `read` on, and leaves `read` behind its last byte. On a failure `read`
/// stays where it was.
pub fn read2(read: &mut Cursor) -> (r: Result<Mesh2, Error>)
    ensures
        final(read).bytes() == old(read).bytes(),
        match r {
            Ok(m) => Mesh2View::read_raw(old(read).bytes(), old(read).start()) == Ok::<
                (Mesh2View, int),
                ErrorView,
            >((m@, final(read).offset())),
            Err(e) => Mesh2View::read_raw(old(read).bytes(), old(read).start()) == Err::<
                (Mesh2View, int),
                ErrorView,
            >(e@) && final(read).offset() == old(read).offset(),
        },
{
    match Mesh2::get(read.get_ref(), read.index()) {
        Ok((m, end)) => {
            read.set_position(end);
            Ok(m)
        },
        Err(e) => Err(Error::BinRead(e)),
    }
}

/// Reads a mesh of revision 2.00 and applies the tangent fixup.
pub fn read_200(read: &mut Cursor) -> (r: Result<Mesh2, Error>)
    ensures
        final(read).bytes() == old(read).bytes(),
        match r {
            Ok(m) => Mesh2View::read_fixed(old(read).bytes(), old(read).start()) == Ok::<
                (Mesh2View, int),
                ErrorView,
            >((m@, final(read).offset())),
            Err(e) => Mesh2View::read_fixed(old(read).bytes(), old(read).start()) == Err::<
                (Mesh2View, int),
                ErrorView,
            >(e@) && final(read).offset() == old(read).offset(),
        },
{
    let mut mesh = read2(read)?;
    fix2(&mut mesh);
    Ok(mesh)
}

} // verus!
