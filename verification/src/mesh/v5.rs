//! Mesh revision 5.00: revision 4 with a block of facial-animation data
//! behind the lists.

use vstd::prelude::*;
use crate::frame::{
    Framed, all_wf, frames_bytes, lemma_count_cut, lemma_count_read_write, lemma_count_write_read,
    parse_count, parse_next,
};
use crate::mesh::{Error, ErrorView};
use crate::mesh::v2::{lemma_names_revision, magic_version, names_revision};
use crate::mesh::v2::fix_vertices;
use crate::mesh::v4::{Body4, Body4View, Counts4, Header4, LodType4, Revision4, put_body4};
use crate::mesh::v2::{Face2, Vertex2};
use crate::mesh::v3::Lod3;
use crate::mesh::v4::{Bone4, Envelope4, Subset4};
use crate::stream::Cursor;
use crate::wire::{
    BinError, BinErrorView, Plain, check_need, expect_magic, get_bytes, get_seq, get_u16, get_u32,
    get_u64, le_u16, le_u32, le_u64, lemma_assoc, lemma_join, lemma_le_u16, lemma_le_u32,
    lemma_le_u32_window, lemma_le_u64, lemma_parse_seq_at, lemma_parse_seq_cut,
    lemma_seq_bytes_len, lemma_seq_bytes_of_parse, lemma_split, lemma_u16_le, lemma_u32_le,
    lemma_u64_le, magic_at, need, parse_seq, put_bytes, put_seq, put_u16, put_u32, put_u64,
    seq_bytes, then, u16_le, u32_le, u64_le,
};

verus! {

/// The bytes of `5.00`.
pub open spec fn magic_500() -> Seq<u8> {
    seq![0x35u8, 0x2eu8, 0x30u8, 0x30u8]
}

/// A line feed, then the header's own size (32) as a 16-bit number.
pub open spec fn magic_header_size5() -> Seq<u8> {
    seq![0x0au8, 0x20u8, 0x00u8]
}

/// The one revision of this layout.
#[derive(Debug, Clone, Copy, PartialEq, Eq)]
pub enum Revision5 {
    Version500,
}

/// The layout of the facial-animation block.
#[derive(Debug, Clone, Copy, PartialEq, Eq)]
pub enum FacsFormat5 {
    Format1,
}

impl FacsFormat5 {
    /// The layout named by the 32-bit number at `at`: 1 is the only one.
    pub open spec fn parse(s: Seq<u8>, at: int) -> Result<FacsFormat5, BinErrorView> {
        if s.len() - at < 4 {
            Err(BinErrorView::UnexpectedEof)
        } else if le_u32(s, at) == 1 {
            Ok(FacsFormat5::Format1)
        } else {
            Err(BinErrorView::NoVariantMatch { pos: at })
        }
    }

    /// Reads the layout at `at`.
    pub fn get(data: &[u8], at: usize) -> (r: Result<FacsFormat5, BinError>)
        requires
            at <= data.len(),
        ensures
            match r {
                Ok(v) => Self::parse(data@, at as int) == Ok::<FacsFormat5, BinErrorView>(v),
                Err(e) => Self::parse(data@, at as int) == Err::<FacsFormat5, BinErrorView>(e@),
            },
    {
        if data.len() - at < 4 {
            Err(BinError::UnexpectedEof)
        } else if get_u32(data, at) == 1 {
            Ok(FacsFormat5::Format1)
        } else {
            Err(BinError::NoVariantMatch { pos: at as u64 })
        }
    }
}

/// The header of revision 5.00: the header of revision 4 and what it says of
/// the facial-animation block.
#[derive(Debug, Clone, Copy, PartialEq, Eq)]
pub struct Header5 {
    pub revision: Revision5,
    pub lod_type: LodType4,
    pub vertex_count: u32,
    pub face_count: u32,
    pub lod_count: u16,
    pub bone_count: u16,
    pub bone_names_len: u32,
    pub subset_count: u16,
    pub lod_hq_count: u8,
    pub _padding: u8,
    pub facs_format: FacsFormat5,
    pub sizeof_facs: u32,
}

impl Header5 {
    /// The header of revision 4 with the same counts.
    pub open spec fn as_header4(self) -> Header4 {
        Header4 {
            revision: Revision4::Version400,
            lod_type: self.lod_type,
            vertex_count: self.vertex_count,
            face_count: self.face_count,
            lod_count: self.lod_count,
            bone_count: self.bone_count,
            bone_names_len: self.bone_names_len,
            subset_count: self.subset_count,
            lod_hq_count: self.lod_hq_count,
            _padding: self._padding,
        }
    }

    /// The counts of the header.
    pub open spec fn sizes(self) -> Counts4 {
        self.as_header4().sizes()
    }

    /// The 45 bytes of the header.
    pub open spec fn bytes(self) -> Seq<u8> {
        magic_version() + magic_500() + magic_header_size5() + u16_le(self.lod_type.tag())
            + self.as_header4().counts() + u32_le(1) + u32_le(self.sizeof_facs)
    }

    /// The header at `at`, its fields read in their order; the failure of
    /// the first field that cannot be read otherwise.
    #[verifier::opaque]
    pub open spec fn parse(s: Seq<u8>, at: int) -> Result<Header5, BinErrorView> {
        then(
            magic_at(s, at, magic_version()),
            then(
                magic_at(s, at + 8, magic_500()),
                then(
                    magic_at(s, at + 12, magic_header_size5()),
                    match LodType4::parse(s, at + 15) {
                        Err(e) => Err(e),
                        Ok(lod_type) => then(
                            need(s, at + 17, 20),
                            match FacsFormat5::parse(s, at + 37) {
                                Err(e) => Err(e),
                                Ok(facs_format) => then(
                                    need(s, at + 41, 4),
                                    Ok(
                                        Header5 {
                                            revision: Revision5::Version500,
                                            lod_type,
                                            vertex_count: le_u32(s, at + 17),
                                            face_count: le_u32(s, at + 21),
                                            lod_count: le_u16(s, at + 25),
                                            bone_count: le_u16(s, at + 27),
                                            bone_names_len: le_u32(s, at + 29),
                                            subset_count: le_u16(s, at + 33),
                                            lod_hq_count: s[at + 35],
                                            _padding: s[at + 36],
                                            facs_format,
                                            sizeof_facs: le_u32(s, at + 41),
                                        },
                                    ),
                                ),
                            },
                        ),
                    },
                ),
            ),
        )
    }

    /// Reads the header at `at`.
    pub fn get(data: &[u8], at: usize) -> (r: Result<Header5, BinError>)
        requires
            at <= data.len(),
        ensures
            match r {
                Ok(h) => at + 45 <= data.len() && Self::parse(data@, at as int) == Ok::<
                    Header5,
                    BinErrorView,
                >(h),
                Err(e) => Self::parse(data@, at as int) == Err::<Header5, BinErrorView>(e@),
            },
    {
        proof {
            reveal(Header5::parse);
        }
        let version: [u8; 8] = [0x76, 0x65, 0x72, 0x73, 0x69, 0x6f, 0x6e, 0x20];
        let revision: [u8; 4] = [0x35, 0x2e, 0x30, 0x30];
        let header_size: [u8; 3] = [0x0a, 0x20, 0x00];
        assert(version@ =~= magic_version());
        assert(revision@ =~= magic_500());
        assert(header_size@ =~= magic_header_size5());
        expect_magic(data, at, version.as_slice())?;
        expect_magic(data, at + 8, revision.as_slice())?;
        expect_magic(data, at + 12, header_size.as_slice())?;
        let lod_type = LodType4::get(data, at + 15)?;
        check_need(data, at + 17, 20)?;
        let facs_format = FacsFormat5::get(data, at + 37)?;
        check_need(data, at + 41, 4)?;
        Ok(
            Header5 {
                revision: Revision5::Version500,
                lod_type,
                vertex_count: get_u32(data, at + 17),
                face_count: get_u32(data, at + 21),
                lod_count: get_u16(data, at + 25),
                bone_count: get_u16(data, at + 27),
                bone_names_len: get_u32(data, at + 29),
                subset_count: get_u16(data, at + 33),
                lod_hq_count: data[at + 35],
                _padding: data[at + 36],
                facs_format,
                sizeof_facs: get_u32(data, at + 41),
            },
        )
    }

    /// The header of revision 4 with the same counts.
    pub fn to_header4(&self) -> (r: Header4)
        ensures
            r == self.as_header4(),
    {
        Header4 {
            revision: Revision4::Version400,
            lod_type: self.lod_type,
            vertex_count: self.vertex_count,
            face_count: self.face_count,
            lod_count: self.lod_count,
            bone_count: self.bone_count,
            bone_names_len: self.bone_names_len,
            subset_count: self.subset_count,
            lod_hq_count: self.lod_hq_count,
            _padding: self._padding,
        }
    }

    /// Appends the header.
    pub fn put(&self, out: &mut Vec<u8>)
        ensures
            final(out)@ == old(out)@ + self.bytes(),
    {
        let version: [u8; 8] = [0x76, 0x65, 0x72, 0x73, 0x69, 0x6f, 0x6e, 0x20];
        let revision: [u8; 4] = [0x35, 0x2e, 0x30, 0x30];
        let header_size: [u8; 3] = [0x0a, 0x20, 0x00];
        assert(version@ =~= magic_version());
        assert(revision@ =~= magic_500());
        assert(header_size@ =~= magic_header_size5());
        put_bytes(version.as_slice(), out);
        put_bytes(revision.as_slice(), out);
        put_bytes(header_size.as_slice(), out);
        put_u16(self.lod_type.to_u16(), out);
        self.to_header4().put_counts(out);
        put_u32(1, out);
        put_u32(self.sizeof_facs, out);
        assert(out@ =~= old(out)@ + self.bytes());
    }

    /// A header that was read begins with the twelve bytes that name its
    /// revision.
    pub proof fn lemma_revision(s: Seq<u8>, at: int)
        requires
            0 <= at <= s.len(),
            Self::parse(s, at) is Ok,
        ensures
            at + 12 <= s.len(),
            names_revision(s.subrange(at, at + 12), 0x35, 0x30),
    {
        reveal(Header5::parse);
        lemma_names_revision(s, at, magic_500());
    }

    /// A header that was read is the header that its 45 bytes spell.
    pub proof fn lemma_parse_bytes(s: Seq<u8>, at: int, h: Header5)
        requires
            0 <= at <= s.len(),
            Self::parse(s, at) == Ok::<Header5, BinErrorView>(h),
        ensures
            at + 45 <= s.len(),
            h.bytes() == s.subrange(at, at + 45),
    {
        reveal(Header5::parse);
        h.as_header4().lemma_counts(s, at + 17);
        lemma_le_u16(s, at + 15);
        lemma_le_u32(s, at + 37);
        lemma_le_u32(s, at + 41);
        lemma_join(s, at, at + 8, at + 12);
        lemma_join(s, at, at + 12, at + 15);
        lemma_join(s, at, at + 15, at + 17);
        lemma_join(s, at, at + 17, at + 37);
        lemma_join(s, at, at + 37, at + 41);
        lemma_join(s, at, at + 41, at + 45);
    }

    /// The bytes of a header are read as that header, wherever they stand.
    pub proof fn lemma_bytes_parse(self, s: Seq<u8>, at: int)
        requires
            0 <= at,
            at + 45 <= s.len(),
            s.subrange(at, at + 45) == self.bytes(),
        ensures
            Self::parse(s, at) == Ok::<Header5, BinErrorView>(self),
    {
        reveal(Header5::parse);
        self.as_header4().lemma_counts(s, at + 17);
        lemma_u16_le(self.lod_type.tag());
        lemma_u32_le(1);
        lemma_u32_le(self.sizeof_facs);
        let c1 = magic_version();
        let c2 = c1 + magic_500();
        let c3 = c2 + magic_header_size5();
        let c4 = c3 + u16_le(self.lod_type.tag());
        let c5 = c4 + self.as_header4().counts();
        let c6 = c5 + u32_le(1);
        lemma_split(s, at, c6, u32_le(self.sizeof_facs));
        lemma_split(s, at, c5, u32_le(1));
        lemma_split(s, at, c4, self.as_header4().counts());
        lemma_split(s, at, c3, u16_le(self.lod_type.tag()));
        lemma_split(s, at, c2, magic_header_size5());
        lemma_split(s, at, c1, magic_500());
        assert(le_u16(s, at + 15) == le_u16(s.subrange(at + 15, at + 17), 0));
        lemma_le_u32_window(s, at + 37);
        lemma_le_u32_window(s, at + 41);
    }

    /// The header is 45 bytes long.
    pub proof fn lemma_len(self)
        ensures
            self.bytes().len() == 45,
    {
        self.as_header4().lemma_counts(self.bytes(), 17);
        lemma_u16_le(self.lod_type.tag());
        lemma_u32_le(1);
        lemma_u32_le(self.sizeof_facs);
    }

    /// Cutting the input inside a header that was read leaves an input that
    /// ends too early; cutting it behind the header changes nothing.
    pub proof fn lemma_cut(s: Seq<u8>, at: int, k: int)
        requires
            0 <= at <= k <= s.len(),
            Self::parse(s, at) is Ok,
        ensures
            k < at + 45 ==> Self::parse(s.take(k), at) == Err::<Header5, BinErrorView>(
                BinErrorView::UnexpectedEof,
            ),
            k >= at + 45 ==> Self::parse(s.take(k), at) == Self::parse(s, at),
    {
        reveal(Header5::parse);
        let t = s.take(k);
        if k >= at + 8 {
            assert(t.subrange(at, at + 8) =~= s.subrange(at, at + 8));
        }
        if k >= at + 12 {
            assert(t.subrange(at + 8, at + 12) =~= s.subrange(at + 8, at + 12));
        }
        if k >= at + 15 {
            assert(t.subrange(at + 12, at + 15) =~= s.subrange(at + 12, at + 15));
        }
    }
}

/// How many cells a matrix of `x` by `y` has.
pub open spec fn cells(x: u32, y: u32) -> nat {
    (x as nat) * (y as nat)
}

/// A matrix of the facial-animation block. A raw matrix holds the 32-bit
/// pattern of each cell; a quantized one holds 16-bit steps between the
/// bounds `lerp0` and `lerp1`, themselves kept as 32-bit patterns.
#[derive(Debug, Clone, PartialEq, Eq)]
pub enum QuantizedMatrix5 {
    Raw { x: u32, y: u32, matrix: Vec<u32> },
    Quantized { x: u32, y: u32, lerp0: u32, lerp1: u32, matrix: Vec<u16> },
}

/// The mathematical value of a [`QuantizedMatrix5`].
pub enum QuantizedMatrix5View {
    Raw { x: u32, y: u32, matrix: Seq<u32> },
    Quantized { x: u32, y: u32, lerp0: u32, lerp1: u32, matrix: Seq<u16> },
}

impl View for QuantizedMatrix5 {
    type V = QuantizedMatrix5View;

    open spec fn view(&self) -> QuantizedMatrix5View {
        match *self {
            QuantizedMatrix5::Raw { x, y, matrix } => QuantizedMatrix5View::Raw {
                x,
                y,
                matrix: matrix@,
            },
            QuantizedMatrix5::Quantized {
                x,
                y,
                lerp0,
                lerp1,
                matrix,
            } => QuantizedMatrix5View::Quantized { x, y, lerp0, lerp1, matrix: matrix@ },
        }
    }
}

/// The matrix that starts at `at` and the place where it ends: the tag
/// first, then the fields of the variant it names.
#[verifier::opaque]
pub open spec fn matrix_parse(s: Seq<u8>, at: int) -> Result<
    (QuantizedMatrix5View, int),
    BinErrorView,
> {
    if s.len() - at < 2 {
        Err(BinErrorView::UnexpectedEof)
    } else if le_u16(s, at) == 1 {
        if s.len() - at < 10 {
            Err(BinErrorView::UnexpectedEof)
        } else {
            let x = le_u32(s, at + 2);
            let y = le_u32(s, at + 6);
            let end = at + 10 + cells(x, y) * 4;
            if end > s.len() {
                Err(BinErrorView::UnexpectedEof)
            } else {
                Ok(
                    (
                        QuantizedMatrix5View::Raw {
                            x,
                            y,
                            matrix: parse_seq::<u32>(s, at + 10, cells(x, y)),
                        },
                        end,
                    ),
                )
            }
        }
    } else if le_u16(s, at) == 2 {
        if s.len() - at < 18 {
            Err(BinErrorView::UnexpectedEof)
        } else {
            let x = le_u32(s, at + 2);
            let y = le_u32(s, at + 6);
            let end = at + 18 + cells(x, y) * 2;
            if end > s.len() {
                Err(BinErrorView::UnexpectedEof)
            } else {
                Ok(
                    (
                        QuantizedMatrix5View::Quantized {
                            x,
                            y,
                            lerp0: le_u32(s, at + 10),
                            lerp1: le_u32(s, at + 14),
                            matrix: parse_seq::<u16>(s, at + 18, cells(x, y)),
                        },
                        end,
                    ),
                )
            }
        }
    } else {
        Err(BinErrorView::BadMagic { pos: at, found: s.subrange(at, at + 2) })
    }
}

/// The bytes of a matrix.
pub open spec fn matrix_bytes(m: QuantizedMatrix5View) -> Seq<u8> {
    match m {
        QuantizedMatrix5View::Raw { x, y, matrix } => u16_le(1) + u32_le(x) + u32_le(y)
            + seq_bytes(matrix),
        QuantizedMatrix5View::Quantized { x, y, lerp0, lerp1, matrix } => u16_le(2) + u32_le(x)
            + u32_le(y) + u32_le(lerp0) + u32_le(lerp1) + seq_bytes(matrix),
    }
}

impl Framed for QuantizedMatrix5View {
    open spec fn wf(self) -> bool {
        match self {
            QuantizedMatrix5View::Raw { x, y, matrix } => matrix.len() == cells(x, y),
            QuantizedMatrix5View::Quantized { x, y, lerp0, lerp1, matrix } => matrix.len() == cells(
                x,
                y,
            ),
        }
    }

    open spec fn bytes(self) -> Seq<u8> {
        matrix_bytes(self)
    }

    open spec fn parse(s: Seq<u8>, at: int) -> Result<(Self, int), BinErrorView> {
        matrix_parse(s, at)
    }

    proof fn lemma_read_write(s: Seq<u8>, at: int, m: Self, end: int) {
        reveal(matrix_parse);
        lemma_le_u16(s, at);
        lemma_le_u32(s, at + 2);
        lemma_le_u32(s, at + 6);
        lemma_join(s, at, at + 2, at + 6);
        lemma_join(s, at, at + 6, at + 10);
        match m {
            QuantizedMatrix5View::Raw { x, y, matrix } => {
                lemma_seq_bytes_of_parse::<u32>(s, at + 10, cells(x, y));
                lemma_join(s, at, at + 10, end);
            },
            QuantizedMatrix5View::Quantized { x, y, lerp0, lerp1, matrix } => {
                lemma_le_u32(s, at + 10);
                lemma_le_u32(s, at + 14);
                lemma_join(s, at, at + 10, at + 14);
                lemma_join(s, at, at + 14, at + 18);
                lemma_seq_bytes_of_parse::<u16>(s, at + 18, cells(x, y));
                lemma_join(s, at, at + 18, end);
            },
        }
    }

    proof fn lemma_write_read(self, s: Seq<u8>, at: int) {
        reveal(matrix_parse);
        lemma_u16_le(1);
        lemma_u16_le(2);
        match self {
            QuantizedMatrix5View::Raw { x, y, matrix } => {
                lemma_u32_le(x);
                lemma_u32_le(y);
                lemma_seq_bytes_len(matrix);
                let c1 = u16_le(1);
                let c2 = c1 + u32_le(x);
                let c3 = c2 + u32_le(y);
                lemma_split(s, at, c3, seq_bytes(matrix));
                lemma_split(s, at, c2, u32_le(y));
                lemma_split(s, at, c1, u32_le(x));
                assert(le_u16(s, at) == le_u16(s.subrange(at, at + 2), 0));
                lemma_le_u32_window(s, at + 2);
                lemma_le_u32_window(s, at + 6);
                lemma_parse_seq_at::<u32>(s, at + 10, matrix);
            },
            QuantizedMatrix5View::Quantized { x, y, lerp0, lerp1, matrix } => {
                lemma_u32_le(x);
                lemma_u32_le(y);
                lemma_u32_le(lerp0);
                lemma_u32_le(lerp1);
                lemma_seq_bytes_len(matrix);
                let c1 = u16_le(2);
                let c2 = c1 + u32_le(x);
                let c3 = c2 + u32_le(y);
                let c4 = c3 + u32_le(lerp0);
                let c5 = c4 + u32_le(lerp1);
                lemma_split(s, at, c5, seq_bytes(matrix));
                lemma_split(s, at, c4, u32_le(lerp1));
                lemma_split(s, at, c3, u32_le(lerp0));
                lemma_split(s, at, c2, u32_le(y));
                lemma_split(s, at, c1, u32_le(x));
                assert(le_u16(s, at) == le_u16(s.subrange(at, at + 2), 0));
                lemma_le_u32_window(s, at + 2);
                lemma_le_u32_window(s, at + 6);
                lemma_le_u32_window(s, at + 10);
                lemma_le_u32_window(s, at + 14);
                lemma_parse_seq_at::<u16>(s, at + 18, matrix);
            },
        }
    }

    proof fn lemma_cut(s: Seq<u8>, at: int, m: Self, end: int, k: int) {
        reveal(matrix_parse);
        if k >= end {
            match m {
                QuantizedMatrix5View::Raw { x, y, matrix } => {
                    lemma_parse_seq_cut::<u32>(s, at + 10, cells(x, y), k);
                },
                QuantizedMatrix5View::Quantized { x, y, lerp0, lerp1, matrix } => {
                    lemma_parse_seq_cut::<u16>(s, at + 18, cells(x, y), k);
                },
            }
        }
    }
}

/// How many cells the input can hold at most from `at` on, or `None` where
/// `x * y` is more than that.
fn cell_count(data: &[u8], at: usize, x: u32, y: u32) -> (r: Option<usize>)
    requires
        at <= data.len(),
    ensures
        match r {
            Some(n) => n == cells(x, y),
            None => cells(x, y) > data.len() - at,
        },
{
    assert((x as u64) * (y as u64) <= 0xFFFF_FFFE_0000_0001) by (nonlinear_arith)
        requires
            x <= 0xFFFF_FFFF,
            y <= 0xFFFF_FFFF,
    ;
    let n: u64 = (x as u64) * (y as u64);
    let room = data.len() - at;
    if n > room as u64 {
        None
    } else {
        Some(n as usize)
    }
}

impl QuantizedMatrix5 {
    /// Reads the matrix at `at`; gives it with the place where it ends.
    pub fn get(data: &[u8], at: usize) -> (r: Result<(QuantizedMatrix5, usize), BinError>)
        requires
            at <= data.len(),
        ensures
            match r {
                Ok((m, end)) => matrix_parse(data@, at as int) == Ok::<
                    (QuantizedMatrix5View, int),
                    BinErrorView,
                >((m@, end as int)),
                Err(e) => matrix_parse(data@, at as int) == Err::<
                    (QuantizedMatrix5View, int),
                    BinErrorView,
                >(e@),
            },
    {
        proof {
            reveal(matrix_parse);
        }
        if data.len() - at < 2 {
            return Err(BinError::UnexpectedEof);
        }
        let tag = get_u16(data, at);
        if tag == 1 {
            if data.len() - at < 10 {
                return Err(BinError::UnexpectedEof);
            }
            let x = get_u32(data, at + 2);
            let y = get_u32(data, at + 6);
            match cell_count(data, at + 10, x, y) {
                None => Err(BinError::UnexpectedEof),
                Some(n) => {
                    let matrix = get_seq::<u32>(data, at + 10, n)?;
                    Ok((QuantizedMatrix5::Raw { x, y, matrix }, at + 10 + n * 4))
                },
            }
        } else if tag == 2 {
            if data.len() - at < 18 {
                return Err(BinError::UnexpectedEof);
            }
            let x = get_u32(data, at + 2);
            let y = get_u32(data, at + 6);
            let lerp0 = get_u32(data, at + 10);
            let lerp1 = get_u32(data, at + 14);
            match cell_count(data, at + 18, x, y) {
                None => Err(BinError::UnexpectedEof),
                Some(n) => {
                    let matrix = get_seq::<u16>(data, at + 18, n)?;
                    let end = at + 18 + n * 2;
                    Ok((QuantizedMatrix5::Quantized { x, y, lerp0, lerp1, matrix }, end))
                },
            }
        } else {
            let found = get_bytes(data, at, 2)?;
            Err(BinError::BadMagic { pos: at as u64, found })
        }
    }

    /// Appends the matrix.
    pub fn put(&self, out: &mut Vec<u8>)
        ensures
            final(out)@ == old(out)@ + matrix_bytes(self@),
    {
        match self {
            QuantizedMatrix5::Raw { x, y, matrix } => {
                put_u16(1, out);
                put_u32(*x, out);
                put_u32(*y, out);
                put_seq(matrix, out);
                assert(out@ =~= old(out)@ + matrix_bytes(self@));
            },
            QuantizedMatrix5::Quantized { x, y, lerp0, lerp1, matrix } => {
                put_u16(2, out);
                put_u32(*x, out);
                put_u32(*y, out);
                put_u32(*lerp0, out);
                put_u32(*lerp1, out);
                put_seq(matrix, out);
                assert(out@ =~= old(out)@ + matrix_bytes(self@));
            },
        }
    }
}

/// The six matrices of the facial-animation block: position and rotation,
/// each along x, y and z.
#[derive(Debug, Clone, PartialEq, Eq)]
pub struct QuantizedTransforms5 {
    pub px: QuantizedMatrix5,
    pub py: QuantizedMatrix5,
    pub pz: QuantizedMatrix5,
    pub rx: QuantizedMatrix5,
    pub ry: QuantizedMatrix5,
    pub rz: QuantizedMatrix5,
}

impl View for QuantizedTransforms5 {
    type V = Seq<QuantizedMatrix5View>;

    /// The six matrices in the order of the file.
    open spec fn view(&self) -> Seq<QuantizedMatrix5View> {
        seq![self.px@, self.py@, self.pz@, self.rx@, self.ry@, self.rz@]
    }
}

impl QuantizedTransforms5 {
    /// Reads the six matrices at `at`; gives them with the place where the
    /// last one ends.
    pub fn get(data: &[u8], at: usize) -> (r: Result<(QuantizedTransforms5, usize), BinError>)
        requires
            at <= data.len(),
        ensures
            match r {
                Ok((m, end)) => end <= data.len() && parse_count::<QuantizedMatrix5View>(
                    data@,
                    at as int,
                    6,
                ) == Ok::<(Seq<QuantizedMatrix5View>, int), BinErrorView>((m@, end as int)),
                Err(e) => parse_count::<QuantizedMatrix5View>(data@, at as int, 6) == Err::<
                    (Seq<QuantizedMatrix5View>, int),
                    BinErrorView,
                >(e@),
            },
    {
        proof {
            reveal_with_fuel(parse_count, 7);
        }
        let ghost s = data@;
        let ghost c0 = parse_count::<QuantizedMatrix5View>(s, at as int, 0);
        let ghost c1 = parse_next(c0, s);
        let ghost c2 = parse_next(c1, s);
        let ghost c3 = parse_next(c2, s);
        let ghost c4 = parse_next(c3, s);
        let ghost c5 = parse_next(c4, s);
        let ghost c6 = parse_next(c5, s);
        assert(parse_count::<QuantizedMatrix5View>(s, at as int, 6) == c6);
        let (px, a1) = QuantizedMatrix5::get(data, at)?;
        proof {
            QuantizedMatrix5View::lemma_read_write(s, at as int, px@, a1 as int);
        }
        let (py, a2) = QuantizedMatrix5::get(data, a1)?;
        proof {
            QuantizedMatrix5View::lemma_read_write(s, a1 as int, py@, a2 as int);
        }
        let (pz, a3) = QuantizedMatrix5::get(data, a2)?;
        proof {
            QuantizedMatrix5View::lemma_read_write(s, a2 as int, pz@, a3 as int);
        }
        let (rx, a4) = QuantizedMatrix5::get(data, a3)?;
        proof {
            QuantizedMatrix5View::lemma_read_write(s, a3 as int, rx@, a4 as int);
        }
        let (ry, a5) = QuantizedMatrix5::get(data, a4)?;
        proof {
            QuantizedMatrix5View::lemma_read_write(s, a4 as int, ry@, a5 as int);
        }
        let (rz, a6) = QuantizedMatrix5::get(data, a5)?;
        proof {
            QuantizedMatrix5View::lemma_read_write(s, a5 as int, rz@, a6 as int);
        }
        let r = QuantizedTransforms5 { px, py, pz, rx, ry, rz };
        assert(c6->Ok_0.0 =~= r@);
        Ok((r, a6))
    }

    /// Appends the six matrices.
    pub fn put(&self, out: &mut Vec<u8>)
        ensures
            final(out)@ == old(out)@ + frames_bytes(self@),
    {
        proof {
            reveal_with_fuel(frames_bytes, 7);
        }
        let ghost v = self@;
        let ghost v5 = v.drop_last();
        let ghost v4 = v5.drop_last();
        let ghost v3 = v4.drop_last();
        let ghost v2 = v3.drop_last();
        let ghost v1 = v2.drop_last();
        assert(v1.drop_last().len() == 0);
        assert(frames_bytes(v) == frames_bytes(v1.drop_last()) + matrix_bytes(self.px@)
            + matrix_bytes(self.py@) + matrix_bytes(self.pz@) + matrix_bytes(self.rx@)
            + matrix_bytes(self.ry@) + matrix_bytes(self.rz@));
        self.px.put(out);
        self.py.put(out);
        self.pz.put(out);
        self.rx.put(out);
        self.ry.put(out);
        self.rz.put(out);
        assert(out@ =~= old(out)@ + frames_bytes(self@));
    }
}

/// The number of a facial-animation control.
#[derive(Debug, Clone, Copy, PartialEq, Eq, Hash)]
pub struct ControlId5(pub u16);

/// A corrective pose driven by two controls.
#[derive(Debug, Clone, Copy, PartialEq, Eq)]
pub struct TwoPoseCorrective5(pub ControlId5, pub ControlId5);

/// A corrective pose driven by three controls.
#[derive(Debug, Clone, Copy, PartialEq, Eq)]
pub struct ThreePoseCorrective5(pub ControlId5, pub ControlId5, pub ControlId5);

impl Plain for TwoPoseCorrective5 {
    open spec fn width() -> nat {
        4
    }

    open spec fn parse(w: Seq<u8>) -> TwoPoseCorrective5 {
        TwoPoseCorrective5(ControlId5(le_u16(w, 0)), ControlId5(le_u16(w, 2)))
    }

    open spec fn bytes(self) -> Seq<u8> {
        u16_le(self.0.0) + u16_le(self.1.0)
    }

    proof fn lemma_plain(x: TwoPoseCorrective5, w: Seq<u8>) {
        lemma_u16_le(x.0.0);
        lemma_u16_le(x.1.0);
        if w.len() == 4 {
            lemma_le_u16(w, 0);
            lemma_le_u16(w, 2);
            assert(Self::parse(w).bytes() =~= w);
        }
    }

    fn size() -> (n: usize) {
        4
    }

    fn get(data: &[u8], at: usize) -> (r: TwoPoseCorrective5) {
        TwoPoseCorrective5(ControlId5(get_u16(data, at)), ControlId5(get_u16(data, at + 2)))
    }

    fn put(&self, out: &mut Vec<u8>) {
        put_u16(self.0.0, out);
        put_u16(self.1.0, out);
        assert(out@ =~= old(out)@ + self.bytes());
    }
}

impl Plain for ThreePoseCorrective5 {
    open spec fn width() -> nat {
        6
    }

    open spec fn parse(w: Seq<u8>) -> ThreePoseCorrective5 {
        ThreePoseCorrective5(
            ControlId5(le_u16(w, 0)),
            ControlId5(le_u16(w, 2)),
            ControlId5(le_u16(w, 4)),
        )
    }

    open spec fn bytes(self) -> Seq<u8> {
        u16_le(self.0.0) + u16_le(self.1.0) + u16_le(self.2.0)
    }

    proof fn lemma_plain(x: ThreePoseCorrective5, w: Seq<u8>) {
        lemma_u16_le(x.0.0);
        lemma_u16_le(x.1.0);
        lemma_u16_le(x.2.0);
        if w.len() == 6 {
            lemma_le_u16(w, 0);
            lemma_le_u16(w, 2);
            lemma_le_u16(w, 4);
            assert(Self::parse(w).bytes() =~= w);
        }
    }

    fn size() -> (n: usize) {
        6
    }

    fn get(data: &[u8], at: usize) -> (r: ThreePoseCorrective5) {
        ThreePoseCorrective5(
            ControlId5(get_u16(data, at)),
            ControlId5(get_u16(data, at + 2)),
            ControlId5(get_u16(data, at + 4)),
        )
    }

    fn put(&self, out: &mut Vec<u8>) {
        put_u16(self.0.0, out);
        put_u16(self.1.0, out);
        put_u16(self.2.0, out);
        assert(out@ =~= old(out)@ + self.bytes());
    }
}

/// The facial-animation block. The two lengths of the corrective poses
/// count bytes: a pose of two controls takes 4 of them, one of three takes
/// 6, and what is left over of a length holds no pose.
#[derive(Debug, Clone, PartialEq, Eq)]
pub struct Facs5 {
    pub face_bone_names_len: u32,
    pub face_control_names_len: u32,
    pub quantized_transforms_len: u64,
    pub two_pose_correctives_len: u32,
    pub three_pose_correctives_len: u32,
    pub face_bone_names: Vec<u8>,
    pub face_control_names: Vec<u8>,
    pub quantized_transforms: QuantizedTransforms5,
    pub two_pose_correctives: Vec<TwoPoseCorrective5>,
    pub three_pose_correctives: Vec<ThreePoseCorrective5>,
}

/// The mathematical value of a [`Facs5`].
pub struct Facs5View {
    pub face_bone_names_len: u32,
    pub face_control_names_len: u32,
    pub quantized_transforms_len: u64,
    pub two_pose_correctives_len: u32,
    pub three_pose_correctives_len: u32,
    pub face_bone_names: Seq<u8>,
    pub face_control_names: Seq<u8>,
    pub quantized_transforms: Seq<QuantizedMatrix5View>,
    pub two_pose_correctives: Seq<TwoPoseCorrective5>,
    pub three_pose_correctives: Seq<ThreePoseCorrective5>,
}

impl View for Facs5 {
    type V = Facs5View;

    open spec fn view(&self) -> Facs5View {
        Facs5View {
            face_bone_names_len: self.face_bone_names_len,
            face_control_names_len: self.face_control_names_len,
            quantized_transforms_len: self.quantized_transforms_len,
            two_pose_correctives_len: self.two_pose_correctives_len,
            three_pose_correctives_len: self.three_pose_correctives_len,
            face_bone_names: self.face_bone_names@,
            face_control_names: self.face_control_names@,
            quantized_transforms: self.quantized_transforms@,
            two_pose_correctives: self.two_pose_correctives@,
            three_pose_correctives: self.three_pose_correctives@,
        }
    }
}

impl Facs5View {
    /// The 24 bytes of the five lengths.
    pub open spec fn lens(self) -> Seq<u8> {
        u32_le(self.face_bone_names_len) + u32_le(self.face_control_names_len) + u64_le(
            self.quantized_transforms_len,
        ) + u32_le(self.two_pose_correctives_len) + u32_le(self.three_pose_correctives_len)
    }

    /// How many poses of two controls the block holds.
    pub open spec fn two_count(self) -> nat {
        (self.two_pose_correctives_len / 4) as nat
    }

    /// How many poses of three controls the block holds.
    pub open spec fn three_count(self) -> nat {
        (self.three_pose_correctives_len / 6) as nat
    }
}

/// The block that starts at `at` and the place where it ends.
#[verifier::opaque]
pub open spec fn facs_parse(s: Seq<u8>, at: int) -> Result<(Facs5View, int), BinErrorView> {
    if s.len() - at < 24 {
        Err(BinErrorView::UnexpectedEof)
    } else {
        let face_bone_names_len = le_u32(s, at);
        let face_control_names_len = le_u32(s, at + 4);
        let quantized_transforms_len = le_u64(s, at + 8);
        let two_pose_correctives_len = le_u32(s, at + 16);
        let three_pose_correctives_len = le_u32(s, at + 20);
        let a1 = at + 24;
        let a2 = a1 + face_bone_names_len;
        let a3 = a2 + face_control_names_len;
        if a3 > s.len() {
            Err(BinErrorView::UnexpectedEof)
        } else {
            match parse_count::<QuantizedMatrix5View>(s, a3, 6) {
                Err(e) => Err(e),
                Ok((quantized_transforms, a4)) => {
                    let two = (two_pose_correctives_len / 4) as nat;
                    let three = (three_pose_correctives_len / 6) as nat;
                    let a5 = a4 + two * 4;
                    let end = a5 + three * 6;
                    if end > s.len() {
                        Err(BinErrorView::UnexpectedEof)
                    } else {
                        Ok(
                            (
                                Facs5View {
                                    face_bone_names_len,
                                    face_control_names_len,
                                    quantized_transforms_len,
                                    two_pose_correctives_len,
                                    three_pose_correctives_len,
                                    face_bone_names: s.subrange(a1, a2),
                                    face_control_names: s.subrange(a2, a3),
                                    quantized_transforms,
                                    two_pose_correctives: parse_seq(s, a4, two),
                                    three_pose_correctives: parse_seq(s, a5, three),
                                },
                                end,
                            ),
                        )
                    }
                },
            }
        }
    }
}

/// The five lengths are 24 bytes, and they are read back from them.
pub proof fn lemma_facs_lens(m: Facs5View, s: Seq<u8>, at: int)
    requires
        0 <= at,
        at + 24 <= s.len(),
    ensures
        m.lens().len() == 24,
        s.subrange(at, at + 24) == m.lens() <==> {
            &&& m.face_bone_names_len == le_u32(s, at)
            &&& m.face_control_names_len == le_u32(s, at + 4)
            &&& m.quantized_transforms_len == le_u64(s, at + 8)
            &&& m.two_pose_correctives_len == le_u32(s, at + 16)
            &&& m.three_pose_correctives_len == le_u32(s, at + 20)
        },
{
    lemma_u32_le(m.face_bone_names_len);
    lemma_u32_le(m.face_control_names_len);
    lemma_u64_le(m.quantized_transforms_len);
    lemma_u32_le(m.two_pose_correctives_len);
    lemma_u32_le(m.three_pose_correctives_len);
    let c1 = u32_le(m.face_bone_names_len);
    let c2 = c1 + u32_le(m.face_control_names_len);
    let c3 = c2 + u64_le(m.quantized_transforms_len);
    let c4 = c3 + u32_le(m.two_pose_correctives_len);
    if s.subrange(at, at + 24) == m.lens() {
        lemma_split(s, at, c4, u32_le(m.three_pose_correctives_len));
        lemma_split(s, at, c3, u32_le(m.two_pose_correctives_len));
        lemma_split(s, at, c2, u64_le(m.quantized_transforms_len));
        lemma_split(s, at, c1, u32_le(m.face_control_names_len));
        lemma_le_u32_window(s, at);
        lemma_le_u32_window(s, at + 4);
        lemma_le_u32_window(s, at + 8);
        lemma_le_u32_window(s, at + 12);
        let w = s.subrange(at + 8, at + 16);
        lemma_le_u32_window(w, 0);
        lemma_le_u32_window(w, 4);
        assert(w.subrange(0, 4) =~= s.subrange(at + 8, at + 12));
        assert(w.subrange(4, 8) =~= s.subrange(at + 12, at + 16));
        assert(le_u64(s, at + 8) == le_u64(w, 0));
        lemma_le_u32_window(s, at + 16);
        lemma_le_u32_window(s, at + 20);
    }
    if m.face_bone_names_len == le_u32(s, at) && m.face_control_names_len == le_u32(s, at + 4)
        && m.quantized_transforms_len == le_u64(s, at + 8) && m.two_pose_correctives_len == le_u32(
        s,
        at + 16,
    ) && m.three_pose_correctives_len == le_u32(s, at + 20) {
        lemma_le_u32(s, at);
        lemma_le_u32(s, at + 4);
        lemma_le_u64(s, at + 8);
        lemma_le_u32(s, at + 16);
        lemma_le_u32(s, at + 20);
        lemma_join(s, at, at + 4, at + 8);
        lemma_join(s, at, at + 8, at + 16);
        lemma_join(s, at, at + 16, at + 20);
        lemma_join(s, at, at + 20, at + 24);
    }
}

impl Framed for Facs5View {
    open spec fn wf(self) -> bool {
        &&& self.face_bone_names.len() == self.face_bone_names_len
        &&& self.face_control_names.len() == self.face_control_names_len
        &&& self.quantized_transforms.len() == 6
        &&& all_wf(self.quantized_transforms)
        &&& self.two_pose_correctives.len() == self.two_count()
        &&& self.three_pose_correctives.len() == self.three_count()
    }

    open spec fn bytes(self) -> Seq<u8> {
        self.lens() + self.face_bone_names + self.face_control_names + frames_bytes(
            self.quantized_transforms,
        ) + seq_bytes(self.two_pose_correctives) + seq_bytes(self.three_pose_correctives)
    }

    open spec fn parse(s: Seq<u8>, at: int) -> Result<(Self, int), BinErrorView> {
        facs_parse(s, at)
    }

    proof fn lemma_read_write(s: Seq<u8>, at: int, m: Self, end: int) {
        reveal(facs_parse);
        lemma_facs_lens(m, s, at);
        let a1 = at + 24;
        let a2 = a1 + m.face_bone_names_len;
        let a3 = a2 + m.face_control_names_len;
        let r = parse_count::<QuantizedMatrix5View>(s, a3, 6);
        let a4 = r->Ok_0.1;
        lemma_count_read_write::<QuantizedMatrix5View>(s, a3, 6, m.quantized_transforms, a4);
        let a5 = a4 + m.two_count() * 4;
        lemma_seq_bytes_of_parse::<TwoPoseCorrective5>(s, a4, m.two_count());
        lemma_seq_bytes_of_parse::<ThreePoseCorrective5>(s, a5, m.three_count());
        lemma_join(s, at, a1, a2);
        lemma_join(s, at, a2, a3);
        lemma_join(s, at, a3, a4);
        lemma_join(s, at, a4, a5);
        lemma_join(s, at, a5, end);
    }

    proof fn lemma_write_read(self, s: Seq<u8>, at: int) {
        reveal(facs_parse);
        let lb = self.lens();
        let nb = self.face_bone_names;
        let cb = self.face_control_names;
        let qb = frames_bytes(self.quantized_transforms);
        let tb = seq_bytes(self.two_pose_correctives);
        let hb = seq_bytes(self.three_pose_correctives);
        lemma_facs_lens(self, lb, 0);
        lemma_seq_bytes_len(self.two_pose_correctives);
        lemma_seq_bytes_len(self.three_pose_correctives);
        lemma_split(s, at, lb + nb + cb + qb + tb, hb);
        lemma_split(s, at, lb + nb + cb + qb, tb);
        lemma_split(s, at, lb + nb + cb, qb);
        lemma_split(s, at, lb + nb, cb);
        lemma_split(s, at, lb, nb);
        lemma_facs_lens(self, s, at);
        let a1 = at + 24;
        let a2 = a1 + nb.len();
        let a3 = a2 + cb.len();
        let a4 = a3 + qb.len();
        let a5 = a4 + tb.len();
        lemma_count_write_read::<QuantizedMatrix5View>(self.quantized_transforms, s, a3);
        lemma_parse_seq_at::<TwoPoseCorrective5>(s, a4, self.two_pose_correctives);
        lemma_parse_seq_at::<ThreePoseCorrective5>(s, a5, self.three_pose_correctives);
    }

    proof fn lemma_cut(s: Seq<u8>, at: int, m: Self, end: int, k: int) {
        reveal(facs_parse);
        let a1 = at + 24;
        let a2 = a1 + m.face_bone_names_len;
        let a3 = a2 + m.face_control_names_len;
        let r = parse_count::<QuantizedMatrix5View>(s, a3, 6);
        let a4 = r->Ok_0.1;
        let a5 = a4 + m.two_count() * 4;
        lemma_count_read_write::<QuantizedMatrix5View>(s, a3, 6, m.quantized_transforms, a4);
        if k >= a3 {
            lemma_count_cut::<QuantizedMatrix5View>(s, a3, 6, m.quantized_transforms, a4, k);
            assert(s.take(k).subrange(a1, a2) =~= s.subrange(a1, a2));
            assert(s.take(k).subrange(a2, a3) =~= s.subrange(a2, a3));
            if k >= at + 16 {
                lemma_le_u32_window(s, at + 8);
                lemma_le_u32_window(s, at + 12);
                lemma_le_u32_window(s.take(k), at + 8);
                lemma_le_u32_window(s.take(k), at + 12);
                assert(s.take(k).subrange(at + 8, at + 12) =~= s.subrange(at + 8, at + 12));
                assert(s.take(k).subrange(at + 12, at + 16) =~= s.subrange(at + 12, at + 16));
            }
            if k >= end {
                lemma_parse_seq_cut::<TwoPoseCorrective5>(s, a4, m.two_count(), k);
                lemma_parse_seq_cut::<ThreePoseCorrective5>(s, a5, m.three_count(), k);
            }
        }
    }
}

impl Facs5 {
    /// Reads the block at `at`; gives it with the place where it ends.
    pub fn get(data: &[u8], at: usize) -> (r: Result<(Facs5, usize), BinError>)
        requires
            at <= data.len(),
        ensures
            match r {
                Ok((m, end)) => facs_parse(data@, at as int) == Ok::<
                    (Facs5View, int),
                    BinErrorView,
                >((m@, end as int)),
                Err(e) => facs_parse(data@, at as int) == Err::<(Facs5View, int), BinErrorView>(e@),
            },
    {
        proof {
            reveal(facs_parse);
        }
        if data.len() - at < 24 {
            return Err(BinError::UnexpectedEof);
        }
        let face_bone_names_len = get_u32(data, at);
        let face_control_names_len = get_u32(data, at + 4);
        let quantized_transforms_len = get_u64(data, at + 8);
        let two_pose_correctives_len = get_u32(data, at + 16);
        let three_pose_correctives_len = get_u32(data, at + 20);
        let a1 = at + 24;
        let face_bone_names = get_bytes(data, a1, face_bone_names_len as usize)?;
        let a2 = a1 + face_bone_names_len as usize;
        let face_control_names = get_bytes(data, a2, face_control_names_len as usize)?;
        let a3 = a2 + face_control_names_len as usize;
        let (quantized_transforms, a4) = QuantizedTransforms5::get(data, a3)?;
        let two = (two_pose_correctives_len / 4) as usize;
        let three = (three_pose_correctives_len / 6) as usize;
        let two_pose_correctives = get_seq::<TwoPoseCorrective5>(data, a4, two)?;
        let a5 = a4 + two * 4;
        let three_pose_correctives = get_seq::<ThreePoseCorrective5>(data, a5, three)?;
        let end = a5 + three * 6;
        Ok(
            (
                Facs5 {
                    face_bone_names_len,
                    face_control_names_len,
                    quantized_transforms_len,
                    two_pose_correctives_len,
                    three_pose_correctives_len,
                    face_bone_names,
                    face_control_names,
                    quantized_transforms,
                    two_pose_correctives,
                    three_pose_correctives,
                },
                end,
            ),
        )
    }

    /// Appends the block.
    pub fn put(&self, out: &mut Vec<u8>)
        ensures
            final(out)@ == old(out)@ + self@.bytes(),
    {
        put_u32(self.face_bone_names_len, out);
        put_u32(self.face_control_names_len, out);
        put_u64(self.quantized_transforms_len, out);
        put_u32(self.two_pose_correctives_len, out);
        put_u32(self.three_pose_correctives_len, out);
        assert(out@ =~= old(out)@ + self@.lens());
        put_bytes(self.face_bone_names.as_slice(), out);
        put_bytes(self.face_control_names.as_slice(), out);
        self.quantized_transforms.put(out);
        put_seq(&self.two_pose_correctives, out);
        put_seq(&self.three_pose_correctives, out);
        assert(out@ =~= old(out)@ + self@.bytes());
    }
}

/// A mesh of revision 5.00. `envelopes` is as long as `vertices` where
/// `header.bone_count` is not 0, and empty otherwise.
#[derive(Debug, Clone, PartialEq, Eq)]
pub struct Mesh5 {
    pub header: Header5,
    pub vertices: Vec<Vertex2>,
    pub envelopes: Vec<Envelope4>,
    pub faces: Vec<Face2>,
    pub lods: Vec<Lod3>,
    pub bones: Vec<Bone4>,
    pub bone_names: Vec<u8>,
    pub subsets: Vec<Subset4>,
    pub facs: Facs5,
}

/// The mathematical value of a [`Mesh5`].
pub struct Mesh5View {
    pub header: Header5,
    pub body: Body4View,
    pub facs: Facs5View,
}

impl View for Mesh5 {
    type V = Mesh5View;

    open spec fn view(&self) -> Mesh5View {
        Mesh5View {
            header: self.header,
            body: Body4View {
                vertices: self.vertices@,
                envelopes: self.envelopes@,
                faces: self.faces@,
                lods: self.lods@,
                bones: self.bones@,
                bone_names: self.bone_names@,
                subsets: self.subsets@,
            },
            facs: self.facs@,
        }
    }
}

impl Mesh5View {
    /// Every count of the header and of the facial-animation block is the
    /// length of the list it governs.
    pub open spec fn wf(self) -> bool {
        self.body.wf(self.header.sizes()) && self.facs.wf()
    }

    /// The bytes of the mesh: the header, the lists, the facial-animation
    /// block.
    pub open spec fn bytes(self) -> Seq<u8> {
        self.header.bytes() + self.body.bytes() + self.facs.bytes()
    }

    /// The mesh after the tangent fixup of each vertex.
    pub open spec fn fixed(self) -> Mesh5View {
        Mesh5View { body: self.body.fixed(), ..self }
    }

    /// What reading a mesh as the file holds it gives at `at`: the mesh and
    /// the place where it ends, or the failure of the layout.
    pub open spec fn read_raw(s: Seq<u8>, at: int) -> Result<(Mesh5View, int), ErrorView> {
        match Self::parse(s, at) {
            Ok(r) => Ok(r),
            Err(e) => Err(ErrorView::BinRead(e)),
        }
    }

    /// What reading a mesh gives at `at` once the tangent fixup is applied.
    pub open spec fn read_fixed(s: Seq<u8>, at: int) -> Result<(Mesh5View, int), ErrorView> {
        match Self::parse(s, at) {
            Ok((m, end)) => Ok((m.fixed(), end)),
            Err(e) => Err(ErrorView::BinRead(e)),
        }
    }

    /// The mesh that starts at `at` and the place where it ends; the
    /// failure of the first field that cannot be read otherwise.
    pub open spec fn parse(s: Seq<u8>, at: int) -> Result<(Mesh5View, int), BinErrorView> {
        match Header5::parse(s, at) {
            Err(e) => Err(e),
            Ok(header) => match Body4View::parse(s, at + 45, header.sizes()) {
                Err(e) => Err(e),
                Ok((body, a1)) => match facs_parse(s, a1) {
                    Err(e) => Err(e),
                    Ok((facs, end)) => Ok((Mesh5View { header, body, facs }, end)),
                },
            },
        }
    }

    /// What was read is well formed, and writing it gives back exactly the
    /// bytes it was read from.
    pub proof fn lemma_read_write(s: Seq<u8>, at: int, m: Mesh5View, end: int)
        requires
            0 <= at <= s.len(),
            Self::parse(s, at) == Ok::<(Mesh5View, int), BinErrorView>((m, end)),
        ensures
            m.wf(),
            at <= end <= s.len(),
            m.bytes() == s.subrange(at, end),
    {
        Header5::lemma_parse_bytes(s, at, m.header);
        let a1 = Body4View::parse(s, at + 45, m.header.sizes())->Ok_0.1;
        Body4View::lemma_read_write(s, at + 45, m.header.sizes(), m.body, a1);
        Facs5View::lemma_read_write(s, a1, m.facs, end);
        lemma_join(s, at, at + 45, a1);
        lemma_join(s, at, a1, end);
    }

    /// A well-formed mesh is read back from its bytes, wherever they stand.
    #[verifier::rlimit(30)]
    pub proof fn lemma_write_read(self, s: Seq<u8>, at: int)
        requires
            self.wf(),
            0 <= at,
            at + self.bytes().len() <= s.len(),
            s.subrange(at, at + self.bytes().len()) == self.bytes(),
        ensures
            Self::parse(s, at) == Ok::<(Mesh5View, int), BinErrorView>(
                (self, at + self.bytes().len()),
            ),
    {
        let hb = self.header.bytes();
        let bb = self.body.bytes();
        let fb = self.facs.bytes();
        let a1 = at + 45;
        let a2 = a1 + bb.len();
        assert(hb.len() == 45) by {
            self.header.lemma_len();
        }
        assert(s.subrange(at, a1) == hb && s.subrange(a1, a2) == bb && s.subrange(
            a2,
            a2 + fb.len(),
        ) == fb) by {
            lemma_split(s, at, hb + bb, fb);
            lemma_split(s, at, hb, bb);
        }
        assert(Header5::parse(s, at) == Ok::<Header5, BinErrorView>(self.header)) by {
            self.header.lemma_bytes_parse(s, at);
        }
        assert(Body4View::parse(s, a1, self.header.sizes()) == Ok::<(Body4View, int), BinErrorView>(
            (self.body, a2),
        )) by {
            self.body.lemma_write_read(s, a1, self.header.sizes());
        }
        assert(facs_parse(s, a2) == Ok::<(Facs5View, int), BinErrorView>(
            (self.facs, a2 + fb.len()),
        )) by {
            self.facs.lemma_write_read(s, a2);
        }
    }

    /// An input cut short inside a mesh that was read ends too early: it is
    /// never read as a shorter mesh.
    pub proof fn lemma_cut(s: Seq<u8>, at: int, m: Mesh5View, end: int, k: int)
        requires
            0 <= at <= k <= s.len(),
            Self::parse(s, at) == Ok::<(Mesh5View, int), BinErrorView>((m, end)),
            k < end,
        ensures
            Self::parse(s.take(k), at) == Err::<(Mesh5View, int), BinErrorView>(
                BinErrorView::UnexpectedEof,
            ),
    {
        Header5::lemma_parse_bytes(s, at, m.header);
        Header5::lemma_cut(s, at, k);
        if k >= at + 45 {
            let a1 = Body4View::parse(s, at + 45, m.header.sizes())->Ok_0.1;
            Body4View::lemma_read_write(s, at + 45, m.header.sizes(), m.body, a1);
            Body4View::lemma_cut(s, at + 45, m.header.sizes(), m.body, a1, k);
            if k >= a1 {
                Facs5View::lemma_cut(s, a1, m.facs, end, k);
            }
        }
    }
}

impl Mesh5 {
    /// Reads the mesh at `at`; gives it with the place where it ends.
    pub fn get(data: &[u8], at: usize) -> (r: Result<(Mesh5, usize), BinError>)
        requires
            at <= data.len(),
        ensures
            match r {
                Ok((m, end)) => Mesh5View::parse(data@, at as int) == Ok::<
                    (Mesh5View, int),
                    BinErrorView,
                >((m@, end as int)),
                Err(e) => Mesh5View::parse(data@, at as int) == Err::<
                    (Mesh5View, int),
                    BinErrorView,
                >(e@),
            },
    {
        let header = Header5::get(data, at)?;
        let (body, a1) = Body4::get(data, at + 45, header.to_header4().counts4())?;
        proof {
            Body4View::lemma_read_write(
                data@,
                at + 45,
                header.sizes(),
                body@,
                a1 as int,
            );
        }
        let (facs, end) = Facs5::get(data, a1)?;
        Ok(
            (
                Mesh5 {
                    header,
                    vertices: body.vertices,
                    envelopes: body.envelopes,
                    faces: body.faces,
                    lods: body.lods,
                    bones: body.bones,
                    bone_names: body.bone_names,
                    subsets: body.subsets,
                    facs,
                },
                end,
            ),
        )
    }

    /// Appends the bytes of the mesh to `out`.
    pub fn write_le(&self, out: &mut Vec<u8>)
        ensures
            final(out)@ == old(out)@ + self@.bytes(),
    {
        let ghost b0 = out@;
        self.header.put(out);
        put_body4(
            &self.vertices,
            &self.envelopes,
            &self.faces,
            &self.lods,
            &self.bones,
            &self.bone_names,
            &self.subsets,
            out,
        );
        proof {
            lemma_assoc(b0, self@.header.bytes(), self@.body.bytes());
        }
        self.facs.put(out);
        proof {
            lemma_assoc(b0, self@.header.bytes() + self@.body.bytes(), self@.facs.bytes());
        }
    }
}

/// Replaces the sentinel tangent of every vertex by the default tangent.
pub fn fix5(mesh: &mut Mesh5)
    ensures
        final(mesh)@ == old(mesh)@.fixed(),
{
    fix_vertices(&mut mesh.vertices);
}

/// Reads a mesh of revision 5.00 as the file holds it, from the position of
/// `read` on, and leaves `read` behind its last byte. On a failure `read`
/// stays where it was.
pub fn read5(read: &mut Cursor) -> (r: Result<Mesh5, Error>)
    ensures
        final(read).bytes() == old(read).bytes(),
        match r {
            Ok(m) => Mesh5View::read_raw(old(read).bytes(), old(read).start()) == Ok::<
                (Mesh5View, int),
                ErrorView,
            >((m@, final(read).offset())),
            Err(e) => Mesh5View::read_raw(old(read).bytes(), old(read).start()) == Err::<
                (Mesh5View, int),
                ErrorView,
            >(e@) && final(read).offset() == old(read).offset(),
        },
{
    match Mesh5::get(read.get_ref(), read.index()) {
        Ok((m, end)) => {
            read.set_position(end);
            Ok(m)
        },
        Err(e) => Err(Error::BinRead(e)),
    }
}

/// Reads a mesh of revision 5.00 and applies the tangent fixup.
pub fn read_500(read: &mut Cursor) -> (r: Result<Mesh5, Error>)
    ensures
        final(read).bytes() == old(read).bytes(),
        match r {
            Ok(m) => Mesh5View::read_fixed(old(read).bytes(), old(read).start()) == Ok::<
                (Mesh5View, int),
                ErrorView,
            >((m@, final(read).offset())),
            Err(e) => Mesh5View::read_fixed(old(read).bytes(), old(read).start()) == Err::<
                (Mesh5View, int),
                ErrorView,
            >(e@) && final(read).offset() == old(read).offset(),
        },
{
    let mut mesh = read5(read)?;
    fix5(&mut mesh);
    Ok(mesh)
}

} // verus!
