//! The solid-geometry family: files that begin `CSGK` or, under the pad,
//! `CSGMDL`.

use vstd::prelude::*;
use crate::frame::Framed;
use crate::stream::Cursor;
use crate::wire::{
    BinError, BinErrorView, Plain, check_need, expect_magic, get_bytes, lemma_split, lemma_u32_le,
    magic_at, need, put_bytes, then, u32_le,
};
use crate::mesh_data::csgmdl::magic_csgmdl;
use crate::mesh_data::csgmdl5::{
    csgmdl5_parse, lemma_csgmdl5_cut, lemma_csgmdl5_end, magic_csgmdl5,
};
use crate::mesh_data::obfuscation::{
    lemma_obfuscated_subrange, lemma_obfuscation_involution, obfuscated, pad_at,
};

pub mod obfuscation;
pub mod faces;
pub mod csgmdl;
pub mod csgmdl5;

pub use crate::wire::{
    BinError as Error, CustomError, FacesStateMachineError, NormalIDError, WriteMeshDataError,
};
pub use self::obfuscation::{OBFUSCATION_NOISE_CYCLE_XOR, Obfuscator, reversible_obfuscate};
pub use self::faces::{Faces5, Faces5View, read_state_machine, write_state_machine};
pub use self::csgmdl::{
    NormalId, NormalId2, Vertex, VertexId, Mesh2, Mesh2View, CSGMDL2, CSGMDL2View, CSGMDL4,
    CSGMDL4View,
};
pub use self::csgmdl5::{
    NormalId5, QuantizedF32x3, CSGMDL5, CSGMDL5View, parse_quantized_f32x3_array,
};

verus! {

/// The bytes of `CSGK`.
pub open spec fn magic_csgk() -> Seq<u8> {
    seq![0x43u8, 0x53u8, 0x47u8, 0x4bu8]
}

/// The bytes of `CSGMDL` under the pad.
pub open spec fn magic_csgmdl_hidden() -> Seq<u8> {
    seq![0x15u8, 0x7du8, 0x29u8, 0x15u8, 0x75u8, 0x6cu8]
}

/// A file that holds nothing but the key of a solid.
#[derive(Debug, Clone, Copy, PartialEq, Eq)]
pub struct CSGK {
    pub uuid_ascii_hex: [u8; 32],
}

impl CSGK {
    /// The 36 bytes of the file.
    pub open spec fn bytes(self) -> Seq<u8> {
        magic_csgk() + self.uuid_ascii_hex.bytes()
    }

    /// The key that follows the name `CSGK` at `at`.
    pub open spec fn parse(s: Seq<u8>, at: int) -> Result<CSGK, BinErrorView> {
        then(
            magic_at(s, at, magic_csgk()),
            then(
                need(s, at + 4, 32),
                Ok(CSGK { uuid_ascii_hex: <[u8; 32]>::parse(s.subrange(at + 4, at + 36)) }),
            ),
        )
    }

    /// Reads the key at `at`.
    pub fn get(data: &[u8], at: usize) -> (r: Result<CSGK, BinError>)
        requires
            at <= data.len(),
        ensures
            match r {
                Ok(c) => at + 36 <= data.len() && Self::parse(data@, at as int) == Ok::<
                    CSGK,
                    BinErrorView,
                >(c),
                Err(e) => Self::parse(data@, at as int) == Err::<CSGK, BinErrorView>(e@),
            },
    {
        let name: [u8; 4] = [0x43, 0x53, 0x47, 0x4b];
        assert(name@ =~= magic_csgk());
        expect_magic(data, at, name.as_slice())?;
        check_need(data, at + 4, 32)?;
        Ok(CSGK { uuid_ascii_hex: <[u8; 32]>::get(data, at + 4) })
    }

    /// Appends the 36 bytes of the file.
    pub fn put(&self, out: &mut Vec<u8>)
        ensures
            final(out)@ == old(out)@ + self.bytes(),
    {
        let name: [u8; 4] = [0x43, 0x53, 0x47, 0x4b];
        assert(name@ =~= magic_csgk());
        put_bytes(name.as_slice(), out);
        self.uuid_ascii_hex.put(out);
        assert(out@ =~= old(out)@ + self.bytes());
    }

    /// A key is read back from its bytes, and a key that was read has the
    /// bytes it was read from.
    pub proof fn lemma_csgk(self, s: Seq<u8>, at: int)
        requires
            0 <= at,
            at + 36 <= s.len(),
        ensures
            self.bytes().len() == 36,
            s.subrange(at, at + 36) == self.bytes() <==> Self::parse(s, at) == Ok::<
                CSGK,
                BinErrorView,
            >(self),
    {
        <[u8; 32]>::lemma_plain(self.uuid_ascii_hex, s.subrange(at + 4, at + 36));
        if s.subrange(at, at + 36) == self.bytes() {
            lemma_split(s, at, magic_csgk(), self.uuid_ascii_hex.bytes());
        }
        if Self::parse(s, at) == Ok::<CSGK, BinErrorView>(self) {
            assert(s.subrange(at, at + 4) + s.subrange(at + 4, at + 36) =~= s.subrange(
                at,
                at + 36,
            ));
        }
    }
}

/// The revision of a solid, as the four bytes behind the hidden name say
/// it: the numbers 2, 4 and 5 under the pad.
#[derive(Debug, Clone, Copy, PartialEq, Eq)]
pub enum HeaderVersion {
    CSGMDL2,
    CSGMDL4,
    CSGMDL5,
}

impl HeaderVersion {
    /// The number of the revision.
    pub open spec fn number(self) -> u32 {
        match self {
            HeaderVersion::CSGMDL2 => 2,
            HeaderVersion::CSGMDL4 => 4,
            HeaderVersion::CSGMDL5 => 5,
        }
    }

    /// The four bytes that stand for the revision in a file.
    pub open spec fn tag(self) -> Seq<u8> {
        match self {
            HeaderVersion::CSGMDL2 => seq![0x32u8, 0x04u8, 0x34u8, 0x69u8],
            HeaderVersion::CSGMDL4 => seq![0x34u8, 0x04u8, 0x34u8, 0x69u8],
            HeaderVersion::CSGMDL5 => seq![0x35u8, 0x04u8, 0x34u8, 0x69u8],
        }
    }

    /// The revision named by the four bytes at `at`.
    pub open spec fn parse(s: Seq<u8>, at: int) -> Result<HeaderVersion, BinErrorView> {
        if s.len() - at < 4 {
            Err(BinErrorView::UnexpectedEof)
        } else if s.subrange(at, at + 4) == HeaderVersion::CSGMDL2.tag() {
            Ok(HeaderVersion::CSGMDL2)
        } else if s.subrange(at, at + 4) == HeaderVersion::CSGMDL4.tag() {
            Ok(HeaderVersion::CSGMDL4)
        } else if s.subrange(at, at + 4) == HeaderVersion::CSGMDL5.tag() {
            Ok(HeaderVersion::CSGMDL5)
        } else {
            Err(BinErrorView::BadMagic { pos: at, found: s.subrange(at, at + 4) })
        }
    }

    /// Reads the revision at `at`.
    pub fn get(data: &[u8], at: usize) -> (r: Result<HeaderVersion, BinError>)
        requires
            at <= data.len(),
        ensures
            match r {
                Ok(v) => at + 4 <= data.len() && Self::parse(data@, at as int) == Ok::<
                    HeaderVersion,
                    BinErrorView,
                >(v),
                Err(e) => Self::parse(data@, at as int) == Err::<HeaderVersion, BinErrorView>(e@),
            },
    {
        let found = get_bytes(data, at, 4)?;
        let tail = found[1] == 0x04 && found[2] == 0x34 && found[3] == 0x69;
        let head = found[0];
        assert((tail && head == 0x32) == (found@ =~= HeaderVersion::CSGMDL2.tag()));
        assert((tail && head == 0x34) == (found@ =~= HeaderVersion::CSGMDL4.tag()));
        assert((tail && head == 0x35) == (found@ =~= HeaderVersion::CSGMDL5.tag()));
        if tail && head == 0x32 {
            Ok(HeaderVersion::CSGMDL2)
        } else if tail && head == 0x34 {
            Ok(HeaderVersion::CSGMDL4)
        } else if tail && head == 0x35 {
            Ok(HeaderVersion::CSGMDL5)
        } else {
            Err(BinError::BadMagic { pos: at as u64, found })
        }
    }
}

/// What the first bytes of a file say it holds.
#[derive(Debug, Clone, Copy, PartialEq, Eq)]
pub enum Header {
    CSGK(CSGK),
    CSGMDL(HeaderVersion),
}

/// The header at `at` and the place where it ends: a key where the name
/// `CSGK` stands there, the revision of a solid otherwise.
pub open spec fn header_parse(s: Seq<u8>, at: int) -> Result<(Header, int), BinErrorView> {
    if s.len() - at < 4 {
        Err(BinErrorView::UnexpectedEof)
    } else if s.subrange(at, at + 4) == magic_csgk() {
        match CSGK::parse(s, at) {
            Err(e) => Err(e),
            Ok(c) => Ok((Header::CSGK(c), at + 36)),
        }
    } else {
        match magic_at(s, at, magic_csgmdl_hidden()) {
            Err(e) => Err(e),
            Ok(_) => match HeaderVersion::parse(s, at + 6) {
                Err(e) => Err(e),
                Ok(v) => Ok((Header::CSGMDL(v), at + 10)),
            },
        }
    }
}

impl Header {
    /// Reads the header at `at`; gives it with the place where it ends.
    pub fn get(data: &[u8], at: usize) -> (r: Result<(Header, usize), BinError>)
        requires
            at <= data.len(),
        ensures
            match r {
                Ok((h, end)) => end <= data.len() && header_parse(data@, at as int) == Ok::<
                    (Header, int),
                    BinErrorView,
                >((h, end as int)),
                Err(e) => header_parse(data@, at as int) == Err::<(Header, int), BinErrorView>(e@),
            },
    {
        if data.len() - at < 4 {
            return Err(BinError::UnexpectedEof);
        }
        let key = data[at] == 0x43 && data[at + 1] == 0x53 && data[at + 2] == 0x47 && data[at + 3]
            == 0x4b;
        proof {
            let w = data@.subrange(at as int, at + 4);
            assert(w[0] == data@[at as int] && w[1] == data@[at + 1] && w[2] == data@[at + 2]
                && w[3] == data@[at + 3]);
            assert(key == (w =~= magic_csgk()));
        }
        if key {
            let c = CSGK::get(data, at)?;
            Ok((Header::CSGK(c), at + 36))
        } else {
            let name: [u8; 6] = [0x15, 0x7d, 0x29, 0x15, 0x75, 0x6c];
            assert(name@ =~= magic_csgmdl_hidden());
            expect_magic(data, at, name.as_slice())?;
            let v = HeaderVersion::get(data, at + 6)?;
            Ok((Header::CSGMDL(v), at + 10))
        }
    }
}

/// A solid of one of the three revisions.
#[derive(Debug, Clone, PartialEq, Eq)]
pub enum CSGMDL {
    V2(CSGMDL2),
    V4(CSGMDL4),
    V5(CSGMDL5),
}

/// The mathematical value of a [`CSGMDL`].
pub enum CSGMDLView {
    V2(CSGMDL2View),
    V4(CSGMDL4View),
    V5(CSGMDL5View),
}

impl View for CSGMDL {
    type V = CSGMDLView;

    open spec fn view(&self) -> CSGMDLView {
        match *self {
            CSGMDL::V2(m) => CSGMDLView::V2(m@),
            CSGMDL::V4(m) => CSGMDLView::V4(m@),
            CSGMDL::V5(m) => CSGMDLView::V5(m@),
        }
    }
}

/// What a file of the family holds.
#[derive(Debug, Clone, PartialEq, Eq)]
pub enum MeshData {
    CSGK(CSGK),
    CSGMDL(CSGMDL),
}

/// The mathematical value of a [`MeshData`].
pub enum MeshDataView {
    CSGK(CSGK),
    CSGMDL(CSGMDLView),
}

impl View for MeshData {
    type V = MeshDataView;

    open spec fn view(&self) -> MeshDataView {
        match *self {
            MeshData::CSGK(c) => MeshDataView::CSGK(c),
            MeshData::CSGMDL(m) => MeshDataView::CSGMDL(m@),
        }
    }
}

impl MeshDataView {
    /// The value can be written: it is not of revision 5.
    pub open spec fn writable(self) -> bool {
        !(self matches MeshDataView::CSGMDL(CSGMDLView::V5(_)))
    }

    /// The counts of the value are the lengths of the lists they govern.
    pub open spec fn wf(self) -> bool {
        match self {
            MeshDataView::CSGK(_) => true,
            MeshDataView::CSGMDL(CSGMDLView::V2(m)) => m.wf(),
            MeshDataView::CSGMDL(CSGMDLView::V4(m)) => m.wf(),
            MeshDataView::CSGMDL(CSGMDLView::V5(_)) => true,
        }
    }

    /// The bytes of the value before the pad is put on. Revision 5 has
    /// none.
    pub open spec fn clear_bytes(self) -> Seq<u8> {
        match self {
            MeshDataView::CSGK(c) => c.bytes(),
            MeshDataView::CSGMDL(CSGMDLView::V2(m)) => m.bytes(),
            MeshDataView::CSGMDL(CSGMDLView::V4(m)) => m.bytes(),
            MeshDataView::CSGMDL(CSGMDLView::V5(_)) => Seq::empty(),
        }
    }

    /// The bytes of the value as they come to stand at stream offset
    /// `offset`: a key in the clear, a solid under the pad.
    pub open spec fn file_bytes(self, offset: int) -> Seq<u8> {
        match self {
            MeshDataView::CSGK(c) => c.bytes(),
            _ => obfuscated(self.clear_bytes(), offset),
        }
    }
}

/// What the file `s` holds, where reading starts at `at`, and the place
/// where the value ends. The header is read at `at`; a solid is then read
/// from the first byte of the file on, revisions 2 and 4 through the pad
/// and revision 5 as it stands.
#[verifier::opaque]
pub open spec fn meshdata_parse(s: Seq<u8>, at: int) -> Result<(MeshDataView, int), BinErrorView> {
    match header_parse(s, at) {
        Err(e) => Err(e),
        Ok((Header::CSGK(c), end)) => Ok((MeshDataView::CSGK(c), end)),
        Ok((Header::CSGMDL(HeaderVersion::CSGMDL2), _)) => match CSGMDL2View::parse(
            obfuscated(s, 0),
            0,
        ) {
            Err(e) => Err(e),
            Ok((m, end)) => Ok((MeshDataView::CSGMDL(CSGMDLView::V2(m)), end)),
        },
        Ok((Header::CSGMDL(HeaderVersion::CSGMDL4), _)) => match CSGMDL4View::parse(
            obfuscated(s, 0),
            0,
        ) {
            Err(e) => Err(e),
            Ok((m, end)) => Ok((MeshDataView::CSGMDL(CSGMDLView::V4(m)), end)),
        },
        Ok((Header::CSGMDL(HeaderVersion::CSGMDL5), _)) => match csgmdl5_parse(s, 0) {
            Err(e) => Err(e),
            Ok((m, end)) => Ok((MeshDataView::CSGMDL(CSGMDLView::V5(m)), end)),
        },
    }
}

/// The name `CSGMDL` and a revision number, put under the pad at the start
/// of a file, are the hidden name and the tag of that revision.
pub proof fn lemma_hidden_name(v: HeaderVersion)
    ensures
        obfuscated(magic_csgmdl() + u32_le(v.number()), 0) == magic_csgmdl_hidden() + v.tag(),
        magic_csgmdl_hidden() + HeaderVersion::CSGMDL5.tag() == magic_csgmdl5(),
{
    lemma_u32_le(v.number());
    assert(0x43u8 ^ 86u8 == 0x15u8) by (bit_vector);
    assert(0x53u8 ^ 46u8 == 0x7du8) by (bit_vector);
    assert(0x47u8 ^ 110u8 == 0x29u8) by (bit_vector);
    assert(0x4du8 ^ 88u8 == 0x15u8) by (bit_vector);
    assert(0x44u8 ^ 49u8 == 0x75u8) by (bit_vector);
    assert(0x4cu8 ^ 32u8 == 0x6cu8) by (bit_vector);
    assert(2u8 ^ 48u8 == 0x32u8) by (bit_vector);
    assert(4u8 ^ 48u8 == 0x34u8) by (bit_vector);
    assert(5u8 ^ 48u8 == 0x35u8) by (bit_vector);
    assert(0u8 ^ 4u8 == 0x04u8) by (bit_vector);
    assert(0u8 ^ 52u8 == 0x34u8) by (bit_vector);
    assert(0u8 ^ 105u8 == 0x69u8) by (bit_vector);
    let clear = magic_csgmdl() + u32_le(v.number());
    let hidden = magic_csgmdl_hidden() + v.tag();
    assert(clear.len() == 10);
    assert forall|i: int| 0 <= i < 10 implies obfuscated(clear, 0)[i] == hidden[i] by {
        assert(pad_at(0) == 86 && pad_at(1) == 46 && pad_at(2) == 110 && pad_at(3) == 88 && pad_at(
            4,
        ) == 49 && pad_at(5) == 32 && pad_at(6) == 48 && pad_at(7) == 4 && pad_at(8) == 52
            && pad_at(9) == 105);
    }
    assert(obfuscated(clear, 0) =~= hidden);
    assert(magic_csgmdl_hidden() + HeaderVersion::CSGMDL5.tag() =~= magic_csgmdl5());
}

/// Where the clear bytes of a solid start with the name and the number of
/// its revision, the file starts with the header of that revision.
pub proof fn lemma_hidden_header(s: Seq<u8>, v: HeaderVersion, rest: Seq<u8>)
    requires
        s.len() >= 10 + rest.len(),
        obfuscated(s, 0).subrange(0, (10 + rest.len()) as int) == magic_csgmdl() + u32_le(
            v.number(),
        ) + rest,
    ensures
        header_parse(s, 0) == Ok::<(Header, int), BinErrorView>((Header::CSGMDL(v), 10)),
{
    lemma_u32_le(v.number());
    lemma_hidden_name(v);
    let clear = obfuscated(s, 0);
    let head = magic_csgmdl() + u32_le(v.number());
    lemma_split(clear, 0, head, rest);
    lemma_obfuscated_subrange(s, 0, 0, 10);
    lemma_obfuscation_involution(s.subrange(0, 10), 0);
    assert(s.subrange(0, 10) == magic_csgmdl_hidden() + v.tag());
    lemma_split(s, 0, magic_csgmdl_hidden(), v.tag());
    assert(s.subrange(0, 4) =~= (magic_csgmdl_hidden() + v.tag()).subrange(0, 4));
    assert(s.subrange(0, 4)[0] == 0x15);
    assert(HeaderVersion::CSGMDL2.tag()[0] != HeaderVersion::CSGMDL4.tag()[0]);
    assert(HeaderVersion::CSGMDL2.tag()[0] != HeaderVersion::CSGMDL5.tag()[0]);
    assert(HeaderVersion::CSGMDL4.tag()[0] != HeaderVersion::CSGMDL5.tag()[0]);
}

/// The clear bytes of a solid stand under the pad at the start of `s`.
proof fn lemma_clear_prefix(s: Seq<u8>, clear: Seq<u8>)
    requires
        clear.len() <= s.len(),
        s.subrange(0, clear.len() as int) == obfuscated(clear, 0),
    ensures
        obfuscated(s, 0).len() == s.len(),
        obfuscated(s, 0).subrange(0, clear.len() as int) == clear,
{
    lemma_obfuscated_subrange(s, 0, 0, clear.len() as int);
    lemma_obfuscation_involution(clear, 0);
}

/// A well-formed solid of revision 2 is read back from the bytes of its
/// file.
proof fn lemma_write_read_v2(v: CSGMDL2View, s: Seq<u8>)
    requires
        v.wf(),
        v.bytes().len() <= s.len(),
        s.subrange(0, v.bytes().len() as int) == obfuscated(v.bytes(), 0),
    ensures
        meshdata_parse(s, 0) == Ok::<(MeshDataView, int), BinErrorView>(
            (MeshDataView::CSGMDL(CSGMDLView::V2(v)), v.bytes().len() as int),
        ),
{
    let clear = v.bytes();
    let rest = v.hash.bytes() + v.mesh.bytes();
    lemma_clear_prefix(s, clear);
    assert(header_parse(s, 0) == Ok::<(Header, int), BinErrorView>(
        (Header::CSGMDL(HeaderVersion::CSGMDL2), 10),
    )) by {
        lemma_u32_le(2);
        assert(clear =~= magic_csgmdl() + u32_le(2) + rest);
        lemma_hidden_header(s, HeaderVersion::CSGMDL2, rest);
    }
    assert(CSGMDL2View::parse(obfuscated(s, 0), 0) == Ok::<(CSGMDL2View, int), BinErrorView>(
        (v, clear.len() as int),
    )) by {
        v.lemma_write_read(obfuscated(s, 0), 0);
    }
    reveal(meshdata_parse);
}

/// A well-formed solid of revision 4 is read back from the bytes of its
/// file.
proof fn lemma_write_read_v4(v: CSGMDL4View, s: Seq<u8>)
    requires
        v.wf(),
        v.bytes().len() <= s.len(),
        s.subrange(0, v.bytes().len() as int) == obfuscated(v.bytes(), 0),
    ensures
        meshdata_parse(s, 0) == Ok::<(MeshDataView, int), BinErrorView>(
            (MeshDataView::CSGMDL(CSGMDLView::V4(v)), v.bytes().len() as int),
        ),
{
    let clear = v.bytes();
    let rest = v.hash.bytes() + v.mesh.bytes() + u32_le(v._unknown1_count) + crate::wire::seq_bytes(
        v._unknown1_list,
    );
    lemma_clear_prefix(s, clear);
    assert(header_parse(s, 0) == Ok::<(Header, int), BinErrorView>(
        (Header::CSGMDL(HeaderVersion::CSGMDL4), 10),
    )) by {
        lemma_u32_le(4);
        assert(clear =~= magic_csgmdl() + u32_le(4) + rest);
        lemma_hidden_header(s, HeaderVersion::CSGMDL4, rest);
    }
    assert(CSGMDL4View::parse(obfuscated(s, 0), 0) == Ok::<(CSGMDL4View, int), BinErrorView>(
        (v, clear.len() as int),
    )) by {
        v.lemma_write_read(obfuscated(s, 0), 0);
    }
    reveal(meshdata_parse);
}

/// A key is read back from the bytes of its file.
proof fn lemma_write_read_csgk(c: CSGK, s: Seq<u8>)
    requires
        c.bytes().len() <= s.len(),
        s.subrange(0, c.bytes().len() as int) == c.bytes(),
    ensures
        meshdata_parse(s, 0) == Ok::<(MeshDataView, int), BinErrorView>(
            (MeshDataView::CSGK(c), c.bytes().len() as int),
        ),
{
    c.lemma_csgk(c.bytes() + Seq::new(36, |i: int| 0u8), 0);
    c.lemma_csgk(s, 0);
    lemma_split(s, 0, magic_csgk(), c.uuid_ascii_hex.bytes());
    reveal(meshdata_parse);
}

/// A well-formed value that can be written is read back from the bytes of
/// its file, whatever follows them.
pub proof fn lemma_meshdata_write_read(m: MeshDataView, s: Seq<u8>)
    requires
        m.wf(),
        m.writable(),
        m.file_bytes(0).len() <= s.len(),
        s.subrange(0, m.file_bytes(0).len() as int) == m.file_bytes(0),
    ensures
        meshdata_parse(s, 0) == Ok::<(MeshDataView, int), BinErrorView>(
            (m, m.file_bytes(0).len() as int),
        ),
{
    match m {
        MeshDataView::CSGK(c) => {
            lemma_write_read_csgk(c, s);
        },
        MeshDataView::CSGMDL(CSGMDLView::V2(v)) => {
            lemma_write_read_v2(v, s);
        },
        MeshDataView::CSGMDL(CSGMDLView::V4(v)) => {
            lemma_write_read_v4(v, s);
        },
        MeshDataView::CSGMDL(CSGMDLView::V5(_)) => {},
    }
}

/// What was read from the start of a file is well formed, and where it can
/// be written, the bytes of its file are exactly the bytes it was read
/// from.
pub proof fn lemma_meshdata_read_write(s: Seq<u8>, m: MeshDataView, end: int)
    requires
        meshdata_parse(s, 0) == Ok::<(MeshDataView, int), BinErrorView>((m, end)),
    ensures
        0 <= end <= s.len(),
        m.wf(),
        m.writable() ==> m.file_bytes(0) == s.subrange(0, end),
{
    reveal(meshdata_parse);
    match m {
        MeshDataView::CSGK(c) => {
            c.lemma_csgk(s, 0);
        },
        MeshDataView::CSGMDL(CSGMDLView::V2(v)) => {
            CSGMDL2View::lemma_read_write(obfuscated(s, 0), 0, v, end);
            lemma_obfuscated_subrange(s, 0, 0, end);
            lemma_obfuscation_involution(s.subrange(0, end), 0);
        },
        MeshDataView::CSGMDL(CSGMDLView::V4(v)) => {
            CSGMDL4View::lemma_read_write(obfuscated(s, 0), 0, v, end);
            lemma_obfuscated_subrange(s, 0, 0, end);
            lemma_obfuscation_involution(s.subrange(0, end), 0);
        },
        MeshDataView::CSGMDL(CSGMDLView::V5(v)) => {
            lemma_csgmdl5_end(s, 0, v, end);
        },
    }
}

/// A file cut short inside the value that was read from its start ends too
/// early: it is never read as a shorter value.
pub proof fn lemma_meshdata_cut(s: Seq<u8>, m: MeshDataView, end: int, k: int)
    requires
        meshdata_parse(s, 0) == Ok::<(MeshDataView, int), BinErrorView>((m, end)),
        0 <= k <= s.len(),
        k < end,
    ensures
        meshdata_parse(s.take(k), 0) == Err::<(MeshDataView, int), BinErrorView>(
            BinErrorView::UnexpectedEof,
        ),
{
    reveal(meshdata_parse);
    let t = s.take(k);
    if k >= 4 {
        assert(t.subrange(0, 4) =~= s.subrange(0, 4));
    }
    if k >= 6 {
        assert(t.subrange(0, 6) =~= s.subrange(0, 6));
    }
    if k >= 10 {
        assert(t.subrange(6, 10) =~= s.subrange(6, 10));
    }
    assert(obfuscated(t, 0) =~= obfuscated(s, 0).take(k));
    match m {
        MeshDataView::CSGK(c) => {
            if k >= 36 {
                assert(t.subrange(4, 36) =~= s.subrange(4, 36));
            }
        },
        MeshDataView::CSGMDL(CSGMDLView::V2(v)) => {
            CSGMDL2View::lemma_read_write(obfuscated(s, 0), 0, v, end);
            CSGMDL2View::lemma_cut(obfuscated(s, 0), 0, v, end, k);
        },
        MeshDataView::CSGMDL(CSGMDLView::V4(v)) => {
            CSGMDL4View::lemma_read_write(obfuscated(s, 0), 0, v, end);
            CSGMDL4View::lemma_cut(obfuscated(s, 0), 0, v, end, k);
        },
        MeshDataView::CSGMDL(CSGMDLView::V5(v)) => {
            lemma_csgmdl5_end(s, 0, v, end);
            lemma_csgmdl5_cut(s, 0, v, end, k);
        },
    }
}

/// Reads the header of a file from the position of `read` on, and leaves
/// `read` behind it. On a failure `read` stays where it was.
pub fn read_header(read: &mut Cursor) -> (r: Result<Header, Error>)
    ensures
        final(read).bytes() == old(read).bytes(),
        match r {
            Ok(h) => header_parse(old(read).bytes(), old(read).start()) == Ok::<
                (Header, int),
                BinErrorView,
            >((h, final(read).offset())),
            Err(e) => header_parse(old(read).bytes(), old(read).start()) == Err::<
                (Header, int),
                BinErrorView,
            >(e@) && final(read).offset() == old(read).offset(),
        },
{
    let (h, end) = Header::get(read.get_ref(), read.index())?;
    read.set_position(end);
    Ok(h)
}

/// Reads what a file holds. The header is read at the position of `read`;
/// a solid is then read from the first byte of the file on. `read` is left
/// behind the last byte of the value; on a failure it stays where it was.
pub fn read_versioned(read: &mut Cursor) -> (r: Result<MeshData, Error>)
    ensures
        final(read).bytes() == old(read).bytes(),
        match r {
            Ok(m) => meshdata_parse(old(read).bytes(), old(read).start()) == Ok::<
                (MeshDataView, int),
                BinErrorView,
            >((m@, final(read).offset())),
            Err(e) => meshdata_parse(old(read).bytes(), old(read).start()) == Err::<
                (MeshDataView, int),
                BinErrorView,
            >(e@) && final(read).offset() == old(read).offset(),
        },
{
    proof {
        reveal(meshdata_parse);
    }
    let data = read.get_ref();
    let (header, after) = Header::get(data, read.index())?;
    match header {
        Header::CSGK(csgk) => {
            read.set_position(after);
            Ok(MeshData::CSGK(csgk))
        },
        Header::CSGMDL(HeaderVersion::CSGMDL2) => {
            let mut clear = get_bytes(data, 0, data.len())?;
            assert(clear@ =~= data@);
            reversible_obfuscate(0, &mut clear);
            let (m, end) = CSGMDL2::get(clear.as_slice(), 0)?;
            read.set_position(end);
            Ok(MeshData::CSGMDL(CSGMDL::V2(m)))
        },
        Header::CSGMDL(HeaderVersion::CSGMDL4) => {
            let mut clear = get_bytes(data, 0, data.len())?;
            assert(clear@ =~= data@);
            reversible_obfuscate(0, &mut clear);
            let (m, end) = CSGMDL4::get(clear.as_slice(), 0)?;
            read.set_position(end);
            Ok(MeshData::CSGMDL(CSGMDL::V4(m)))
        },
        Header::CSGMDL(HeaderVersion::CSGMDL5) => {
            // in revision 5 only the header lies under the pad
            let (m, end) = CSGMDL5::get(data, 0)?;
            read.set_position(end);
            Ok(MeshData::CSGMDL(CSGMDL::V5(m)))
        },
    }
}

impl MeshData {
    /// Appends the file of the value to `out`: a key in the clear, a solid
    /// of revision 2 or 4 under the pad of the place where it comes to
    /// stand. A solid of revision 5 cannot be written: `out` then stays as
    /// it is.
    pub fn write_le(&self, out: &mut Vec<u8>) -> (r: Result<(), Error>)
        ensures
            match r {
                Ok(()) => self@.writable() && final(out)@ == old(out)@ + self@.file_bytes(
                    old(out)@.len() as int,
                ),
                Err(e) => !self@.writable() && final(out)@ == old(out)@ && e == (BinError::Custom {
                    pos: 0,
                    err: CustomError::Write(WriteMeshDataError::CSGMDL5),
                }),
            },
    {
        let mut clear: Vec<u8> = Vec::new();
        match self {
            MeshData::CSGK(csgk) => {
                csgk.put(out);
                return Ok(());
            },
            MeshData::CSGMDL(CSGMDL::V2(m)) => {
                m.put(&mut clear);
            },
            MeshData::CSGMDL(CSGMDL::V4(m)) => {
                m.put(&mut clear);
            },
            MeshData::CSGMDL(CSGMDL::V5(_)) => {
                return Err(
                    BinError::Custom {
                        pos: 0,
                        err: CustomError::Write(WriteMeshDataError::CSGMDL5),
                    },
                );
            },
        }
        assert(clear@ =~= self@.clear_bytes());
        reversible_obfuscate(out.len() as u64, &mut clear);
        put_bytes(clear.as_slice(), out);
        Ok(())
    }
}

} // verus!
