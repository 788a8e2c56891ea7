//! Solid-geometry revision 5: separate lists of positions, normals, colors,
//! axes, texture coordinates and tangents, then packed faces. Only its
//! first ten bytes lie under the pad. This revision is read and never
//! written.

use vstd::prelude::*;
use crate::frame::{
    Checked, Framed, get_count, lemma_count_cut, lemma_count_read_write, parse_count,
};
use crate::mesh_data::csgmdl::NormalId;
use crate::mesh_data::faces::{Faces5, Faces5View, faces5_parse, lemma_faces5_cut};
use crate::wire::{
    BinError, BinErrorView, CustomError, NormalIDError, Plain, expect_magic, get_seq, get_u16,
    get_u32, le_u16, le_u32, magic_at, parse_seq,
};

verus! {

/// An axis as revision 5 writes it: one byte.
#[derive(Debug, Clone, Copy, Hash, PartialEq, Eq)]
pub struct NormalId5(pub NormalId);

impl NormalId5 {
    /// The axis that `value` stands for; a failure where `value` is not in
    /// `1..=6`.
    pub fn try_from(value: u8) -> (r: Result<NormalId5, NormalIDError>)
        ensures
            match r {
                Ok(v) => NormalId::of_tag(value as int) == Some(v.0),
                Err(_) => NormalId::of_tag(value as int) is None,
            },
    {
        match NormalId::from_tag(value as u32) {
            Ok(v) => Ok(NormalId5(v)),
            Err(e) => Err(e),
        }
    }

    /// The number that stands for the axis.
    pub fn to_u8(&self) -> (r: u8)
        ensures
            r == self.0.tag(),
    {
        self.0.to_tag()
    }
}

impl Framed for NormalId5 {
    open spec fn wf(self) -> bool {
        true
    }

    open spec fn bytes(self) -> Seq<u8> {
        seq![self.0.tag()]
    }

    open spec fn parse(s: Seq<u8>, at: int) -> Result<(Self, int), BinErrorView> {
        if s.len() - at < 1 {
            Err(BinErrorView::UnexpectedEof)
        } else {
            match NormalId::of_tag(s[at] as int) {
                None => Err(
                    BinErrorView::Custom { pos: at, err: CustomError::NormalId(NormalIDError) },
                ),
                Some(v) => Ok((NormalId5(v), at + 1)),
            }
        }
    }

    proof fn lemma_read_write(s: Seq<u8>, at: int, m: Self, end: int) {
        assert(seq![m.0.tag()] =~= s.subrange(at, at + 1));
    }

    proof fn lemma_write_read(self, s: Seq<u8>, at: int) {
        assert(s.subrange(at, at + 1)[0] == s[at]);
    }

    proof fn lemma_cut(s: Seq<u8>, at: int, m: Self, end: int, k: int) {
    }
}

impl Checked for NormalId5 {
    fn get(data: &[u8], at: usize) -> (r: Result<(Self, usize), BinError>) {
        if data.len() - at < 1 {
            return Err(BinError::UnexpectedEof);
        }
        match NormalId5::try_from(data[at]) {
            Ok(v) => Ok((v, at + 1)),
            Err(e) => Err(BinError::Custom { pos: at as u64, err: CustomError::NormalId(e) }),
        }
    }

    fn put(&self, out: &mut Vec<u8>) {
        out.push(self.to_u8());
        assert(out@ =~= old(out)@ + self.bytes());
    }
}

/// The numerator of a quantized coordinate: the 16-bit number of the file
/// less `0x7FFF`, wrapping around within 16 bits.
pub open spec fn quantized_numerator(raw: i16) -> i16 {
    if raw - 0x7FFF < -0x8000 {
        (raw - 0x7FFF + 0x1_0000) as i16
    } else {
        (raw - 0x7FFF) as i16
    }
}

/// The 16-bit number of the file for the numerator `n`.
pub open spec fn quantized_raw(n: i16) -> i16 {
    if n + 0x7FFF > 0x7FFF {
        (n + 0x7FFF - 0x1_0000) as i16
    } else {
        (n + 0x7FFF) as i16
    }
}

/// A quantized vector. Each axis is kept as its numerator over 32767: the
/// coordinate is the numerator times 1/32767, which may lie a little
/// outside of -1 to 1.
#[derive(Debug, Clone, Copy, PartialEq, Eq)]
pub struct QuantizedF32x3(pub [i16; 3]);

impl QuantizedF32x3 {
    /// The vector for the three 16-bit numbers of the file.
    pub open spec fn of_raw(raw: [i16; 3]) -> QuantizedF32x3 {
        QuantizedF32x3(
            [
                quantized_numerator(raw[0]),
                quantized_numerator(raw[1]),
                quantized_numerator(raw[2]),
            ],
        )
    }

    /// The three 16-bit numbers of the file for the vector.
    pub open spec fn raw(self) -> [i16; 3] {
        [quantized_raw(self.0[0]), quantized_raw(self.0[1]), quantized_raw(self.0[2])]
    }

    /// Takes `0x7FFF` off each of the three numbers of the file, wrapping
    /// around within 16 bits.
    pub fn read(raw: [i16; 3]) -> (r: Self)
        ensures
            r == Self::of_raw(raw),
    {
        let r = QuantizedF32x3(
            [raw[0].wrapping_sub(0x7FFF), raw[1].wrapping_sub(0x7FFF), raw[2].wrapping_sub(0x7FFF)],
        );
        assert(r.0 =~= Self::of_raw(raw).0);
        r
    }

    /// Adds `0x7FFF` to each numerator, wrapping around within 16 bits.
    pub fn write(&self) -> (r: [i16; 3])
        ensures
            r == self.raw(),
    {
        let r = [
            self.0[0].wrapping_add(0x7FFF),
            self.0[1].wrapping_add(0x7FFF),
            self.0[2].wrapping_add(0x7FFF),
        ];
        assert(r =~= self.raw());
        r
    }
}

impl Plain for QuantizedF32x3 {
    open spec fn width() -> nat {
        6
    }

    open spec fn parse(w: Seq<u8>) -> QuantizedF32x3 {
        QuantizedF32x3::of_raw(<[i16; 3]>::parse(w))
    }

    open spec fn bytes(self) -> Seq<u8> {
        self.raw().bytes()
    }

    proof fn lemma_plain(x: QuantizedF32x3, w: Seq<u8>) {
        <[i16; 3]>::lemma_plain(x.raw(), w);
        assert(QuantizedF32x3::of_raw(x.raw()).0 =~= x.0);
        if w.len() == 6 {
            let raw = <[i16; 3]>::parse(w);
            assert(QuantizedF32x3::of_raw(raw).raw() =~= raw);
        }
    }

    fn size() -> (n: usize) {
        6
    }

    fn get(data: &[u8], at: usize) -> (r: QuantizedF32x3) {
        QuantizedF32x3::read(<[i16; 3]>::get(data, at))
    }

    fn put(&self, out: &mut Vec<u8>) {
        self.write().put(out);
    }
}

/// Reads `count` quantized vectors from `at` on.
pub fn parse_quantized_f32x3_array(data: &[u8], at: usize, count: usize) -> (r: Result<
    Vec<QuantizedF32x3>,
    BinError,
>)
    requires
        at <= data.len(),
    ensures
        match r {
            Ok(v) => data.len() - at >= count * 6 && v@ == parse_seq::<QuantizedF32x3>(
                data@,
                at as int,
                count as nat,
            ),
            Err(e) => data.len() - at < count * 6 && e == BinError::UnexpectedEof,
        },
{
    get_seq::<QuantizedF32x3>(data, at, count)
}

/// The ten bytes that open a file of revision 5: `CSGMDL` and the number 5
/// under the pad.
pub open spec fn magic_csgmdl5() -> Seq<u8> {
    seq![0x15u8, 0x7du8, 0x29u8, 0x15u8, 0x75u8, 0x6cu8, 0x35u8, 0x04u8, 0x34u8, 0x69u8]
}

/// A solid of revision 5. Every floating-point field is kept as its 32-bit
/// pattern; normals and tangents are quantized.
#[derive(Debug, Clone, PartialEq, Eq)]
pub struct CSGMDL5 {
    pub pos_count: u16,
    pub positions: Vec<[u32; 3]>,
    pub normals_count: u16,
    pub normals_len: u32,
    pub normals: Vec<QuantizedF32x3>,
    pub color_count: u16,
    pub colors: Vec<[u8; 4]>,
    pub normal_id_count: u16,
    pub normal_ids: Vec<NormalId5>,
    pub tex_count: u16,
    pub tex: Vec<[u32; 2]>,
    pub tangents_count: u16,
    pub tangents_len: u32,
    pub tangents: Vec<QuantizedF32x3>,
    /// Vertex indices, packed as differences.
    pub faces: Faces5,
}

/// The mathematical value of a [`CSGMDL5`].
pub struct CSGMDL5View {
    pub pos_count: u16,
    pub positions: Seq<[u32; 3]>,
    pub normals_count: u16,
    pub normals_len: u32,
    pub normals: Seq<QuantizedF32x3>,
    pub color_count: u16,
    pub colors: Seq<[u8; 4]>,
    pub normal_id_count: u16,
    pub normal_ids: Seq<NormalId5>,
    pub tex_count: u16,
    pub tex: Seq<[u32; 2]>,
    pub tangents_count: u16,
    pub tangents_len: u32,
    pub tangents: Seq<QuantizedF32x3>,
    pub faces: Faces5View,
}

impl View for CSGMDL5 {
    type V = CSGMDL5View;

    open spec fn view(&self) -> CSGMDL5View {
        CSGMDL5View {
            pos_count: self.pos_count,
            positions: self.positions@,
            normals_count: self.normals_count,
            normals_len: self.normals_len,
            normals: self.normals@,
            color_count: self.color_count,
            colors: self.colors@,
            normal_id_count: self.normal_id_count,
            normal_ids: self.normal_ids@,
            tex_count: self.tex_count,
            tex: self.tex@,
            tangents_count: self.tangents_count,
            tangents_len: self.tangents_len,
            tangents: self.tangents@,
            faces: self.faces@,
        }
    }
}

/// Where the colors of the solid that starts at `at` end, or `None` where
/// the input ends before: positions, normals and colors hold nothing that
/// could be wrong.
pub open spec fn colors_end(s: Seq<u8>, at: int) -> Option<int> {
    let a0 = at + 10;
    if s.len() - a0 < 2 {
        None
    } else {
        let a1 = a0 + 2 + le_u16(s, a0) * 12;
        if s.len() - a1 < 6 {
            None
        } else {
            let a2 = a1 + 6 + le_u16(s, a1) * 6;
            if s.len() - a2 < 2 {
                None
            } else {
                let a3 = a2 + 2 + le_u16(s, a2) * 4;
                if s.len() - a3 < 2 {
                    None
                } else {
                    Some(a3)
                }
            }
        }
    }
}

/// Where the tangents that follow the axes ending at `a4` end, or `None`
/// where the input ends before.
pub open spec fn tangents_end(s: Seq<u8>, a4: int) -> Option<int> {
    if s.len() - a4 < 2 {
        None
    } else {
        let a5 = a4 + 2 + le_u16(s, a4) * 8;
        if s.len() - a5 < 6 {
            None
        } else {
            let a6 = a5 + 6 + le_u16(s, a5) * 6;
            if a6 > s.len() {
                None
            } else {
                Some(a6)
            }
        }
    }
}

/// The solid that starts at `at` and the place where it ends; the failure
/// of the first field that cannot be read otherwise.
#[verifier::opaque]
pub open spec fn csgmdl5_parse(s: Seq<u8>, at: int) -> Result<(CSGMDL5View, int), BinErrorView> {
    match magic_at(s, at, magic_csgmdl5()) {
        Err(e) => Err(e),
        Ok(_) => match colors_end(s, at) {
            None => Err(BinErrorView::UnexpectedEof),
            Some(a3) => match parse_count::<NormalId5>(s, a3 + 2, le_u16(s, a3) as nat) {
                Err(e) => Err(e),
                Ok((normal_ids, a4)) => match tangents_end(s, a4) {
                    None => Err(BinErrorView::UnexpectedEof),
                    Some(a6) => match faces5_parse(s, a6) {
                        Err(e) => Err(e),
                        Ok((faces, end)) => {
                            let a0 = at + 10;
                            let a1 = a0 + 2 + le_u16(s, a0) * 12;
                            let a2 = a1 + 6 + le_u16(s, a1) * 6;
                            let a5 = a4 + 2 + le_u16(s, a4) * 8;
                            Ok(
                                (
                                    CSGMDL5View {
                                        pos_count: le_u16(s, a0),
                                        positions: parse_seq(s, a0 + 2, le_u16(s, a0) as nat),
                                        normals_count: le_u16(s, a1),
                                        normals_len: le_u32(s, a1 + 2),
                                        normals: parse_seq(s, a1 + 6, le_u16(s, a1) as nat),
                                        color_count: le_u16(s, a2),
                                        colors: parse_seq(s, a2 + 2, le_u16(s, a2) as nat),
                                        normal_id_count: le_u16(s, a3),
                                        normal_ids,
                                        tex_count: le_u16(s, a4),
                                        tex: parse_seq(s, a4 + 2, le_u16(s, a4) as nat),
                                        tangents_count: le_u16(s, a5),
                                        tangents_len: le_u32(s, a5 + 2),
                                        tangents: parse_seq(s, a5 + 6, le_u16(s, a5) as nat),
                                        faces,
                                    },
                                    end,
                                ),
                            )
                        },
                    },
                },
            },
        },
    }
}

/// A solid that was read lies within the input.
pub proof fn lemma_csgmdl5_end(s: Seq<u8>, at: int, m: CSGMDL5View, end: int)
    requires
        0 <= at <= s.len(),
        csgmdl5_parse(s, at) == Ok::<(CSGMDL5View, int), BinErrorView>((m, end)),
    ensures
        at + 10 <= end <= s.len(),
{
    reveal(csgmdl5_parse);
    let a3 = colors_end(s, at)->Some_0;
    let r = parse_count::<NormalId5>(s, a3 + 2, le_u16(s, a3) as nat);
    let a4 = r->Ok_0.1;
    lemma_count_read_write::<NormalId5>(s, a3 + 2, le_u16(s, a3) as nat, r->Ok_0.0, a4);
    let a6 = tangents_end(s, a4)->Some_0;
    lemma_faces5_cut(s, a6, m.faces, end, s.len() as int);
}

/// Cutting the input behind the colors leaves them where they end;
/// cutting it before leaves an input that ends too early.
proof fn lemma_colors_cut(s: Seq<u8>, at: int, k: int)
    requires
        0 <= at,
        at + 10 <= k <= s.len(),
        colors_end(s, at) is Some,
    ensures
        at + 10 <= colors_end(s, at)->Some_0,
        colors_end(s, at)->Some_0 + 2 <= s.len(),
        k >= colors_end(s, at)->Some_0 + 2 ==> colors_end(s.take(k), at) == colors_end(s, at)
            && le_u16(s.take(k), colors_end(s, at)->Some_0) == le_u16(
            s,
            colors_end(s, at)->Some_0,
        ),
        k < colors_end(s, at)->Some_0 + 2 ==> colors_end(s.take(k), at) is None,
{
}

/// Cutting the input behind the tangents leaves them where they end;
/// cutting it before leaves an input that ends too early.
proof fn lemma_tangents_cut(s: Seq<u8>, a4: int, k: int)
    requires
        0 <= a4 <= k <= s.len(),
        tangents_end(s, a4) is Some,
    ensures
        a4 <= tangents_end(s, a4)->Some_0 <= s.len(),
        k >= tangents_end(s, a4)->Some_0 ==> tangents_end(s.take(k), a4) == tangents_end(s, a4),
        k < tangents_end(s, a4)->Some_0 ==> tangents_end(s.take(k), a4) is None,
{
}

/// An input cut short inside a solid that was read ends too early: it is
/// never read as a shorter solid.
pub proof fn lemma_csgmdl5_cut(s: Seq<u8>, at: int, m: CSGMDL5View, end: int, k: int)
    requires
        0 <= at <= k <= s.len(),
        csgmdl5_parse(s, at) == Ok::<(CSGMDL5View, int), BinErrorView>((m, end)),
        k < end,
    ensures
        csgmdl5_parse(s.take(k), at) == Err::<(CSGMDL5View, int), BinErrorView>(
            BinErrorView::UnexpectedEof,
        ),
{
    let t = s.take(k);
    let a3 = colors_end(s, at)->Some_0;
    let n = le_u16(s, a3) as nat;
    let ids = parse_count::<NormalId5>(s, a3 + 2, n);
    let a4 = ids->Ok_0.1;
    let a6 = tangents_end(s, a4)->Some_0;
    assert(colors_end(s, at) is Some && ids is Ok && tangents_end(s, a4) is Some && faces5_parse(
        s,
        a6,
    ) == Ok::<(Faces5View, int), BinErrorView>((m.faces, end))) by {
        reveal(csgmdl5_parse);
    }
    if k < at + 10 {
        assert(csgmdl5_parse(t, at) == Err::<(CSGMDL5View, int), BinErrorView>(
            BinErrorView::UnexpectedEof,
        )) by {
            reveal(csgmdl5_parse);
        }
    } else {
        assert(magic_at(t, at, magic_csgmdl5()) == magic_at(s, at, magic_csgmdl5())) by {
            reveal(csgmdl5_parse);
            assert(t.subrange(at, at + 10) =~= s.subrange(at, at + 10));
        }
        lemma_colors_cut(s, at, k);
        if k >= a3 + 2 {
            lemma_count_read_write::<NormalId5>(s, a3 + 2, n, ids->Ok_0.0, a4);
            lemma_count_cut::<NormalId5>(s, a3 + 2, n, ids->Ok_0.0, a4, k);
            if k >= a4 {
                lemma_tangents_cut(s, a4, k);
                if k >= a6 {
                    lemma_faces5_cut(s, a6, m.faces, end, k);
                }
            }
        }
        reveal(csgmdl5_parse);
    }
}

impl CSGMDL5 {
    /// Reads the solid at `at`; gives it with the place where it ends.
    pub fn get(data: &[u8], at: usize) -> (r: Result<(CSGMDL5, usize), BinError>)
        requires
            at <= data.len(),
        ensures
            match r {
                Ok((m, end)) => end <= data.len() && csgmdl5_parse(data@, at as int) == Ok::<
                    (CSGMDL5View, int),
                    BinErrorView,
                >((m@, end as int)),
                Err(e) => csgmdl5_parse(data@, at as int) == Err::<
                    (CSGMDL5View, int),
                    BinErrorView,
                >(e@),
            },
    {
        proof {
            reveal(csgmdl5_parse);
        }
        let magic: [u8; 10] = [0x15, 0x7d, 0x29, 0x15, 0x75, 0x6c, 0x35, 0x04, 0x34, 0x69];
        assert(magic@ =~= magic_csgmdl5());
        expect_magic(data, at, magic.as_slice())?;
        let a0 = at + 10;
        if data.len() - a0 < 2 {
            return Err(BinError::UnexpectedEof);
        }
        let pos_count = get_u16(data, a0);
        let positions = get_seq::<[u32; 3]>(data, a0 + 2, pos_count as usize)?;
        let a1 = a0 + 2 + pos_count as usize * 12;
        if data.len() - a1 < 6 {
            return Err(BinError::UnexpectedEof);
        }
        let normals_count = get_u16(data, a1);
        let normals_len = get_u32(data, a1 + 2);
        let normals = parse_quantized_f32x3_array(data, a1 + 6, normals_count as usize)?;
        let a2 = a1 + 6 + normals_count as usize * 6;
        if data.len() - a2 < 2 {
            return Err(BinError::UnexpectedEof);
        }
        let color_count = get_u16(data, a2);
        let colors = get_seq::<[u8; 4]>(data, a2 + 2, color_count as usize)?;
        let a3 = a2 + 2 + color_count as usize * 4;
        if data.len() - a3 < 2 {
            return Err(BinError::UnexpectedEof);
        }
        let normal_id_count = get_u16(data, a3);
        let (normal_ids, a4) = get_count::<NormalId5>(data, a3 + 2, normal_id_count as usize)?;
        if data.len() - a4 < 2 {
            return Err(BinError::UnexpectedEof);
        }
        let tex_count = get_u16(data, a4);
        let tex = get_seq::<[u32; 2]>(data, a4 + 2, tex_count as usize)?;
        let a5 = a4 + 2 + tex_count as usize * 8;
        if data.len() - a5 < 6 {
            return Err(BinError::UnexpectedEof);
        }
        let tangents_count = get_u16(data, a5);
        let tangents_len = get_u32(data, a5 + 2);
        let tangents = parse_quantized_f32x3_array(data, a5 + 6, tangents_count as usize)?;
        let a6 = a5 + 6 + tangents_count as usize * 6;
        let (faces, end) = Faces5::get(data, a6)?;
        Ok(
            (
                CSGMDL5 {
                    pos_count,
                    positions,
                    normals_count,
                    normals_len,
                    normals,
                    color_count,
                    colors,
                    normal_id_count,
                    normal_ids,
                    tex_count,
                    tex,
                    tangents_count,
                    tangents_len,
                    tangents,
                    faces,
                },
                end,
            ),
        )
    }
}

} // verus!
