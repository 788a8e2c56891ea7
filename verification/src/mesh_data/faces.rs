//! The packed vertex indices of solid-geometry revision 5: each index is
//! written as its difference from the one before, in one byte where the
//! difference is small and in three bytes otherwise; indices are 23 bits
//! wide and wrap around.

use vstd::prelude::*;
use crate::wire::{
    BinError, BinErrorView, CustomError, FacesStateMachineError, get_bytes, get_u32, le_u32,
    lemma_le_u32_window,
};

verus! {

/// One more than the largest index: 2 to the power of 23.
pub open spec fn index_limit() -> int {
    0x80_0000
}

/// Where the unpacking stands after some indices: the indices so far, the
/// place of the next byte, and the running index.
pub struct IndexState {
    pub indices: Seq<u32>,
    pub pos: int,
    pub acc: int,
}

/// The difference that a first byte below `0x80` stands for by itself:
/// `0..=63` for itself, `64..=127` for `-64..=-1`, taken modulo the index
/// limit.
pub open spec fn short_delta(b0: u8) -> int {
    if b0 < 0x40 {
        b0 as int
    } else {
        index_limit() - (0x80 - b0)
    }
}

/// The difference that three bytes stand for, the first of them `0x80` or
/// more: 23 bits, most significant first.
pub open spec fn long_delta(b0: u8, b1: u8, b2: u8) -> int {
    (b0 - 0x80) * 0x1_0000 + b1 * 0x100 + b2
}

/// The state after one more index, or `None` where the bytes run out.
pub open spec fn index_step(data: Seq<u8>, st: IndexState) -> Option<IndexState> {
    if st.pos < 0 || st.pos >= data.len() {
        None
    } else if data[st.pos] < 0x80 {
        let acc = (st.acc + short_delta(data[st.pos])) % index_limit();
        Some(IndexState { indices: st.indices.push(acc as u32), pos: st.pos + 1, acc })
    } else if st.pos + 3 > data.len() {
        None
    } else {
        let acc = (st.acc + long_delta(data[st.pos], data[st.pos + 1], data[st.pos + 2]))
            % index_limit();
        Some(IndexState { indices: st.indices.push(acc as u32), pos: st.pos + 3, acc })
    }
}

/// The state after `n` indices, or `None` where the bytes run out before.
pub open spec fn index_state(data: Seq<u8>, n: nat) -> Option<IndexState>
    decreases n,
{
    if n == 0 {
        Some(IndexState { indices: Seq::empty(), pos: 0, acc: 0 })
    } else {
        match index_state(data, (n - 1) as nat) {
            None => None,
            Some(st) => index_step(data, st),
        }
    }
}

/// The `count` indices that `data` packs: every byte of `data` is used, and
/// none is missing.
pub open spec fn unpack_indices(data: Seq<u8>, count: nat) -> Result<
    Seq<u32>,
    FacesStateMachineError,
> {
    match index_state(data, count) {
        None => Err(FacesStateMachineError::UnexpectedEOF),
        Some(st) => if st.pos < data.len() {
            Err(FacesStateMachineError::UnusedData)
        } else {
            Ok(st.indices)
        },
    }
}

/// The bytes for the difference `delta`, which lies below the index limit:
/// one byte where it is within 64 of zero on either side, three otherwise.
pub open spec fn pack_delta(delta: int) -> Seq<u8> {
    if delta < 0x40 {
        seq![delta as u8]
    } else if delta >= index_limit() - 0x40 {
        seq![(0x80 - (index_limit() - delta)) as u8]
    } else {
        seq![
            (0x80 + delta / 0x1_0000) as u8,
            ((delta / 0x100) % 0x100) as u8,
            (delta % 0x100) as u8,
        ]
    }
}

/// The index before the last one of `v`, or 0 where there is none.
pub open spec fn before_last(v: Seq<u32>) -> int {
    if v.len() >= 2 {
        v[v.len() - 2] as int % index_limit()
    } else {
        0
    }
}

/// The bytes that pack the indices `v`, each taken modulo the index limit.
pub open spec fn pack_indices(v: Seq<u32>) -> Seq<u8>
    decreases v.len(),
{
    if v.len() == 0 {
        Seq::empty()
    } else {
        pack_indices(v.drop_last()) + pack_delta(
            (v.last() as int % index_limit() - before_last(v)) % index_limit(),
        )
    }
}

/// The states of an unpacking are well within the bytes: the place of the
/// next byte is never past the end, and every index is below the limit.
pub proof fn lemma_index_state(data: Seq<u8>, n: nat)
    requires
        index_state(data, n) is Some,
    ensures
        0 <= index_state(data, n)->Some_0.pos <= data.len(),
        0 <= index_state(data, n)->Some_0.acc < index_limit(),
        index_state(data, n)->Some_0.indices.len() == n,
        forall|i: int|
            0 <= i < n ==> (#[trigger] index_state(data, n)->Some_0.indices[i]) < index_limit(),
        n > 0 ==> index_state(data, n)->Some_0.indices[n - 1] == index_state(data, n)->Some_0.acc,
    decreases n,
{
    if n > 0 {
        lemma_index_state(data, (n - 1) as nat);
        let st0 = index_state(data, (n - 1) as nat)->Some_0;
        let st = index_state(data, n)->Some_0;
        assert forall|i: int| 0 <= i < n implies (#[trigger] st.indices[i]) < index_limit() by {
            if i < n - 1 {
                assert(st.indices[i] == st0.indices[i]);
            }
        }
    }
}

/// Once the bytes have run out, they have run out for every longer run of
/// indices.
pub proof fn lemma_index_none(data: Seq<u8>, i: nat, n: nat)
    requires
        i <= n,
        index_state(data, i) is None,
    ensures
        index_state(data, n) is None,
    decreases n,
{
    if i < n {
        lemma_index_none(data, i, (n - 1) as nat);
    }
}

/// Bytes that follow the ones that were used change nothing of what was
/// unpacked.
pub proof fn lemma_index_extend(data: Seq<u8>, more: Seq<u8>, n: nat)
    requires
        index_state(data, n) is Some,
    ensures
        index_state(data + more, n) == index_state(data, n),
    decreases n,
{
    if n > 0 {
        lemma_index_none_back(data, n);
        lemma_index_extend(data, more, (n - 1) as nat);
        lemma_index_state(data, (n - 1) as nat);
        let st = index_state(data, (n - 1) as nat)->Some_0;
        assert((data + more)[st.pos] == data[st.pos]);
        if data[st.pos] >= 0x80 {
            assert((data + more)[st.pos + 1] == data[st.pos + 1]);
            assert((data + more)[st.pos + 2] == data[st.pos + 2]);
        }
    }
}

/// Where `n` indices can be unpacked, so can one fewer.
pub proof fn lemma_index_none_back(data: Seq<u8>, n: nat)
    requires
        n > 0,
        index_state(data, n) is Some,
    ensures
        index_state(data, (n - 1) as nat) is Some,
{
}

/// The three bytes of a long difference stand for that difference.
proof fn lemma_long_delta(delta: int)
    requires
        0x40 <= delta < index_limit() - 0x40,
    ensures
        pack_delta(delta).len() == 3,
        pack_delta(delta)[0] >= 0x80,
        long_delta(pack_delta(delta)[0], pack_delta(delta)[1], pack_delta(delta)[2]) == delta,
{
    let hi = delta / 0x1_0000;
    let mid = (delta / 0x100) % 0x100;
    let lo = delta % 0x100;
    assert(0 <= hi < 0x80);
    assert(hi * 0x1_0000 + mid * 0x100 + lo == delta);
}

/// The one byte of a short difference stands for that difference.
proof fn lemma_short_delta(delta: int)
    requires
        0 <= delta < index_limit(),
        delta < 0x40 || delta >= index_limit() - 0x40,
    ensures
        pack_delta(delta).len() == 1,
        pack_delta(delta)[0] < 0x80,
        short_delta(pack_delta(delta)[0]) == delta,
{
}

/// One step over the bytes of a difference adds that difference.
proof fn lemma_step_of_delta(data0: Seq<u8>, indices: Seq<u32>, acc: int, delta: int)
    requires
        0 <= acc < index_limit(),
        0 <= delta < index_limit(),
    ensures
        index_step(
            data0 + pack_delta(delta),
            IndexState { indices, pos: data0.len() as int, acc },
        ) == Some(
            IndexState {
                indices: indices.push(((acc + delta) % index_limit()) as u32),
                pos: (data0 + pack_delta(delta)).len() as int,
                acc: (acc + delta) % index_limit(),
            },
        ),
{
    let pd = pack_delta(delta);
    let data = data0 + pd;
    let at = data0.len() as int;
    if delta < 0x40 || delta >= index_limit() - 0x40 {
        lemma_short_delta(delta);
        assert(data[at] == pd[0]);
    } else {
        lemma_long_delta(delta);
        assert(data[at] == pd[0]);
        assert(data[at + 1] == pd[1]);
        assert(data[at + 2] == pd[2]);
    }
}

/// Adding the difference to the index before gives the index.
proof fn lemma_delta(x: int, p: int)
    requires
        0 <= x < index_limit(),
        0 <= p < index_limit(),
    ensures
        0 <= (x - p) % index_limit() < index_limit(),
        (p + (x - p) % index_limit()) % index_limit() == x,
{
}

/// The unpacking of what was packed stands behind the last byte, with the
/// indices that were packed.
pub proof fn lemma_state_of_pack(v: Seq<u32>)
    requires
        forall|i: int| 0 <= i < v.len() ==> (#[trigger] v[i]) < index_limit(),
    ensures
        index_state(pack_indices(v), v.len()) == Some(
            IndexState {
                indices: v,
                pos: pack_indices(v).len() as int,
                acc: if v.len() == 0 {
                    0
                } else {
                    v.last() as int
                },
            },
        ),
    decreases v.len(),
{
    if v.len() == 0 {
        assert(v =~= Seq::<u32>::empty());
    } else {
        let v0 = v.drop_last();
        let d0 = pack_indices(v0);
        let x = v.last() as int;
        let p = before_last(v);
        let delta = (x - p) % index_limit();
        let pd = pack_delta(delta);
        assert(x % index_limit() == x);
        lemma_state_of_pack(v0);
        lemma_index_extend(d0, pd, v0.len());
        let acc0 = if v0.len() == 0 {
            0
        } else {
            v0.last() as int
        };
        assert(acc0 == p) by {
            if v0.len() > 0 {
                assert(v0.last() == v[v.len() - 2]);
                assert(v[v.len() - 2] < index_limit());
            }
        }
        lemma_delta(x, p);
        lemma_step_of_delta(d0, v0, p, delta);
        assert(v0.push(x as u32) =~= v);
    }
}

/// Packing indices and unpacking them again gives the indices back, for
/// every run of indices below the limit.
pub proof fn lemma_pack_unpack(v: Seq<u32>)
    requires
        forall|i: int| 0 <= i < v.len() ==> (#[trigger] v[i]) < index_limit(),
    ensures
        unpack_indices(pack_indices(v), v.len()) == Ok::<Seq<u32>, FacesStateMachineError>(v),
{
    lemma_state_of_pack(v);
}

/// What was unpacked from some bytes is unpacked again from its own
/// packing: the packing may differ from the bytes, the indices do not.
pub proof fn lemma_unpack_pack_unpack(data: Seq<u8>, count: nat, v: Seq<u32>)
    requires
        unpack_indices(data, count) == Ok::<Seq<u32>, FacesStateMachineError>(v),
    ensures
        v.len() == count,
        unpack_indices(pack_indices(v), v.len()) == Ok::<Seq<u32>, FacesStateMachineError>(v),
{
    lemma_index_state(data, count);
    lemma_pack_unpack(v);
}

/// Unpacks `expected_output_count` indices from `data`.
pub fn read_state_machine(data: &Vec<u8>, expected_output_count: usize) -> (r: Result<
    Vec<u32>,
    FacesStateMachineError,
>)
    ensures
        match r {
            Ok(v) => v@.len() == expected_output_count && (forall|i: int|
                0 <= i < v@.len() ==> v@[i] < index_limit()) && unpack_indices(
                data@,
                expected_output_count as nat,
            ) == Ok::<Seq<u32>, FacesStateMachineError>(v@),
            Err(e) => unpack_indices(data@, expected_output_count as nat) == Err::<
                Seq<u32>,
                FacesStateMachineError,
            >(e),
        },
{
    let mut indices: Vec<u32> = Vec::new();
    let mut pos: usize = 0;
    let mut index_out: u32 = 0;
    let mut i: usize = 0;
    while i < expected_output_count
        invariant
            i <= expected_output_count,
            pos <= data.len(),
            index_out < 0x80_0000,
            index_state(data@, i as nat) == Some(
                IndexState { indices: indices@, pos: pos as int, acc: index_out as int },
            ),
        decreases expected_output_count - i,
    {
        if pos >= data.len() {
            proof {
                lemma_index_none(data@, (i + 1) as nat, expected_output_count as nat);
            }
            return Err(FacesStateMachineError::UnexpectedEOF);
        }
        let v0 = data[pos];
        if v0 < 0x80 {
            if v0 < 0x40 {
                index_out = (index_out + v0 as u32) % 0x80_0000;
            } else {
                // 64..127 stands for -64..-1
                index_out = (index_out + (0x80_0000 - (0x80 - v0 as u32))) % 0x80_0000;
            }
            pos += 1;
        } else {
            if data.len() - pos < 3 {
                proof {
                    lemma_index_none(data@, (i + 1) as nat, expected_output_count as nat);
                }
                return Err(FacesStateMachineError::UnexpectedEOF);
            }
            let v1 = data[pos + 1];
            let v2 = data[pos + 2];
            let delta = (v0 as u32 - 0x80) * 0x1_0000 + (v1 as u32) * 0x100 + v2 as u32;
            index_out = (index_out + delta) % 0x80_0000;
            pos += 3;
        }
        indices.push(index_out);
        i += 1;
    }
    // every byte must have been used
    if pos < data.len() {
        return Err(FacesStateMachineError::UnusedData);
    }
    proof {
        lemma_index_state(data@, expected_output_count as nat);
    }
    Ok(indices)
}

/// Packs `indices`, each taken modulo the index limit.
pub fn write_state_machine(indices: &Vec<u32>) -> (r: Vec<u8>)
    ensures
        r@ == pack_indices(indices@),
{
    let mut out: Vec<u8> = Vec::new();
    let mut prev: u32 = 0;
    let mut i: usize = 0;
    while i < indices.len()
        invariant
            i <= indices.len(),
            prev < 0x80_0000,
            prev == (if i == 0 {
                0
            } else {
                indices@[i - 1] as int % index_limit()
            }),
            out@ == pack_indices(indices@.subrange(0, i as int)),
        decreases indices.len() - i,
    {
        let x = indices[i] % 0x80_0000;
        let delta = (x + 0x80_0000 - prev) % 0x80_0000;
        proof {
            let v = indices@.subrange(0, i + 1);
            assert(v.drop_last() =~= indices@.subrange(0, i as int));
            assert(v.last() == indices@[i as int]);
            assert(before_last(v) == prev) by {
                if i > 0 {
                    assert(v[v.len() - 2] == indices@[i - 1]);
                }
            }
            assert(delta == (x - prev) % index_limit());
        }
        if delta < 0x40 {
            out.push(delta as u8);
        } else if delta >= 0x80_0000 - 0x40 {
            out.push((0x80 - (0x80_0000 - delta)) as u8);
        } else {
            out.push((0x80 + delta / 0x1_0000) as u8);
            out.push(((delta / 0x100) % 0x100) as u8);
            out.push((delta % 0x100) as u8);
        }
        assert(out@ =~= pack_indices(indices@.subrange(0, i as int)) + pack_delta(delta as int));
        prev = x;
        i += 1;
    }
    assert(indices@.subrange(0, indices.len() as int) =~= indices@);
    out
}

/// The faces of solid-geometry revision 5: the indices before the split
/// point that the file declares, and the ones from it on, whose meaning is
/// not known.
#[derive(Debug, Clone, PartialEq, Eq)]
pub struct Faces5 {
    pub faces: Vec<u32>,
    pub _unknown: Vec<u32>,
}

/// The mathematical value of a [`Faces5`].
pub struct Faces5View {
    pub faces: Seq<u32>,
    pub _unknown: Seq<u32>,
}

impl View for Faces5 {
    type V = Faces5View;

    open spec fn view(&self) -> Faces5View {
        Faces5View { faces: self.faces@, _unknown: self._unknown@ }
    }
}

/// The two parts of the indices `v` for the range markers that start at
/// `at`: with two markers all of `v` and nothing; with three the indices
/// before the second marker and the ones from it on.
pub open spec fn split_faces(s: Seq<u8>, at: int, v: Seq<u32>) -> Result<Faces5View, BinErrorView> {
    if s[at] == 2 {
        Ok(Faces5View { faces: v, _unknown: Seq::empty() })
    } else {
        let range_end = le_u32(s, at + 5);
        if range_end > v.len() {
            Err(
                BinErrorView::Custom {
                    pos: at + 5,
                    err: CustomError::FacesRange { range_end, len: v.len() as u32 },
                },
            )
        } else {
            Ok(
                Faces5View {
                    faces: v.subrange(0, range_end as int),
                    _unknown: v.subrange(range_end as int, v.len() as int),
                },
            )
        }
    }
}

/// Where the range markers that start at `at` end: a tag of one byte, 2 or
/// 3, and as many 32-bit markers.
pub open spec fn markers_end(s: Seq<u8>, at: int) -> Result<int, BinErrorView> {
    if s.len() - at < 1 {
        Err(BinErrorView::UnexpectedEof)
    } else if s[at] == 2 {
        if s.len() - at < 9 {
            Err(BinErrorView::UnexpectedEof)
        } else {
            Ok(at + 9)
        }
    } else if s[at] == 3 {
        if s.len() - at < 13 {
            Err(BinErrorView::UnexpectedEof)
        } else {
            Ok(at + 13)
        }
    } else {
        Err(BinErrorView::BadMagic { pos: at, found: s.subrange(at, at + 1) })
    }
}

/// The face list that starts at `at` and the place where it ends: the
/// count of indices, the length of their packing, the packing, the range
/// markers. The whole list is read before it is unpacked, so a failure of
/// the layout comes before one of the packing.
#[verifier::opaque]
pub open spec fn faces5_parse(s: Seq<u8>, at: int) -> Result<(Faces5View, int), BinErrorView> {
    if s.len() - at < 8 {
        Err(BinErrorView::UnexpectedEof)
    } else {
        let count = le_u32(s, at);
        let a1 = at + 8;
        let a2 = a1 + le_u32(s, at + 4);
        if a2 > s.len() {
            Err(BinErrorView::UnexpectedEof)
        } else {
            match markers_end(s, a2) {
                Err(e) => Err(e),
                Ok(end) => match unpack_indices(s.subrange(a1, a2), count as nat) {
                    Err(e) => Err(BinErrorView::Custom { pos: 0, err: CustomError::Faces(e) }),
                    Ok(v) => match split_faces(s, a2, v) {
                        Err(e) => Err(e),
                        Ok(f) => Ok((f, end)),
                    },
                },
            }
        }
    }
}

/// A face list that the input is cut through is not read at all: the input
/// ends too early. One that lies before the cut is read the same.
pub proof fn lemma_faces5_cut(s: Seq<u8>, at: int, m: Faces5View, end: int, k: int)
    requires
        0 <= at <= k <= s.len(),
        faces5_parse(s, at) == Ok::<(Faces5View, int), BinErrorView>((m, end)),
    ensures
        at <= end <= s.len(),
        k < end ==> faces5_parse(s.take(k), at) == Err::<(Faces5View, int), BinErrorView>(
            BinErrorView::UnexpectedEof,
        ),
        k >= end ==> faces5_parse(s.take(k), at) == faces5_parse(s, at),
{
    reveal(faces5_parse);
    let a1 = at + 8;
    let a2 = a1 + le_u32(s, at + 4);
    if k >= end {
        assert(s.take(k).subrange(a1, a2) =~= s.subrange(a1, a2));
        assert(s.take(k).subrange(a2, a2 + 1) =~= s.subrange(a2, a2 + 1));
        lemma_le_u32_window(s, a2 + 5);
    }
}

impl Faces5 {
    /// Reads the face list at `at`; gives it with the place where it ends.
    pub fn get(data: &[u8], at: usize) -> (r: Result<(Faces5, usize), BinError>)
        requires
            at <= data.len(),
        ensures
            match r {
                Ok((m, end)) => end <= data.len() && faces5_parse(data@, at as int) == Ok::<
                    (Faces5View, int),
                    BinErrorView,
                >((m@, end as int)),
                Err(e) => faces5_parse(data@, at as int) == Err::<(Faces5View, int), BinErrorView>(
                    e@,
                ),
            },
    {
        proof {
            reveal(faces5_parse);
        }
        if data.len() - at < 8 {
            return Err(BinError::UnexpectedEof);
        }
        let vertex_count = get_u32(data, at);
        let vertex_data_len = get_u32(data, at + 4);
        let a1 = at + 8;
        let vertex_data = get_bytes(data, a1, vertex_data_len as usize)?;
        let a2 = a1 + vertex_data_len as usize;
        if data.len() - a2 < 1 {
            return Err(BinError::UnexpectedEof);
        }
        let tag = data[a2];
        let end = if tag == 2 {
            if data.len() - a2 < 9 {
                return Err(BinError::UnexpectedEof);
            }
            a2 + 9
        } else if tag == 3 {
            if data.len() - a2 < 13 {
                return Err(BinError::UnexpectedEof);
            }
            a2 + 13
        } else {
            let found = get_bytes(data, a2, 1)?;
            return Err(BinError::BadMagic { pos: a2 as u64, found });
        };
        // unpack the indices
        let mut faces = match read_state_machine(&vertex_data, vertex_count as usize) {
            Ok(v) => v,
            Err(e) => {
                return Err(BinError::Custom { pos: 0, err: CustomError::Faces(e) });
            },
        };
        proof {
            lemma_index_state(vertex_data@, vertex_count as nat);
        }
        // split them as the markers say
        if tag == 2 {
            Ok((Faces5 { faces, _unknown: Vec::new() }, end))
        } else {
            let range_end = get_u32(data, a2 + 5);
            if range_end as usize > faces.len() {
                return Err(
                    BinError::Custom {
                        pos: (a2 + 5) as u64,
                        err: CustomError::FacesRange { range_end, len: faces.len() as u32 },
                    },
                );
            }
            let _unknown = faces.split_off(range_end as usize);
            Ok((Faces5 { faces, _unknown }, end))
        }
    }
}

} // verus!
