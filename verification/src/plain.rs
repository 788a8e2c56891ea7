//! The fixed-width records that every family is built from: single numbers
//! and short arrays of them. A floating-point field is kept as the 32-bit
//! pattern that the file holds, so that what is read is written back
//! bit for bit.

use vstd::prelude::*;
use crate::wire::{
    Plain, le_u16, le_u32, u16_le, u32_le, i8_of, u8_of, i16_of, u16_of, get_u16, get_u32,
    put_bytes, put_u16, put_u32, to_i8, from_i8, to_i16, from_i16, lemma_u16_le, lemma_le_u16,
    lemma_u32_le, lemma_le_u32,
};

verus! {

impl Plain for u8 {
    open spec fn width() -> nat {
        1
    }

    open spec fn parse(w: Seq<u8>) -> u8 {
        w[0]
    }

    open spec fn bytes(self) -> Seq<u8> {
        seq![self]
    }

    proof fn lemma_plain(x: u8, w: Seq<u8>) {
        if w.len() == 1 {
            assert(Self::parse(w).bytes() =~= w);
        }
    }

    fn size() -> (n: usize) {
        1
    }

    fn get(data: &[u8], at: usize) -> (r: u8) {
        data[at]
    }

    fn put(&self, out: &mut Vec<u8>) {
        out.push(*self);
        assert(out@ =~= old(out)@ + self.bytes());
    }
}

impl Plain for u16 {
    open spec fn width() -> nat {
        2
    }

    open spec fn parse(w: Seq<u8>) -> u16 {
        le_u16(w, 0)
    }

    open spec fn bytes(self) -> Seq<u8> {
        u16_le(self)
    }

    proof fn lemma_plain(x: u16, w: Seq<u8>) {
        lemma_u16_le(x);
        if w.len() == 2 {
            lemma_le_u16(w, 0);
            assert(w.subrange(0, 2) =~= w);
        }
    }

    fn size() -> (n: usize) {
        2
    }

    fn get(data: &[u8], at: usize) -> (r: u16) {
        get_u16(data, at)
    }

    fn put(&self, out: &mut Vec<u8>) {
        put_u16(*self, out);
    }
}

impl Plain for u32 {
    open spec fn width() -> nat {
        4
    }

    open spec fn parse(w: Seq<u8>) -> u32 {
        le_u32(w, 0)
    }

    open spec fn bytes(self) -> Seq<u8> {
        u32_le(self)
    }

    proof fn lemma_plain(x: u32, w: Seq<u8>) {
        lemma_u32_le(x);
        if w.len() == 4 {
            lemma_le_u32(w, 0);
            assert(w.subrange(0, 4) =~= w);
        }
    }

    fn size() -> (n: usize) {
        4
    }

    fn get(data: &[u8], at: usize) -> (r: u32) {
        get_u32(data, at)
    }

    fn put(&self, out: &mut Vec<u8>) {
        put_u32(*self, out);
    }
}

impl Plain for [u8; 4] {
    open spec fn width() -> nat {
        4
    }

    open spec fn parse(w: Seq<u8>) -> [u8; 4] {
        [w[0], w[1], w[2], w[3]]
    }

    open spec fn bytes(self) -> Seq<u8> {
        seq![self[0], self[1], self[2], self[3]]
    }

    proof fn lemma_plain(x: [u8; 4], w: Seq<u8>) {
        assert(Self::parse(x.bytes()) =~= x);
        if w.len() == 4 {
            assert(Self::parse(w).bytes() =~= w);
        }
    }

    fn size() -> (n: usize) {
        4
    }

    fn get(data: &[u8], at: usize) -> (r: [u8; 4]) {
        let r = [data[at], data[at + 1], data[at + 2], data[at + 3]];
        assert(r =~= Self::parse(data@.subrange(at as int, at + 4)));
        r
    }

    fn put(&self, out: &mut Vec<u8>) {
        out.push(self[0]);
        out.push(self[1]);
        out.push(self[2]);
        out.push(self[3]);
        assert(out@ =~= old(out)@ + self.bytes());
    }
}

impl Plain for [i8; 4] {
    open spec fn width() -> nat {
        4
    }

    open spec fn parse(w: Seq<u8>) -> [i8; 4] {
        [i8_of(w[0]), i8_of(w[1]), i8_of(w[2]), i8_of(w[3])]
    }

    open spec fn bytes(self) -> Seq<u8> {
        seq![u8_of(self[0]), u8_of(self[1]), u8_of(self[2]), u8_of(self[3])]
    }

    proof fn lemma_plain(x: [i8; 4], w: Seq<u8>) {
        assert(Self::parse(x.bytes()) =~= x);
        if w.len() == 4 {
            assert(Self::parse(w).bytes() =~= w);
        }
    }

    fn size() -> (n: usize) {
        4
    }

    fn get(data: &[u8], at: usize) -> (r: [i8; 4]) {
        let r = [to_i8(data[at]), to_i8(data[at + 1]), to_i8(data[at + 2]), to_i8(data[at + 3])];
        assert(r =~= Self::parse(data@.subrange(at as int, at + 4)));
        r
    }

    fn put(&self, out: &mut Vec<u8>) {
        out.push(from_i8(self[0]));
        out.push(from_i8(self[1]));
        out.push(from_i8(self[2]));
        out.push(from_i8(self[3]));
        assert(out@ =~= old(out)@ + self.bytes());
    }
}

impl Plain for [u32; 2] {
    open spec fn width() -> nat {
        8
    }

    open spec fn parse(w: Seq<u8>) -> [u32; 2] {
        [le_u32(w, 0), le_u32(w, 4)]
    }

    open spec fn bytes(self) -> Seq<u8> {
        u32_le(self[0]) + u32_le(self[1])
    }

    proof fn lemma_plain(x: [u32; 2], w: Seq<u8>) {
        lemma_u32_le(x[0]);
        lemma_u32_le(x[1]);
        assert(Self::parse(x.bytes()) =~= x);
        if w.len() == 8 {
            lemma_le_u32(w, 0);
            lemma_le_u32(w, 4);
            assert(Self::parse(w).bytes() =~= w);
        }
    }

    fn size() -> (n: usize) {
        8
    }

    fn get(data: &[u8], at: usize) -> (r: [u32; 2]) {
        let r = [get_u32(data, at), get_u32(data, at + 4)];
        assert(r =~= Self::parse(data@.subrange(at as int, at + 8)));
        r
    }

    fn put(&self, out: &mut Vec<u8>) {
        put_u32(self[0], out);
        put_u32(self[1], out);
        assert(out@ =~= old(out)@ + self.bytes());
    }
}

impl Plain for [u32; 3] {
    open spec fn width() -> nat {
        12
    }

    open spec fn parse(w: Seq<u8>) -> [u32; 3] {
        [le_u32(w, 0), le_u32(w, 4), le_u32(w, 8)]
    }

    open spec fn bytes(self) -> Seq<u8> {
        u32_le(self[0]) + u32_le(self[1]) + u32_le(self[2])
    }

    proof fn lemma_plain(x: [u32; 3], w: Seq<u8>) {
        lemma_u32_le(x[0]);
        lemma_u32_le(x[1]);
        lemma_u32_le(x[2]);
        assert(Self::parse(x.bytes()) =~= x);
        if w.len() == 12 {
            lemma_le_u32(w, 0);
            lemma_le_u32(w, 4);
            lemma_le_u32(w, 8);
            assert(Self::parse(w).bytes() =~= w);
        }
    }

    fn size() -> (n: usize) {
        12
    }

    fn get(data: &[u8], at: usize) -> (r: [u32; 3]) {
        let r = [get_u32(data, at), get_u32(data, at + 4), get_u32(data, at + 8)];
        assert(r =~= Self::parse(data@.subrange(at as int, at + 12)));
        r
    }

    fn put(&self, out: &mut Vec<u8>) {
        put_u32(self[0], out);
        put_u32(self[1], out);
        put_u32(self[2], out);
        assert(out@ =~= old(out)@ + self.bytes());
    }
}

impl Plain for [i16; 3] {
    open spec fn width() -> nat {
        6
    }

    open spec fn parse(w: Seq<u8>) -> [i16; 3] {
        [i16_of(le_u16(w, 0)), i16_of(le_u16(w, 2)), i16_of(le_u16(w, 4))]
    }

    open spec fn bytes(self) -> Seq<u8> {
        u16_le(u16_of(self[0])) + u16_le(u16_of(self[1])) + u16_le(u16_of(self[2]))
    }

    proof fn lemma_plain(x: [i16; 3], w: Seq<u8>) {
        lemma_u16_le(u16_of(x[0]));
        lemma_u16_le(u16_of(x[1]));
        lemma_u16_le(u16_of(x[2]));
        assert(Self::parse(x.bytes()) =~= x);
        if w.len() == 6 {
            lemma_le_u16(w, 0);
            lemma_le_u16(w, 2);
            lemma_le_u16(w, 4);
            assert(Self::parse(w).bytes() =~= w);
        }
    }

    fn size() -> (n: usize) {
        6
    }

    fn get(data: &[u8], at: usize) -> (r: [i16; 3]) {
        let r = [
            to_i16(get_u16(data, at)),
            to_i16(get_u16(data, at + 2)),
            to_i16(get_u16(data, at + 4)),
        ];
        assert(r =~= Self::parse(data@.subrange(at as int, at + 6)));
        r
    }

    fn put(&self, out: &mut Vec<u8>) {
        put_u16(from_i16(self[0]), out);
        put_u16(from_i16(self[1]), out);
        put_u16(from_i16(self[2]), out);
        assert(out@ =~= old(out)@ + self.bytes());
    }
}

/// The array that 16 bytes spell.
pub closed spec fn bytes16_parse(w: Seq<u8>) -> [u8; 16] {
    [
        w[0], w[1], w[2], w[3], w[4], w[5], w[6], w[7], w[8], w[9], w[10], w[11], w[12], w[13],
        w[14], w[15],
    ]
}

/// Each byte of the array is the byte at its place.
pub proof fn lemma_bytes16_parse(w: Seq<u8>)
    ensures
        bytes16_parse(w)@ == Seq::new(16, |i: int| w[i]),
{
    assert(bytes16_parse(w)@ =~= Seq::new(16, |i: int| w[i]));
}

impl Plain for [u8; 16] {
    open spec fn width() -> nat {
        16
    }

    open spec fn parse(w: Seq<u8>) -> [u8; 16] {
        bytes16_parse(w)
    }

    open spec fn bytes(self) -> Seq<u8> {
        self@
    }

    proof fn lemma_plain(x: [u8; 16], w: Seq<u8>) {
        lemma_bytes16_parse(x@);
        assert(Self::parse(x@) =~= x);
        if w.len() == 16 {
            lemma_bytes16_parse(w);
            assert(Self::parse(w)@ =~= w);
        }
    }

    fn size() -> (n: usize) {
        16
    }

    fn get(data: &[u8], at: usize) -> (r: [u8; 16]) {
        let mut r = [0u8; 16];
        let mut i: usize = 0;
        while i < 16
            invariant
                i <= 16,
                at + 16 <= data.len(),
                forall|j: int| 0 <= j < i ==> r[j] == data@[at + j],
            decreases 16 - i,
        {
            r[i] = data[at + i];
            i += 1;
        }
        proof {
            lemma_bytes16_parse(data@.subrange(at as int, at + 16));
            assert(r@ =~= Self::parse(data@.subrange(at as int, at + 16))@);
            assert(r =~= Self::parse(data@.subrange(at as int, at + 16)));
        }
        r
    }

    fn put(&self, out: &mut Vec<u8>) {
        put_bytes(self.as_slice(), out);
    }
}

/// The array that 32 bytes spell.
pub closed spec fn bytes32_parse(w: Seq<u8>) -> [u8; 32] {
    [
        w[0], w[1], w[2], w[3], w[4], w[5], w[6], w[7], w[8], w[9], w[10], w[11], w[12], w[13],
        w[14], w[15], w[16], w[17], w[18], w[19], w[20], w[21], w[22], w[23], w[24], w[25],
        w[26], w[27], w[28], w[29], w[30], w[31],
    ]
}

/// Each byte of the array is the byte at its place.
pub proof fn lemma_bytes32_parse(w: Seq<u8>)
    ensures
        bytes32_parse(w)@ == Seq::new(32, |i: int| w[i]),
{
    assert(bytes32_parse(w)@ =~= Seq::new(32, |i: int| w[i]));
}

impl Plain for [u8; 32] {
    open spec fn width() -> nat {
        32
    }

    open spec fn parse(w: Seq<u8>) -> [u8; 32] {
        bytes32_parse(w)
    }

    open spec fn bytes(self) -> Seq<u8> {
        self@
    }

    proof fn lemma_plain(x: [u8; 32], w: Seq<u8>) {
        lemma_bytes32_parse(x@);
        assert(Self::parse(x@) =~= x);
        if w.len() == 32 {
            lemma_bytes32_parse(w);
            assert(Self::parse(w)@ =~= w);
        }
    }

    fn size() -> (n: usize) {
        32
    }

    fn get(data: &[u8], at: usize) -> (r: [u8; 32]) {
        let mut r = [0u8; 32];
        let mut i: usize = 0;
        while i < 32
            invariant
                i <= 32,
                at + 32 <= data.len(),
                forall|j: int| 0 <= j < i ==> r[j] == data@[at + j],
            decreases 32 - i,
        {
            r[i] = data[at + i];
            i += 1;
        }
        proof {
            lemma_bytes32_parse(data@.subrange(at as int, at + 32));
            assert(r@ =~= Self::parse(data@.subrange(at as int, at + 32))@);
            assert(r =~= Self::parse(data@.subrange(at as int, at + 32)));
        }
        r
    }

    fn put(&self, out: &mut Vec<u8>) {
        put_bytes(self.as_slice(), out);
    }
}

/// The first three and the last three of six numbers.
pub open spec fn halves(x: [u32; 6]) -> ([u32; 3], [u32; 3]) {
    ([x[0], x[1], x[2]], [x[3], x[4], x[5]])
}

/// The six numbers that 24 bytes spell.
#[verifier::opaque]
pub open spec fn six_parse(w: Seq<u8>) -> [u32; 6] {
    let a = <[u32; 3]>::parse(w.subrange(0, 12));
    let b = <[u32; 3]>::parse(w.subrange(12, 24));
    [a[0], a[1], a[2], b[0], b[1], b[2]]
}

/// The 24 bytes of six numbers.
#[verifier::opaque]
pub open spec fn six_bytes(x: [u32; 6]) -> Seq<u8> {
    halves(x).0.bytes() + halves(x).1.bytes()
}

/// Six numbers are read back from their bytes.
proof fn lemma_six_parse_bytes(x: [u32; 6])
    ensures
        six_bytes(x).len() == 24,
        six_parse(six_bytes(x)) == x,
{
    let (a, b) = halves(x);
    let s = six_bytes(x);
    assert(s == a.bytes() + b.bytes()) by {
        reveal(six_bytes);
    }
    assert(a.bytes().len() == 12 && <[u32; 3]>::parse(a.bytes()) == a) by {
        <[u32; 3]>::lemma_plain(a, Seq::empty());
    }
    assert(b.bytes().len() == 12 && <[u32; 3]>::parse(b.bytes()) == b) by {
        <[u32; 3]>::lemma_plain(b, Seq::empty());
    }
    assert(s.subrange(0, 12) =~= a.bytes());
    assert(s.subrange(12, 24) =~= b.bytes());
    assert(six_parse(s) =~= x) by {
        reveal(six_parse);
    }
}

/// The six numbers read from 24 bytes have those bytes.
proof fn lemma_six_bytes_parse(w: Seq<u8>)
    requires
        w.len() == 24,
    ensures
        six_bytes(six_parse(w)) == w,
{
    let a = <[u32; 3]>::parse(w.subrange(0, 12));
    let b = <[u32; 3]>::parse(w.subrange(12, 24));
    let x = six_parse(w);
    assert(halves(x).0 == a && halves(x).1 == b) by {
        reveal(six_parse);
        assert(halves(x).0 =~= a);
        assert(halves(x).1 =~= b);
    }
    assert(a.bytes() == w.subrange(0, 12)) by {
        <[u32; 3]>::lemma_plain(a, w.subrange(0, 12));
    }
    assert(b.bytes() == w.subrange(12, 24)) by {
        <[u32; 3]>::lemma_plain(b, w.subrange(12, 24));
    }
    assert(six_bytes(x) == a.bytes() + b.bytes()) by {
        reveal(six_bytes);
    }
    assert(w.subrange(0, 12) + w.subrange(12, 24) =~= w);
}

impl Plain for [u32; 6] {
    open spec fn width() -> nat {
        24
    }

    open spec fn parse(w: Seq<u8>) -> [u32; 6] {
        six_parse(w)
    }

    open spec fn bytes(self) -> Seq<u8> {
        six_bytes(self)
    }

    proof fn lemma_plain(x: [u32; 6], w: Seq<u8>) {
        lemma_six_parse_bytes(x);
        if w.len() == 24 {
            lemma_six_bytes_parse(w);
        }
    }

    fn size() -> (n: usize) {
        24
    }

    fn get(data: &[u8], at: usize) -> (r: [u32; 6]) {
        let ghost w = data@.subrange(at as int, at + 24);
        assert(w.subrange(0, 12) =~= data@.subrange(at as int, at + 12));
        assert(w.subrange(12, 24) =~= data@.subrange(at + 12, at + 24));
        let a = <[u32; 3]>::get(data, at);
        let b = <[u32; 3]>::get(data, at + 12);
        let r = [a[0], a[1], a[2], b[0], b[1], b[2]];
        proof {
            reveal(six_parse);
            assert(r =~= six_parse(w));
        }
        r
    }

    fn put(&self, out: &mut Vec<u8>) {
        let a = [self[0], self[1], self[2]];
        let b = [self[3], self[4], self[5]];
        proof {
            reveal(six_bytes);
            assert(a =~= halves(*self).0);
            assert(b =~= halves(*self).1);
        }
        a.put(out);
        b.put(out);
        assert(out@ =~= old(out)@ + self.bytes());
    }
}

} // verus!
