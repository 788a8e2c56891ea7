//! Little-endian wire primitives shared by every asset family: integers,
//! fixed-width records, counted sequences of records, magic constants, and
//! the failure type of the binary decoders.

use vstd::prelude::*;

verus! {

/// A dominant-axis field holds a number outside `1..=6`.
#[derive(Debug, Clone, Copy, PartialEq, Eq)]
pub struct NormalIDError;

/// Why a packed index stream could not be unpacked.
#[derive(Debug, Clone, Copy, PartialEq, Eq)]
pub enum FacesStateMachineError {
    /// The stream ended before the declared number of indices was produced.
    UnexpectedEOF,
    /// The stream holds bytes past the declared number of indices.
    UnusedData,
}

/// Why a value could not be written.
#[derive(Debug, Clone, Copy, PartialEq, Eq)]
pub enum WriteMeshDataError {
    /// Solid-geometry revision 5 can only be read.
    CSGMDL5,
}

/// A failure that one of the formats raises over its own rules.
#[derive(Debug, Clone, Copy, PartialEq, Eq)]
pub enum CustomError {
    NormalId(NormalIDError),
    Faces(FacesStateMachineError),
    /// The split point `range_end` of a face list lies beyond the `len`
    /// indices that were produced.
    FacesRange { range_end: u32, len: u32 },
    Write(WriteMeshDataError),
}

/// Why a binary decode stopped.
#[derive(Debug, Clone, PartialEq, Eq)]
pub enum BinError {
    /// The input ended before the field that was being read.
    UnexpectedEof,
    /// A constant that the layout demands at `pos` was not there; `found`
    /// holds the bytes that stood in its place.
    BadMagic { pos: u64, found: Vec<u8> },
    /// An enumerated field at `pos` holds a number that names no variant.
    NoVariantMatch { pos: u64 },
    /// A rule of the format is broken by the field at `pos`.
    Custom { pos: u64, err: CustomError },
}

/// The mathematical value of a [`BinError`].
pub enum BinErrorView {
    UnexpectedEof,
    BadMagic { pos: int, found: Seq<u8> },
    NoVariantMatch { pos: int },
    Custom { pos: int, err: CustomError },
}

impl View for BinError {
    type V = BinErrorView;

    open spec fn view(&self) -> BinErrorView {
        match *self {
            BinError::UnexpectedEof => BinErrorView::UnexpectedEof,
            BinError::BadMagic { pos, found } => BinErrorView::BadMagic {
                pos: pos as int,
                found: found@,
            },
            BinError::NoVariantMatch { pos } => BinErrorView::NoVariantMatch { pos: pos as int },
            BinError::Custom { pos, err } => BinErrorView::Custom { pos: pos as int, err },
        }
    }
}

/// The unsigned 16-bit number whose little-endian bytes start at `at`.
pub open spec fn le_u16(s: Seq<u8>, at: int) -> u16 {
    (s[at] as int + s[at + 1] as int * 0x100) as u16
}

/// The unsigned 32-bit number whose little-endian bytes start at `at`.
pub open spec fn le_u32(s: Seq<u8>, at: int) -> u32 {
    (s[at] as int + s[at + 1] as int * 0x100 + s[at + 2] as int * 0x1_0000 + s[at + 3] as int
        * 0x100_0000) as u32
}

/// The unsigned 64-bit number whose little-endian bytes start at `at`.
pub open spec fn le_u64(s: Seq<u8>, at: int) -> u64 {
    (le_u32(s, at) as int + le_u32(s, at + 4) as int * 0x1_0000_0000) as u64
}

/// The two little-endian bytes of `x`.
pub open spec fn u16_le(x: u16) -> Seq<u8> {
    seq![(x % 0x100) as u8, (x / 0x100) as u8]
}

/// The four little-endian bytes of `x`.
pub open spec fn u32_le(x: u32) -> Seq<u8> {
    seq![
        (x % 0x100) as u8,
        ((x / 0x100) % 0x100) as u8,
        ((x / 0x1_0000) % 0x100) as u8,
        (x / 0x100_0000) as u8,
    ]
}

/// The eight little-endian bytes of `x`.
pub open spec fn u64_le(x: u64) -> Seq<u8> {
    u32_le((x % 0x1_0000_0000) as u32) + u32_le((x / 0x1_0000_0000) as u32)
}

/// The signed byte with the same bit pattern as `b`.
pub open spec fn i8_of(b: u8) -> i8 {
    if b < 0x80 {
        b as i8
    } else {
        (b as int - 0x100) as i8
    }
}

/// The unsigned byte with the same bit pattern as `x`.
pub open spec fn u8_of(x: i8) -> u8 {
    if x >= 0 {
        x as u8
    } else {
        (x as int + 0x100) as u8
    }
}

/// The signed 16-bit number with the same bit pattern as `x`.
pub open spec fn i16_of(x: u16) -> i16 {
    if x < 0x8000 {
        x as i16
    } else {
        (x as int - 0x1_0000) as i16
    }
}

/// The unsigned 16-bit number with the same bit pattern as `x`.
pub open spec fn u16_of(x: i16) -> u16 {
    if x >= 0 {
        x as u16
    } else {
        (x as int + 0x1_0000) as u16
    }
}

/// Computes [`i8_of`].
pub fn to_i8(b: u8) -> (r: i8)
    ensures
        r == i8_of(b),
{
    if b < 0x80 {
        b as i8
    } else {
        (b as i16 - 0x100) as i8
    }
}

/// Computes [`u8_of`].
pub fn from_i8(x: i8) -> (r: u8)
    ensures
        r == u8_of(x),
{
    if x >= 0 {
        x as u8
    } else {
        (x as i16 + 0x100) as u8
    }
}

/// Computes [`i16_of`].
pub fn to_i16(x: u16) -> (r: i16)
    ensures
        r == i16_of(x),
{
    if x < 0x8000 {
        x as i16
    } else {
        (x as i32 - 0x1_0000) as i16
    }
}

/// Computes [`u16_of`].
pub fn from_i16(x: i16) -> (r: u16)
    ensures
        r == u16_of(x),
{
    if x >= 0 {
        x as u16
    } else {
        (x as i32 + 0x1_0000) as u16
    }
}

/// Reads the 16-bit number at `at`.
pub fn get_u16(data: &[u8], at: usize) -> (r: u16)
    requires
        at + 2 <= data.len(),
    ensures
        r == le_u16(data@, at as int),
{
    (data[at] as u16) + (data[at + 1] as u16) * 0x100
}

/// Reads the 32-bit number at `at`.
pub fn get_u32(data: &[u8], at: usize) -> (r: u32)
    requires
        at + 4 <= data.len(),
    ensures
        r == le_u32(data@, at as int),
{
    (data[at] as u32) + (data[at + 1] as u32) * 0x100 + (data[at + 2] as u32) * 0x1_0000 + (
    data[at + 3] as u32) * 0x100_0000
}

/// Reads the 64-bit number at `at`.
pub fn get_u64(data: &[u8], at: usize) -> (r: u64)
    requires
        at + 8 <= data.len(),
    ensures
        r == le_u64(data@, at as int),
{
    (get_u32(data, at) as u64) + (get_u32(data, at + 4) as u64) * 0x1_0000_0000
}

/// Appends the two bytes of `x`.
pub fn put_u16(x: u16, out: &mut Vec<u8>)
    ensures
        final(out)@ == old(out)@ + u16_le(x),
{
    out.push((x % 0x100) as u8);
    out.push((x / 0x100) as u8);
    assert(out@ =~= old(out)@ + u16_le(x));
}

/// Appends the four bytes of `x`.
pub fn put_u32(x: u32, out: &mut Vec<u8>)
    ensures
        final(out)@ == old(out)@ + u32_le(x),
{
    out.push((x % 0x100) as u8);
    out.push(((x / 0x100) % 0x100) as u8);
    out.push(((x / 0x1_0000) % 0x100) as u8);
    out.push((x / 0x100_0000) as u8);
    assert(out@ =~= old(out)@ + u32_le(x));
}

/// Appends the eight bytes of `x`.
pub fn put_u64(x: u64, out: &mut Vec<u8>)
    ensures
        final(out)@ == old(out)@ + u64_le(x),
{
    put_u32((x % 0x1_0000_0000) as u32, out);
    put_u32((x / 0x1_0000_0000) as u32, out);
    assert(out@ =~= old(out)@ + u64_le(x));
}

/// Reading the bytes of a 16-bit number gives the number back.
pub proof fn lemma_u16_le(x: u16)
    ensures
        u16_le(x).len() == 2,
        le_u16(u16_le(x), 0) == x,
{
}

/// Writing the 16-bit number read at `at` gives the bytes at `at` back.
pub proof fn lemma_le_u16(s: Seq<u8>, at: int)
    requires
        0 <= at,
        at + 2 <= s.len(),
    ensures
        u16_le(le_u16(s, at)) == s.subrange(at, at + 2),
{
    assert(u16_le(le_u16(s, at)) =~= s.subrange(at, at + 2));
}

/// Reading the bytes of a 32-bit number gives the number back.
pub proof fn lemma_u32_le(x: u32)
    ensures
        u32_le(x).len() == 4,
        le_u32(u32_le(x), 0) == x,
{
}

/// Writing the 32-bit number read at `at` gives the bytes at `at` back.
pub proof fn lemma_le_u32(s: Seq<u8>, at: int)
    requires
        0 <= at,
        at + 4 <= s.len(),
    ensures
        u32_le(le_u32(s, at)) == s.subrange(at, at + 4),
{
    let w = s.subrange(at, at + 4);
    let b0 = w[0] as int;
    let b1 = w[1] as int;
    let b2 = w[2] as int;
    let b3 = w[3] as int;
    let x = b0 + b1 * 0x100 + b2 * 0x1_0000 + b3 * 0x100_0000;
    assert(le_u32(s, at) == x);
    assert(x % 0x100 == b0);
    assert((x / 0x100) % 0x100 == b1);
    assert((x / 0x1_0000) % 0x100 == b2);
    assert(x / 0x100_0000 == b3);
    assert(u32_le(le_u32(s, at)) =~= w);
}

/// Reading the bytes of a 64-bit number gives the number back.
pub proof fn lemma_u64_le(x: u64)
    ensures
        u64_le(x).len() == 8,
        le_u64(u64_le(x), 0) == x,
{
    let lo = (x % 0x1_0000_0000) as u32;
    let hi = (x / 0x1_0000_0000) as u32;
    let s = u64_le(x);
    lemma_u32_le(lo);
    lemma_u32_le(hi);
    assert(s.subrange(0, 4) =~= u32_le(lo));
    assert(s.subrange(4, 8) =~= u32_le(hi));
    assert(le_u32(s, 0) == lo) by {
        lemma_le_u32_window(s, 0);
    }
    assert(le_u32(s, 4) == hi) by {
        lemma_le_u32_window(s, 4);
    }
}

/// A 32-bit read depends on its four bytes alone.
pub proof fn lemma_le_u32_window(s: Seq<u8>, at: int)
    requires
        0 <= at,
        at + 4 <= s.len(),
    ensures
        le_u32(s, at) == le_u32(s.subrange(at, at + 4), 0),
{
}

/// The two halves of a 64-bit number.
pub proof fn lemma_halves(lo: u32, hi: u32)
    ensures
        lo + hi * 0x1_0000_0000 <= u64::MAX,
        (lo + hi * 0x1_0000_0000) % 0x1_0000_0000 == lo,
        (lo + hi * 0x1_0000_0000) / 0x1_0000_0000 == hi,
{
}

/// Writing the 64-bit number read at `at` gives the bytes at `at` back.
pub proof fn lemma_le_u64(s: Seq<u8>, at: int)
    requires
        0 <= at,
        at + 8 <= s.len(),
    ensures
        u64_le(le_u64(s, at)) == s.subrange(at, at + 8),
{
    let lo = le_u32(s, at);
    let hi = le_u32(s, at + 4);
    lemma_halves(lo, hi);
    let a = s.subrange(at, at + 4);
    let b = s.subrange(at + 4, at + 8);
    assert(u32_le(lo) == a) by {
        lemma_le_u32(s, at);
    }
    assert(u32_le(hi) == b) by {
        lemma_le_u32(s, at + 4);
    }
    assert(a + b =~= s.subrange(at, at + 8));
}

/// `Ok` where the bytes of `magic` stand at `at`; otherwise the failure that
/// reading them gives.
pub open spec fn magic_at(s: Seq<u8>, at: int, magic: Seq<u8>) -> Result<(), BinErrorView> {
    if s.len() - at < magic.len() {
        Err(BinErrorView::UnexpectedEof)
    } else if s.subrange(at, at + magic.len()) == magic {
        Ok(())
    } else {
        Err(BinErrorView::BadMagic { pos: at, found: s.subrange(at, at + magic.len()) })
    }
}

/// `Ok` where at least `n` bytes lie at or after `at`.
pub open spec fn need(s: Seq<u8>, at: int, n: int) -> Result<(), BinErrorView> {
    if s.len() - at < n {
        Err(BinErrorView::UnexpectedEof)
    } else {
        Ok(())
    }
}

/// The outcome of `next` where `first` went well, the failure of `first`
/// otherwise: one step of reading fields in their order.
pub open spec fn then<T>(first: Result<(), BinErrorView>, next: Result<T, BinErrorView>) -> Result<
    T,
    BinErrorView,
> {
    match first {
        Ok(_) => next,
        Err(e) => Err(e),
    }
}

/// Where a run of bytes is `x` followed by `y`, its first part is `x` and
/// its second part is `y`.
pub proof fn lemma_split(s: Seq<u8>, at: int, x: Seq<u8>, y: Seq<u8>)
    requires
        0 <= at,
        at + x.len() + y.len() <= s.len(),
        s.subrange(at, at + x.len() + y.len()) == x + y,
    ensures
        s.subrange(at, at + x.len()) == x,
        s.subrange(at + x.len(), at + x.len() + y.len()) == y,
{
    let w = s.subrange(at, at + x.len() + y.len());
    assert(s.subrange(at, at + x.len()) =~= w.subrange(0, x.len() as int));
    assert(s.subrange(at + x.len(), at + x.len() + y.len()) =~= w.subrange(
        x.len() as int,
        (x.len() + y.len()) as int,
    ));
    assert((x + y).subrange(0, x.len() as int) =~= x);
    assert((x + y).subrange(x.len() as int, (x.len() + y.len()) as int) =~= y);
}

/// Appending one run after another is appending the two at once.
pub proof fn lemma_assoc(a: Seq<u8>, b: Seq<u8>, c: Seq<u8>)
    ensures
        a + b + c == a + (b + c),
{
    assert(a + b + c =~= a + (b + c));
}

/// Two runs of bytes that follow each other make one run.
pub proof fn lemma_join(s: Seq<u8>, a: int, b: int, c: int)
    requires
        0 <= a <= b <= c <= s.len(),
    ensures
        s.subrange(a, b) + s.subrange(b, c) == s.subrange(a, c),
{
    assert(s.subrange(a, b) + s.subrange(b, c) =~= s.subrange(a, c));
}

/// Checks that at least `n` bytes lie at or after `at`.
pub fn check_need(data: &[u8], at: usize, n: usize) -> (r: Result<(), BinError>)
    requires
        at <= data.len(),
    ensures
        match r {
            Ok(()) => need(data@, at as int, n as int) == Ok::<(), BinErrorView>(()),
            Err(e) => need(data@, at as int, n as int) == Err::<(), BinErrorView>(e@),
        },
{
    if data.len() - at < n {
        Err(BinError::UnexpectedEof)
    } else {
        Ok(())
    }
}

/// Copies `n` bytes starting at `at`.
pub fn get_bytes(data: &[u8], at: usize, n: usize) -> (r: Result<Vec<u8>, BinError>)
    requires
        at <= data.len(),
    ensures
        match r {
            Ok(v) => data.len() - at >= n && v@ == data@.subrange(at as int, at + n),
            Err(e) => data.len() - at < n && e == BinError::UnexpectedEof,
        },
{
    if data.len() - at < n {
        return Err(BinError::UnexpectedEof);
    }
    let mut v: Vec<u8> = Vec::new();
    let mut i: usize = 0;
    while i < n
        invariant
            at + n <= data.len(),
            i <= n,
            v@ == data@.subrange(at as int, at + i),
        decreases n - i,
    {
        v.push(data[at + i]);
        i += 1;
        assert(v@ =~= data@.subrange(at as int, at + i));
    }
    Ok(v)
}

/// Appends the bytes of `v`.
pub fn put_bytes(v: &[u8], out: &mut Vec<u8>)
    ensures
        final(out)@ == old(out)@ + v@,
{
    let mut i: usize = 0;
    while i < v.len()
        invariant
            i <= v.len(),
            out@ == old(out)@ + v@.subrange(0, i as int),
        decreases v.len() - i,
    {
        out.push(v[i]);
        i += 1;
        assert(out@ =~= old(out)@ + v@.subrange(0, i as int));
    }
    assert(v@.subrange(0, v.len() as int) =~= v@);
}

/// Checks that the bytes of `magic` stand at `at`.
pub fn expect_magic(data: &[u8], at: usize, magic: &[u8]) -> (r: Result<(), BinError>)
    requires
        at <= data.len(),
    ensures
        match r {
            Ok(()) => magic_at(data@, at as int, magic@) == Ok::<(), BinErrorView>(()),
            Err(e) => magic_at(data@, at as int, magic@) == Err::<(), BinErrorView>(e@),
        },
{
    let n = magic.len();
    match get_bytes(data, at, n) {
        Err(e) => Err(e),
        Ok(found) => {
            let mut i: usize = 0;
            let mut same = true;
            assert(found@.subrange(0, 0) =~= magic@.subrange(0, 0));
            while i < n
                invariant
                    i <= n,
                    n == magic.len(),
                    found.len() == n,
                    same == (found@.subrange(0, i as int) == magic@.subrange(0, i as int)),
                decreases n - i,
            {
                let eq = found[i] == magic[i];
                proof {
                    let a = found@.subrange(0, i as int);
                    let b = magic@.subrange(0, i as int);
                    let a2 = found@.subrange(0, i + 1);
                    let b2 = magic@.subrange(0, i + 1);
                    assert(a =~= a2.subrange(0, i as int));
                    assert(b =~= b2.subrange(0, i as int));
                    if a == b && eq {
                        assert(a2 =~= b2);
                    }
                    if a2 == b2 {
                        assert(a2[i as int] == b2[i as int]);
                    }
                }
                same = same && eq;
                i += 1;
            }
            assert(found@.subrange(0, n as int) =~= found@);
            assert(magic@.subrange(0, n as int) =~= magic@);
            if same {
                Ok(())
            } else {
                Err(BinError::BadMagic { pos: at as u64, found })
            }
        },
    }
}

/// A record of fixed width that every pattern of that many bytes denotes.
pub trait Plain: Sized {
    /// How many bytes one record takes.
    spec fn width() -> nat;

    /// The record that the bytes `w` denote (`w` holds `width()` bytes).
    spec fn parse(w: Seq<u8>) -> Self;

    /// The bytes of the record.
    spec fn bytes(self) -> Seq<u8>;

    /// Parsing and writing undo each other, on records and on bytes.
    proof fn lemma_plain(x: Self, w: Seq<u8>)
        ensures
            0 < Self::width() <= 0x100,
            x.bytes().len() == Self::width(),
            Self::parse(x.bytes()) == x,
            w.len() == Self::width() ==> Self::parse(w).bytes() == w,
    ;

    fn size() -> (n: usize)
        ensures
            n == Self::width(),
    ;

    fn get(data: &[u8], at: usize) -> (r: Self)
        requires
            at + Self::width() <= data.len(),
        ensures
            r == Self::parse(data@.subrange(at as int, at + Self::width())),
    ;

    fn put(&self, out: &mut Vec<u8>)
        ensures
            final(out)@ == old(out)@ + self.bytes(),
    ;
}

/// The `n` records that lie back to back from `at` on.
pub open spec fn parse_seq<T: Plain>(s: Seq<u8>, at: int, n: nat) -> Seq<T> {
    Seq::new(
        n,
        |i: int| T::parse(s.subrange(at + i * T::width(), at + i * T::width() + T::width())),
    )
}

/// The bytes of the records of `v`, back to back.
pub open spec fn seq_bytes<T: Plain>(v: Seq<T>) -> Seq<u8>
    decreases v.len(),
{
    if v.len() == 0 {
        Seq::empty()
    } else {
        seq_bytes(v.drop_last()) + v.last().bytes()
    }
}

/// A record takes at least one byte and at most 256.
pub proof fn lemma_width<T: Plain>()
    ensures
        0 < T::width() <= 0x100,
{
    let x: T = arbitrary();
    T::lemma_plain(x, Seq::empty());
}

/// The bytes of a sequence of records are as many as the records times their
/// width.
pub proof fn lemma_seq_bytes_len<T: Plain>(v: Seq<T>)
    ensures
        seq_bytes(v).len() == v.len() * T::width(),
    decreases v.len(),
{
    if v.len() > 0 {
        lemma_seq_bytes_len(v.drop_last());
        T::lemma_plain(v.last(), Seq::empty());
        assert((v.len() - 1) * T::width() + T::width() == v.len() * T::width())
            by (nonlinear_arith);
    } else {
        assert(0 * T::width() == 0);
    }
}

/// Writing the records that were parsed gives back the bytes they came from.
pub proof fn lemma_seq_bytes_of_parse<T: Plain>(s: Seq<u8>, at: int, n: nat)
    requires
        0 <= at,
        at + n * T::width() <= s.len(),
    ensures
        seq_bytes(parse_seq::<T>(s, at, n)) == s.subrange(at, at + n * T::width()),
    decreases n,
{
    let w = T::width() as int;
    lemma_width::<T>();
    if n == 0 {
        assert(0 * w == 0);
        assert(s.subrange(at, at + 0) =~= Seq::<u8>::empty());
    } else {
        let m = (n - 1) as nat;
        assert(m * w + w == n * w) by (nonlinear_arith)
            requires
                m + 1 == n,
        ;
        assert(0 <= m * w) by (nonlinear_arith)
            requires
                m >= 0,
                w > 0,
        ;
        let v = parse_seq::<T>(s, at, n);
        assert(v.drop_last() =~= parse_seq::<T>(s, at, m));
        lemma_seq_bytes_of_parse::<T>(s, at, m);
        let win = s.subrange(at + m * w, at + m * w + w);
        assert(v.last() == T::parse(win));
        T::lemma_plain(v.last(), win);
        assert(s.subrange(at, at + m * w) + win =~= s.subrange(at, at + n * w));
    }
}

/// The bytes of record `i` within the bytes of the whole sequence.
pub proof fn lemma_seq_bytes_window<T: Plain>(v: Seq<T>, i: int)
    requires
        0 <= i < v.len(),
    ensures
        0 <= i * T::width(),
        i * T::width() + T::width() <= seq_bytes(v).len(),
        seq_bytes(v).subrange(i * T::width(), i * T::width() + T::width()) == v[i].bytes(),
    decreases v.len(),
{
    let w = T::width() as int;
    lemma_width::<T>();
    lemma_seq_bytes_len(v);
    lemma_seq_bytes_len(v.drop_last());
    T::lemma_plain(v.last(), Seq::empty());
    let m = v.len() - 1;
    assert(m * w + w == v.len() * w) by (nonlinear_arith)
        requires
            m + 1 == v.len(),
    ;
    assert(0 <= i * w && i * w + w <= v.len() * w) by (nonlinear_arith)
        requires
            0 <= i < v.len(),
            w > 0,
    ;
    if i == m {
        assert(seq_bytes(v).subrange(i * w, i * w + w) =~= v[i].bytes());
    } else {
        lemma_seq_bytes_window(v.drop_last(), i);
        assert(i * w + w <= m * w) by (nonlinear_arith)
            requires
                0 <= i < m,
                w > 0,
        ;
        assert(seq_bytes(v).subrange(i * w, i * w + w) =~= seq_bytes(v.drop_last()).subrange(
            i * w,
            i * w + w,
        ));
    }
}

/// Where the bytes of the records `v` stand at `at`, the records read at
/// `at` are `v`.
pub proof fn lemma_parse_seq_at<T: Plain>(s: Seq<u8>, at: int, v: Seq<T>)
    requires
        0 <= at,
        at + seq_bytes(v).len() <= s.len(),
        s.subrange(at, at + seq_bytes(v).len()) == seq_bytes(v),
    ensures
        parse_seq::<T>(s, at, v.len()) == v,
{
    let w = T::width() as int;
    let p = parse_seq::<T>(s, at, v.len());
    assert forall|i: int| 0 <= i < v.len() implies p[i] == v[i] by {
        lemma_seq_bytes_window(v, i);
        assert(s.subrange(at + i * w, at + i * w + w) =~= s.subrange(
            at,
            at + seq_bytes(v).len(),
        ).subrange(i * w, i * w + w));
        T::lemma_plain(v[i], Seq::empty());
    }
    assert(p =~= v);
}

/// Records that lie before a cut are read the same from the cut input.
pub proof fn lemma_parse_seq_cut<T: Plain>(s: Seq<u8>, at: int, n: nat, k: int)
    requires
        0 <= at,
        at + n * T::width() <= k <= s.len(),
    ensures
        parse_seq::<T>(s.take(k), at, n) == parse_seq::<T>(s, at, n),
{
    let w = T::width() as int;
    lemma_width::<T>();
    let p = parse_seq::<T>(s.take(k), at, n);
    let q = parse_seq::<T>(s, at, n);
    assert forall|i: int| 0 <= i < n implies p[i] == q[i] by {
        assert(0 <= i * w && i * w + w <= n * w) by (nonlinear_arith)
            requires
                0 <= i < n,
                w > 0,
        ;
        assert(s.take(k).subrange(at + i * w, at + i * w + w) =~= s.subrange(
            at + i * w,
            at + i * w + w,
        ));
    }
    assert(p =~= q);
}

/// The bytes of a sequence with one more record are the bytes of the sequence
/// followed by those of the record.
pub proof fn lemma_seq_bytes_push<T: Plain>(v: Seq<T>, x: T)
    ensures
        seq_bytes(v.push(x)) == seq_bytes(v) + x.bytes(),
{
    assert(v.push(x).drop_last() =~= v);
}

/// Reads `n` records starting at `at`.
pub fn get_seq<T: Plain>(data: &[u8], at: usize, n: usize) -> (r: Result<Vec<T>, BinError>)
    requires
        at <= data.len(),
    ensures
        match r {
            Ok(v) => data.len() - at >= n * T::width() && v@ == parse_seq::<T>(
                data@,
                at as int,
                n as nat,
            ),
            Err(e) => data.len() - at < n * T::width() && e == BinError::UnexpectedEof,
        },
{
    let w = T::size();
    proof {
        lemma_width::<T>();
    }
    let room = (data.len() - at) / w;
    if room < n {
        assert((data.len() - at) < n * w) by (nonlinear_arith)
            requires
                room == (data.len() - at) / (w as int),
                room < n,
                w > 0,
        ;
        return Err(BinError::UnexpectedEof);
    }
    assert(n * w <= data.len() - at) by (nonlinear_arith)
        requires
            room == (data.len() - at) / (w as int),
            room >= n,
            w > 0,
    ;
    let mut v: Vec<T> = Vec::new();
    let mut i: usize = 0;
    let mut p: usize = at;
    while i < n
        invariant
            i <= n,
            w == T::width(),
            0 < w,
            at + n * w <= data.len(),
            p == at + i * w,
            v@ == parse_seq::<T>(data@, at as int, i as nat),
        decreases n - i,
    {
        assert(i * w + w <= n * w) by (nonlinear_arith)
            requires
                i < n,
                w > 0,
        ;
        let x = T::get(data, p);
        v.push(x);
        assert((i + 1) * w == i * w + w) by (nonlinear_arith);
        p += w;
        i += 1;
        assert(v@ =~= parse_seq::<T>(data@, at as int, i as nat));
    }
    Ok(v)
}

/// Appends the records of `v`.
pub fn put_seq<T: Plain>(v: &Vec<T>, out: &mut Vec<u8>)
    ensures
        final(out)@ == old(out)@ + seq_bytes(v@),
{
    let mut i: usize = 0;
    while i < v.len()
        invariant
            i <= v.len(),
            out@ == old(out)@ + seq_bytes(v@.subrange(0, i as int)),
        decreases v.len() - i,
    {
        v[i].put(out);
        proof {
            lemma_seq_bytes_push(v@.subrange(0, i as int), v@[i as int]);
            assert(v@.subrange(0, i as int).push(v@[i as int]) =~= v@.subrange(0, i + 1));
            assert(out@ =~= old(out)@ + seq_bytes(v@.subrange(0, i + 1)));
        }
        i += 1;
    }
    assert(v@.subrange(0, v.len() as int) =~= v@);
}

} // verus!
