//! The position-keyed XOR pad that hides solid-geometry files from casual
//! inspection. Applying it twice at the same place changes nothing, so the
//! same transform reads and writes.

use vstd::prelude::*;
use crate::stream::Cursor;

verus! {

/// The pad: the byte at stream offset `o` is XORed with entry `o mod 31`.
pub const OBFUSCATION_NOISE_CYCLE_XOR: [u8; 31] = [
    86,
    46,
    110,
    88,
    49,
    32,
    48,
    4,
    52,
    105,
    12,
    119,
    12,
    1,
    94,
    0,
    26,
    96,
    55,
    105,
    29,
    82,
    43,
    7,
    79,
    36,
    89,
    101,
    83,
    4,
    122,
];

/// The pad byte for the stream offset `offset`.
pub open spec fn pad_at(offset: int) -> u8 {
    OBFUSCATION_NOISE_CYCLE_XOR[offset % 31]
}

/// The bytes `s`, which stand at stream offset `offset`, each XORed with
/// the pad byte of its place.
pub open spec fn obfuscated(s: Seq<u8>, offset: int) -> Seq<u8> {
    Seq::new(s.len(), |i: int| s[i] ^ pad_at(offset + i))
}

/// Applying the pad twice at the same offset gives the bytes back, for
/// every offset and every run of bytes.
pub proof fn lemma_obfuscation_involution(s: Seq<u8>, offset: int)
    ensures
        obfuscated(obfuscated(s, offset), offset) == s,
{
    let t = obfuscated(s, offset);
    assert forall|i: int| 0 <= i < s.len() implies obfuscated(t, offset)[i] == s[i] by {
        let b = s[i];
        let k = pad_at(offset + i);
        assert((b ^ k) ^ k == b) by (bit_vector);
    }
    assert(obfuscated(t, offset) =~= s);
}

/// A part of a transformed run is the transform of that part.
pub proof fn lemma_obfuscated_subrange(s: Seq<u8>, offset: int, i: int, j: int)
    requires
        0 <= i <= j <= s.len(),
    ensures
        obfuscated(s, offset).subrange(i, j) == obfuscated(s.subrange(i, j), offset + i),
{
    assert(obfuscated(s, offset).subrange(i, j) =~= obfuscated(s.subrange(i, j), offset + i));
}

/// XORs each byte of `buf` with the pad byte of its place, where the first
/// byte of `buf` stands at stream offset `offset`.
pub fn reversible_obfuscate(offset: u64, buf: &mut Vec<u8>)
    ensures
        final(buf)@ == obfuscated(old(buf)@, offset as int),
{
    let n = buf.len();
    let mut k: usize = (offset % 31) as usize;
    let mut i: usize = 0;
    while i < n
        invariant
            i <= n,
            n == buf.len(),
            buf.len() == old(buf).len(),
            k == (offset + i) % 31,
            forall|j: int| 0 <= j < i ==> buf@[j] == old(buf)@[j] ^ pad_at(offset + j),
            forall|j: int| i <= j < n ==> buf@[j] == old(buf)@[j],
        decreases n - i,
    {
        let b = buf[i] ^ OBFUSCATION_NOISE_CYCLE_XOR[k];
        buf[i] = b;
        k = if k == 30 {
            0
        } else {
            k + 1
        };
        i += 1;
    }
    assert(buf@ =~= obfuscated(old(buf)@, offset as int));
}

/// A stream seen through the pad. Reading from it gives the bytes of the
/// inner stream transformed at their true positions, and writing to it
/// hands the inner sink the transform of what was written.
pub struct Obfuscator<R> {
    inner: R,
}

impl<R> Obfuscator<R> {
    /// The stream that is wrapped.
    pub closed spec fn inner(self) -> R {
        self.inner
    }

    /// Wraps `read`.
    pub fn new(read: R) -> (r: Self)
        ensures
            r.inner() == read,
    {
        Obfuscator { inner: read }
    }

    /// Gives the wrapped stream back.
    pub fn into_inner(self) -> (r: R)
        ensures
            r == self.inner(),
    {
        self.inner
    }
}

impl<'a> Obfuscator<Cursor<'a>> {
    /// Reads up to `n` bytes from the position of the inner stream on and
    /// transforms them at that position. The caller gets fewer than `n`
    /// bytes only where the input ends.
    pub fn read(&mut self, n: usize) -> (r: Vec<u8>)
        ensures
            final(self).inner().bytes() == old(self).inner().bytes(),
            r@.len() == if old(self).inner().bytes().len() - old(self).inner().start() < n {
                old(self).inner().bytes().len() - old(self).inner().start()
            } else {
                n as int
            },
            r@ == obfuscated(
                old(self).inner().bytes().subrange(
                    old(self).inner().start(),
                    old(self).inner().start() + r@.len(),
                ),
                old(self).inner().start(),
            ),
            final(self).inner().offset() == if r@.len() == 0 {
                old(self).inner().offset()
            } else {
                old(self).inner().start() + r@.len()
            },
    {
        let pos = self.inner.index();
        let mut buf = self.inner.read(n);
        reversible_obfuscate(pos as u64, &mut buf);
        buf
    }

    /// Moves the inner stream to `pos`: the pad follows the position of the
    /// inner stream and keeps none of its own.
    pub fn seek(&mut self, pos: usize)
        ensures
            final(self).inner().bytes() == old(self).inner().bytes(),
            final(self).inner().offset() == pos,
    {
        self.inner.set_position(pos);
    }
}

impl Obfuscator<Vec<u8>> {
    /// Appends to the inner sink the transform of `buf` at the place where
    /// it comes to stand. `buf` itself is left as it is.
    pub fn write(&mut self, buf: &[u8]) -> (n: usize)
        ensures
            n == buf@.len(),
            final(self).inner()@ == old(self).inner()@ + obfuscated(
                buf@,
                old(self).inner()@.len() as int,
            ),
    {
        let pos = self.inner.len();
        let mut copy: Vec<u8> = Vec::new();
        let mut i: usize = 0;
        while i < buf.len()
            invariant
                i <= buf.len(),
                copy@ == buf@.subrange(0, i as int),
            decreases buf.len() - i,
        {
            copy.push(buf[i]);
            i += 1;
            assert(copy@ =~= buf@.subrange(0, i as int));
        }
        assert(buf@.subrange(0, buf.len() as int) =~= buf@);
        reversible_obfuscate(pos as u64, &mut copy);
        let mut k: usize = 0;
        while k < copy.len()
            invariant
                k <= copy.len(),
                self.inner@ == old(self).inner@ + copy@.subrange(0, k as int),
            decreases copy.len() - k,
        {
            self.inner.push(copy[k]);
            k += 1;
            assert(self.inner@ =~= old(self).inner@ + copy@.subrange(0, k as int));
        }
        assert(copy@.subrange(0, copy.len() as int) =~= copy@);
        buf.len()
    }
}

} // verus!
