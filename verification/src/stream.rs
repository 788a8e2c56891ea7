//! An in-memory byte source with a position: what the decoders read from.

use vstd::prelude::*;

verus! {

/// A borrowed run of bytes together with the place of the next read.
///
/// The position may lie past the end, as after a seek; every read from there
/// finds the input exhausted.
pub struct Cursor<'a> {
    data: &'a [u8],
    pos: usize,
}

impl<'a> Cursor<'a> {
    /// All the bytes of the source, read or not.
    pub closed spec fn bytes(&self) -> Seq<u8> {
        self.data@
    }

    /// Where the next read starts.
    pub closed spec fn offset(&self) -> int {
        self.pos as int
    }

    /// Where the next read finds its first byte: the position, or the end
    /// of the input where the position lies past it.
    pub open spec fn start(&self) -> int {
        if self.offset() <= self.bytes().len() {
            self.offset()
        } else {
            self.bytes().len() as int
        }
    }

    /// A source over `data`, positioned at its first byte.
    pub fn new(data: &'a [u8]) -> (r: Self)
        ensures
            r.bytes() == data@,
            r.offset() == 0,
    {
        Cursor { data, pos: 0 }
    }

    /// The bytes of the source.
    pub fn get_ref(&self) -> (r: &'a [u8])
        ensures
            r@ == self.bytes(),
    {
        self.data
    }

    /// The position of the next read.
    pub fn position(&self) -> (r: u64)
        ensures
            r == self.offset(),
    {
        self.pos as u64
    }

    /// The position of the next read, as an index; it may lie past the end.
    pub fn place(&self) -> (r: usize)
        ensures
            r == self.offset(),
    {
        self.pos
    }

    /// The place of the first byte of the next read, as an index.
    pub fn index(&self) -> (r: usize)
        ensures
            r == self.start(),
            r <= self.bytes().len(),
    {
        if self.pos <= self.data.len() {
            self.pos
        } else {
            self.data.len()
        }
    }

    /// Takes up to `n` bytes from the position on and moves behind them:
    /// fewer than `n` only where the input ends.
    pub fn read(&mut self, n: usize) -> (r: Vec<u8>)
        ensures
            final(self).bytes() == old(self).bytes(),
            r@.len() == if old(self).bytes().len() - old(self).start() < n {
                old(self).bytes().len() - old(self).start()
            } else {
                n as int
            },
            r@ == old(self).bytes().subrange(old(self).start(), old(self).start() + r@.len()),
            final(self).offset() == if r@.len() == 0 {
                old(self).offset()
            } else {
                old(self).start() + r@.len()
            },
    {
        let at = self.index();
        let room = self.data.len() - at;
        let take = if room < n {
            room
        } else {
            n
        };
        let mut r: Vec<u8> = Vec::new();
        let mut i: usize = 0;
        while i < take
            invariant
                at + take <= self.data.len(),
                i <= take,
                r@ == self.data@.subrange(at as int, at + i),
            decreases take - i,
        {
            r.push(self.data[at + i]);
            i += 1;
            assert(r@ =~= self.data@.subrange(at as int, at + i));
        }
        if take > 0 {
            self.pos = at + take;
        }
        r
    }

    /// Moves to `pos`, which may lie past the end.
    pub fn set_position(&mut self, pos: usize)
        ensures
            final(self).bytes() == old(self).bytes(),
            final(self).offset() == pos,
    {
        self.pos = pos;
    }
}

} // verus!
