//! Values whose bytes say where they end, and runs of such values.

use vstd::prelude::*;
use crate::wire::{BinError, BinErrorView, lemma_join, lemma_split};

verus! {

/// A value that is read from a place in the input and ends where its own
/// fields say. The laws tie reading to writing.
pub trait Framed: Sized {
    /// The counts of the value are the lengths of the lists they govern.
    spec fn wf(self) -> bool;

    /// The bytes of the value.
    spec fn bytes(self) -> Seq<u8>;

    /// The value that starts at `at` and the place where it ends; the
    /// failure of the first field that cannot be read otherwise.
    spec fn parse(s: Seq<u8>, at: int) -> Result<(Self, int), BinErrorView>;

    /// What was read is well formed, and its bytes are the bytes it was
    /// read from.
    proof fn lemma_read_write(s: Seq<u8>, at: int, m: Self, end: int)
        requires
            0 <= at <= s.len(),
            Self::parse(s, at) == Ok::<(Self, int), BinErrorView>((m, end)),
        ensures
            m.wf(),
            at <= end <= s.len(),
            m.bytes() == s.subrange(at, end),
    ;

    /// A well-formed value is read back from its bytes, wherever they
    /// stand.
    proof fn lemma_write_read(self, s: Seq<u8>, at: int)
        requires
            self.wf(),
            0 <= at,
            at + self.bytes().len() <= s.len(),
            s.subrange(at, at + self.bytes().len()) == self.bytes(),
        ensures
            Self::parse(s, at) == Ok::<(Self, int), BinErrorView>((self, at + self.bytes().len())),
    ;

    /// A value that lies before a cut is read the same from the cut input;
    /// a value that the cut runs through is not read at all: the input
    /// ends too early.
    proof fn lemma_cut(s: Seq<u8>, at: int, m: Self, end: int, k: int)
        requires
            0 <= at <= k <= s.len(),
            Self::parse(s, at) == Ok::<(Self, int), BinErrorView>((m, end)),
        ensures
            k < end ==> Self::parse(s.take(k), at) == Err::<(Self, int), BinErrorView>(
                BinErrorView::UnexpectedEof,
            ),
            k >= end ==> Self::parse(s.take(k), at) == Self::parse(s, at),
    ;
}

/// One more value behind those of `prev`.
pub open spec fn parse_next<T: Framed>(
    prev: Result<(Seq<T>, int), BinErrorView>,
    s: Seq<u8>,
) -> Result<(Seq<T>, int), BinErrorView> {
    match prev {
        Err(e) => Err(e),
        Ok((v, a)) => match T::parse(s, a) {
            Err(e) => Err(e),
            Ok((m, end)) => Ok((v.push(m), end)),
        },
    }
}

/// The `n` values that follow each other from `at` on, and the place where
/// the last one ends; the failure of the first one that cannot be read
/// otherwise.
pub open spec fn parse_count<T: Framed>(s: Seq<u8>, at: int, n: nat) -> Result<
    (Seq<T>, int),
    BinErrorView,
>
    decreases n,
{
    if n == 0 {
        Ok((Seq::empty(), at))
    } else {
        parse_next(parse_count::<T>(s, at, (n - 1) as nat), s)
    }
}

/// The bytes of the values of `v`, one after the other.
pub open spec fn frames_bytes<T: Framed>(v: Seq<T>) -> Seq<u8>
    decreases v.len(),
{
    if v.len() == 0 {
        Seq::empty()
    } else {
        frames_bytes(v.drop_last()) + v.last().bytes()
    }
}

/// Every value of `v` is well formed.
pub open spec fn all_wf<T: Framed>(v: Seq<T>) -> bool {
    forall|i: int| 0 <= i < v.len() ==> (#[trigger] v[i]).wf()
}

/// The values that were read are well formed, and their bytes are the
/// bytes they were read from.
pub proof fn lemma_count_read_write<T: Framed>(s: Seq<u8>, at: int, n: nat, v: Seq<T>, end: int)
    requires
        0 <= at <= s.len(),
        parse_count::<T>(s, at, n) == Ok::<(Seq<T>, int), BinErrorView>((v, end)),
    ensures
        v.len() == n,
        all_wf(v),
        at <= end <= s.len(),
        frames_bytes(v) == s.subrange(at, end),
    decreases n,
{
    if n == 0 {
        assert(s.subrange(at, at) =~= Seq::<u8>::empty());
    } else {
        let prev = parse_count::<T>(s, at, (n - 1) as nat);
        let (v0, a) = prev->Ok_0;
        let (m, e) = T::parse(s, a)->Ok_0;
        lemma_count_read_write::<T>(s, at, (n - 1) as nat, v0, a);
        T::lemma_read_write(s, a, m, end);
        assert(v.drop_last() =~= v0);
        assert(v.last() == m);
        lemma_join(s, at, a, end);
        assert forall|i: int| 0 <= i < v.len() implies (#[trigger] v[i]).wf() by {
            if i < v0.len() {
                assert(v[i] == v0[i]);
            }
        }
    }
}

/// Well-formed values are read back from their bytes, wherever they stand.
pub proof fn lemma_count_write_read<T: Framed>(v: Seq<T>, s: Seq<u8>, at: int)
    requires
        all_wf(v),
        0 <= at,
        at + frames_bytes(v).len() <= s.len(),
        s.subrange(at, at + frames_bytes(v).len()) == frames_bytes(v),
    ensures
        parse_count::<T>(s, at, v.len()) == Ok::<(Seq<T>, int), BinErrorView>(
            (v, at + frames_bytes(v).len()),
        ),
    decreases v.len(),
{
    if v.len() == 0 {
        assert(v =~= Seq::<T>::empty());
    } else {
        let v0 = v.drop_last();
        let m = v.last();
        let b0 = frames_bytes(v0);
        lemma_split(s, at, b0, m.bytes());
        assert(all_wf(v0)) by {
            assert forall|i: int| 0 <= i < v0.len() implies (#[trigger] v0[i]).wf() by {
                assert(v0[i] == v[i]);
            }
        }
        lemma_count_write_read::<T>(v0, s, at);
        assert(m.wf());
        m.lemma_write_read(s, at + b0.len());
        assert(v0.push(m) =~= v);
    }
}

/// Values that lie before a cut are read the same from the cut input; where
/// the cut runs through one of them the input ends too early.
pub proof fn lemma_count_cut<T: Framed>(s: Seq<u8>, at: int, n: nat, v: Seq<T>, end: int, k: int)
    requires
        0 <= at <= k <= s.len(),
        parse_count::<T>(s, at, n) == Ok::<(Seq<T>, int), BinErrorView>((v, end)),
    ensures
        k < end ==> parse_count::<T>(s.take(k), at, n) == Err::<(Seq<T>, int), BinErrorView>(
            BinErrorView::UnexpectedEof,
        ),
        k >= end ==> parse_count::<T>(s.take(k), at, n) == parse_count::<T>(s, at, n),
    decreases n,
{
    if n > 0 {
        let prev = parse_count::<T>(s, at, (n - 1) as nat);
        let (v0, a) = prev->Ok_0;
        let (m, e) = T::parse(s, a)->Ok_0;
        lemma_count_read_write::<T>(s, at, (n - 1) as nat, v0, a);
        T::lemma_read_write(s, a, m, end);
        lemma_count_cut::<T>(s, at, (n - 1) as nat, v0, a, k);
        if k >= a {
            T::lemma_cut(s, a, m, end, k);
        }
    }
}

/// Once a value cannot be read, no longer run can be read either: the
/// failure stays.
pub proof fn lemma_count_err<T: Framed>(s: Seq<u8>, at: int, i: nat, n: nat)
    requires
        i <= n,
        parse_count::<T>(s, at, i) is Err,
    ensures
        parse_count::<T>(s, at, n) == parse_count::<T>(s, at, i),
    decreases n,
{
    if i < n {
        lemma_count_err::<T>(s, at, i, (n - 1) as nat);
    }
}

/// The values of `first` followed by those of `rest`, or the failure of
/// `rest`.
pub open spec fn prepend<T>(first: Seq<T>, rest: Result<Seq<T>, BinErrorView>) -> Result<
    Seq<T>,
    BinErrorView,
> {
    match rest {
        Err(e) => Err(e),
        Ok(v) => Ok(first + v),
    }
}

/// The values that follow each other from `at` to the end of the input:
/// none where `at` is the end, and otherwise one value and then the values
/// from its end on. The first value that cannot be read fails the whole
/// run, also where it is only cut short: a run is never read as a shorter
/// one.
pub open spec fn parse_all<T: Framed>(s: Seq<u8>, at: int) -> Result<Seq<T>, BinErrorView>
    decreases s.len() - at,
{
    if at >= s.len() {
        Ok(Seq::empty())
    } else {
        match T::parse(s, at) {
            Err(e) => Err(e),
            Ok((m, end)) => if end <= at || end > s.len() {
                Err(BinErrorView::UnexpectedEof)
            } else {
                prepend(seq![m], parse_all::<T>(s, end))
            },
        }
    }
}

/// `k` is where one of the values that follow each other from `at` on
/// starts or ends.
pub open spec fn is_boundary<T: Framed>(s: Seq<u8>, at: int, k: int) -> bool
    decreases s.len() - at,
{
    if k == at {
        true
    } else if at >= s.len() {
        false
    } else {
        match T::parse(s, at) {
            Err(e) => false,
            Ok((m, end)) => if end <= at || end > s.len() {
                false
            } else {
                is_boundary::<T>(s, end, k)
            },
        }
    }
}

/// The bytes of a run are the bytes of its first value followed by those
/// of the others.
pub proof fn lemma_frames_bytes_cons<T: Framed>(m: T, rest: Seq<T>)
    ensures
        frames_bytes(seq![m] + rest) == m.bytes() + frames_bytes(rest),
    decreases rest.len(),
{
    let v = seq![m] + rest;
    if rest.len() == 0 {
        assert(v.drop_last() =~= Seq::<T>::empty());
        assert(frames_bytes(v.drop_last()) =~= Seq::<u8>::empty());
        assert(Seq::<u8>::empty() + m.bytes() =~= m.bytes() + Seq::<u8>::empty());
        assert(v.last() == m);
    } else {
        lemma_frames_bytes_cons(m, rest.drop_last());
        assert(v.drop_last() =~= seq![m] + rest.drop_last());
        assert(v.last() == rest.last());
        assert(m.bytes() + frames_bytes(rest.drop_last()) + rest.last().bytes() =~= m.bytes() + (
        frames_bytes(rest.drop_last()) + rest.last().bytes()));
    }
}

/// The values that were read to the end of the input are well formed, and
/// their bytes are the bytes they were read from.
pub proof fn lemma_all_read_write<T: Framed>(s: Seq<u8>, at: int, v: Seq<T>)
    requires
        0 <= at <= s.len(),
        parse_all::<T>(s, at) == Ok::<Seq<T>, BinErrorView>(v),
    ensures
        all_wf(v),
        frames_bytes(v) == s.subrange(at, s.len() as int),
    decreases s.len() - at,
{
    if at >= s.len() {
        assert(s.subrange(at, s.len() as int) =~= Seq::<u8>::empty());
    } else {
        let (m, end) = T::parse(s, at)->Ok_0;
        let rest = parse_all::<T>(s, end)->Ok_0;
        T::lemma_read_write(s, at, m, end);
        lemma_all_read_write::<T>(s, end, rest);
        lemma_frames_bytes_cons(m, rest);
        lemma_join(s, at, end, s.len() as int);
        assert forall|i: int| 0 <= i < v.len() implies (#[trigger] v[i]).wf() by {
            if i > 0 {
                assert(v[i] == rest[i - 1]);
            }
        }
    }
}

/// Well-formed values, none of them empty, are read back from their bytes
/// where these run to the end of the input.
pub proof fn lemma_all_write_read<T: Framed>(v: Seq<T>, s: Seq<u8>, at: int)
    requires
        all_wf(v),
        forall|i: int| 0 <= i < v.len() ==> (#[trigger] v[i]).bytes().len() > 0,
        0 <= at <= s.len(),
        s.subrange(at, s.len() as int) == frames_bytes(v),
    ensures
        parse_all::<T>(s, at) == Ok::<Seq<T>, BinErrorView>(v),
    decreases v.len(),
{
    if v.len() == 0 {
        assert(v =~= Seq::<T>::empty());
        assert(s.subrange(at, s.len() as int).len() == 0);
    } else {
        let m = v[0];
        let rest = v.subrange(1, v.len() as int);
        assert(v =~= seq![m] + rest);
        lemma_frames_bytes_cons(m, rest);
        assert(m.wf());
        assert(m.bytes().len() > 0);
        assert(s.subrange(at, s.len() as int).len() == s.len() - at);
        assert(frames_bytes(v) == m.bytes() + frames_bytes(rest));
        assert(at + m.bytes().len() + frames_bytes(rest).len() == s.len());
        lemma_split(s, at, m.bytes(), frames_bytes(rest));
        m.lemma_write_read(s, at);
        assert(all_wf(rest)) by {
            assert forall|i: int| 0 <= i < rest.len() implies (#[trigger] rest[i]).wf() by {
                assert(rest[i] == v[i + 1]);
            }
        }
        assert forall|i: int| 0 <= i < rest.len() implies (#[trigger] rest[i]).bytes().len()
            > 0 by {
            assert(rest[i] == v[i + 1]);
        }
        lemma_all_write_read::<T>(rest, s, at + m.bytes().len());
    }
}

/// An input cut short inside one of the values that were read to its end
/// ends too early. Only a cut between two values leaves a shorter input
/// that can be read.
pub proof fn lemma_all_cut<T: Framed>(s: Seq<u8>, at: int, v: Seq<T>, k: int)
    requires
        0 <= at <= k <= s.len(),
        parse_all::<T>(s, at) == Ok::<Seq<T>, BinErrorView>(v),
        !is_boundary::<T>(s, at, k),
    ensures
        k < s.len(),
        parse_all::<T>(s.take(k), at) == Err::<Seq<T>, BinErrorView>(BinErrorView::UnexpectedEof),
    decreases s.len() - at,
{
    if at < s.len() {
        let (m, end) = T::parse(s, at)->Ok_0;
        let rest = parse_all::<T>(s, end)->Ok_0;
        T::lemma_read_write(s, at, m, end);
        T::lemma_cut(s, at, m, end, k);
        if k >= end {
            lemma_all_cut::<T>(s, end, rest, k);
        }
    }
}

/// A framed value that holds no list, so that it is its own mathematical
/// value, together with the code that reads and writes it.
pub trait Checked: Framed {
    /// Reads the value at `at`; gives it with the place where it ends.
    fn get(data: &[u8], at: usize) -> (r: Result<(Self, usize), BinError>)
        requires
            at <= data.len(),
        ensures
            match r {
                Ok((m, end)) => end <= data.len() && Self::parse(data@, at as int) == Ok::<
                    (Self, int),
                    BinErrorView,
                >((m, end as int)),
                Err(e) => Self::parse(data@, at as int) == Err::<(Self, int), BinErrorView>(e@),
            },
    ;

    /// Appends the bytes of the value.
    fn put(&self, out: &mut Vec<u8>)
        ensures
            final(out)@ == old(out)@ + self.bytes(),
    ;
}

/// Reads `n` values that follow each other from `at` on; gives them with
/// the place where the last one ends.
pub fn get_count<T: Checked>(data: &[u8], at: usize, n: usize) -> (r: Result<
    (Vec<T>, usize),
    BinError,
>)
    requires
        at <= data.len(),
    ensures
        match r {
            Ok((v, end)) => end <= data.len() && parse_count::<T>(data@, at as int, n as nat)
                == Ok::<(Seq<T>, int), BinErrorView>((v@, end as int)),
            Err(e) => parse_count::<T>(data@, at as int, n as nat) == Err::<
                (Seq<T>, int),
                BinErrorView,
            >(e@),
        },
{
    let mut v: Vec<T> = Vec::new();
    let mut cur: usize = at;
    let mut i: usize = 0;
    while i < n
        invariant
            i <= n,
            cur <= data.len(),
            parse_count::<T>(data@, at as int, i as nat) == Ok::<(Seq<T>, int), BinErrorView>(
                (v@, cur as int),
            ),
        decreases n - i,
    {
        match T::get(data, cur) {
            Err(e) => {
                proof {
                    assert(parse_count::<T>(data@, at as int, (i + 1) as nat) == Err::<
                        (Seq<T>, int),
                        BinErrorView,
                    >(e@));
                    lemma_count_err::<T>(data@, at as int, (i + 1) as nat, n as nat);
                }
                return Err(e);
            },
            Ok((m, end)) => {
                v.push(m);
                cur = end;
            },
        }
        i += 1;
    }
    Ok((v, cur))
}

/// Appends the values of `v`.
pub fn put_count<T: Checked>(v: &Vec<T>, out: &mut Vec<u8>)
    ensures
        final(out)@ == old(out)@ + frames_bytes(v@),
{
    let mut i: usize = 0;
    while i < v.len()
        invariant
            i <= v.len(),
            out@ == old(out)@ + frames_bytes(v@.subrange(0, i as int)),
        decreases v.len() - i,
    {
        v[i].put(out);
        proof {
            assert(v@.subrange(0, i + 1).drop_last() =~= v@.subrange(0, i as int));
            assert(out@ =~= old(out)@ + frames_bytes(v@.subrange(0, i + 1)));
        }
        i += 1;
    }
    assert(v@.subrange(0, v.len() as int) =~= v@);
}

} // verus!
