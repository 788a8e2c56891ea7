//! Mesh revisions 1.00 and 1.01: three lines of text. The first names the
//! revision, the second holds the number of faces, and the third holds the
//! vertices, each as three bracketed triples of decimal numbers.
//!
//! The numbers are kept as the text that the file holds. Turning them into
//! floating-point values, and the two fixups that these revisions call for
//! (halving the positions of revision 1.00, flipping the second texture
//! coordinate), are arithmetic on floating-point numbers and are left to
//! the caller.

use vstd::prelude::*;
use vstd::utf8::{decode_utf8, encode_utf8, is_ascii_chars_encode_utf8, valid_utf8};
use crate::mesh::{Error, ErrorView};
use crate::stream::Cursor;
use crate::wire::put_bytes;

verus! {

/// The pattern of one vertex: three bracketed triples, every field as short
/// as it can be.
pub const VERTEX_PATTERN: &'static str =
    r"\[(.*?),(.*?),(.*?)\]\[(.*?),(.*?),(.*?)\]\[(.*?),(.*?),(.*?)\]";

/// Which of the two text revisions a mesh is.
#[derive(Debug, Clone, Copy, PartialEq, Eq)]
pub enum Revision1 {
    Version100,
    Version101,
}

/// What the first two lines of a text revision say.
#[derive(Debug, Clone, Copy, PartialEq, Eq)]
pub struct Header1 {
    pub revision: Revision1,
    pub face_count: u32,
}

/// A vertex of a text revision: position, normal and texture coordinate,
/// each number as the decimal text between its brackets and commas.
#[derive(Debug, Clone, PartialEq, Eq)]
pub struct Vertex1 {
    pub pos: [String; 3],
    pub norm: [String; 3],
    pub tex: [String; 3],
}

/// The mathematical value of a [`Vertex1`]: its nine texts in the order of
/// the file.
pub struct Vertex1View {
    pub fields: Seq<Seq<char>>,
}

impl View for Vertex1 {
    type V = Vertex1View;

    open spec fn view(&self) -> Vertex1View {
        Vertex1View {
            fields: seq![
                self.pos[0]@,
                self.pos[1]@,
                self.pos[2]@,
                self.norm[0]@,
                self.norm[1]@,
                self.norm[2]@,
                self.tex[0]@,
                self.tex[1]@,
                self.tex[2]@,
            ],
        }
    }
}

/// A mesh of revision 1.00 or 1.01.
#[derive(Debug, Clone, PartialEq, Eq)]
pub struct Mesh1 {
    pub header: Header1,
    pub vertices: Vec<Vertex1>,
}

/// The mathematical value of a [`Mesh1`].
pub struct Mesh1View {
    pub header: Header1,
    pub vertices: Seq<Vertex1View>,
}

impl View for Mesh1 {
    type V = Mesh1View;

    open spec fn view(&self) -> Mesh1View {
        Mesh1View { header: self.header, vertices: self.vertices@.map_values(|v: Vertex1| v@) }
    }
}

/// The place of the first line feed at or after `at`, or the end of the
/// input where there is none.
pub open spec fn line_feed(s: Seq<u8>, at: int) -> int
    decreases s.len() - at,
{
    if at >= s.len() {
        s.len() as int
    } else if s[at] == 0x0a {
        at
    } else {
        line_feed(s, at + 1)
    }
}

/// The bytes of the line that starts at `at`: up to the next line feed,
/// without it and without a carriage return before it.
pub open spec fn line_at(s: Seq<u8>, at: int) -> Seq<u8> {
    let e = line_feed(s, at);
    if e < s.len() && at < e && s[e - 1] == 0x0d {
        s.subrange(at, e - 1)
    } else {
        s.subrange(at, e)
    }
}

/// Where the line behind the one at `at` starts.
pub open spec fn line_after(s: Seq<u8>, at: int) -> int {
    let e = line_feed(s, at);
    if e < s.len() {
        e + 1
    } else {
        e
    }
}

/// The first line feed at or after `at` lies between `at` and the end, and
/// no byte before it is a line feed.
pub proof fn lemma_line_feed(s: Seq<u8>, at: int)
    requires
        0 <= at <= s.len(),
    ensures
        at <= line_feed(s, at) <= s.len(),
        forall|i: int| at <= i < line_feed(s, at) ==> s[i] != 0x0a,
        line_feed(s, at) < s.len() ==> s[line_feed(s, at)] == 0x0a,
    decreases s.len() - at,
{
    if at < s.len() && s[at] != 0x0a {
        lemma_line_feed(s, at + 1);
    }
}

/// The text that `text` is without the white space at its two ends: what
/// `str::trim` gives.
pub uninterp spec fn trim_of(text: Seq<char>) -> Seq<char>;

/// For each match of `pattern` in `text`, from left to right and without
/// overlap, the text of each of its groups, the whole match first; a group
/// that took no part in the match has none. `None` where `pattern` is no
/// regular expression.
pub uninterp spec fn regex_captures_of(pattern: Seq<char>, text: Seq<char>) -> Option<
    Seq<Seq<Option<Seq<char>>>>,
>;

/// The number that the decimal digits `digits` spell, or `None` where one
/// of them is no digit.
pub open spec fn digits_value(digits: Seq<char>) -> Option<nat>
    decreases digits.len(),
{
    if digits.len() == 0 {
        Some(0nat)
    } else {
        let c = digits.last();
        match digits_value(digits.drop_last()) {
            None => None,
            Some(v) => if '0' <= c && c <= '9' {
                Some(v * 10 + ((c as u32 - '0' as u32) as nat))
            } else {
                None
            },
        }
    }
}

/// The number that `text` spells: an optional `+`, then one or more
/// decimal digits and nothing else, for a number that fits in 32 bits.
pub open spec fn decimal_u32(text: Seq<char>) -> Option<u32> {
    let digits = if text.len() > 0 && text[0] == '+' {
        text.subrange(1, text.len() as int)
    } else {
        text
    };
    if digits.len() == 0 {
        None
    } else {
        match digits_value(digits) {
            Some(v) => if v <= u32::MAX {
                Some(v as u32)
            } else {
                None
            },
            None => None,
        }
    }
}

/// `std::str::from_utf8`: the text that `bytes` encode, where they are
/// UTF-8, and `None` where they are not.
#[verifier::external_body]
fn utf8_text(bytes: &[u8]) -> (r: Option<String>)
    ensures
        r is Some <==> valid_utf8(bytes@),
        r matches Some(t) ==> t@ == decode_utf8(bytes@),
{
    match std::str::from_utf8(bytes) {
        Ok(t) => Some(t.to_owned()),
        Err(_) => None,
    }
}

/// `str::trim`: the text without the white space at its two ends. What
/// counts as white space is std's to say; the contract only names the
/// result.
#[verifier::external_body]
fn trim_text(text: &str) -> (r: String)
    ensures
        r@ == trim_of(text@),
{
    text.trim().to_owned()
}

/// `str::parse::<u32>`: the number that the text spells, as the
/// documentation of `u32::from_str` describes it: an optional `+` sign and
/// then only decimal digits, at least one, for a number that fits.
#[verifier::external_body]
fn parse_u32(text: &str) -> (r: Option<u32>)
    ensures
        r == decimal_u32(text@),
{
    text.parse::<u32>().ok()
}

/// `lazy_regex::Regex::new` and `Regex::captures_iter`: for each match of
/// `pattern` in `text` the text of every group, the whole match first. The
/// contract only names the result.
#[verifier::external_body]
fn regex_captures(pattern: &str, text: &str) -> (r: Option<Vec<Vec<Option<String>>>>)
    ensures
        r.deep_view() == regex_captures_of(pattern@, text@),
{
    match lazy_regex::Regex::new(pattern) {
        Err(_) => None,
        Ok(regex) => {
            let mut all = Vec::new();
            for c in regex.captures_iter(text) {
                let mut groups = Vec::new();
                for g in c.iter() {
                    groups.push(g.map(|m| m.as_str().to_owned()));
                }
                all.push(groups);
            }
            Some(all)
        },
    }
}

/// Reads a file line by line.
pub struct LineMachine<'a> {
    data: &'a [u8],
    pos: usize,
}

impl<'a> LineMachine<'a> {
    /// The bytes that are read.
    pub closed spec fn bytes(&self) -> Seq<u8> {
        self.data@
    }

    /// Where the next line starts.
    pub closed spec fn offset(&self) -> int {
        self.pos as int
    }

    /// A reader of the lines of `data` from `at` on.
    pub fn new(data: &'a [u8], at: usize) -> (r: Self)
        requires
            at <= data.len(),
        ensures
            r.bytes() == data@,
            r.offset() == at,
    {
        LineMachine { data, pos: at }
    }

    /// Where the next line starts.
    pub fn position(&self) -> (r: usize)
        ensures
            r == self.offset(),
    {
        self.pos
    }

    /// The next line, without its line end. Fails with `UnexpectedEof`
    /// where no line is left, and with `InvalidData` where the line is not
    /// UTF-8; the line is passed over either way.
    pub fn read_line(&mut self) -> (r: Result<String, Error>)
        requires
            old(self).offset() <= old(self).bytes().len(),
        ensures
            final(self).bytes() == old(self).bytes(),
            final(self).offset() <= final(self).bytes().len(),
            final(self).offset() == line_after(old(self).bytes(), old(self).offset()),
            match r {
                Ok(t) => old(self).offset() < old(self).bytes().len() && valid_utf8(
                    line_at(old(self).bytes(), old(self).offset()),
                ) && t@ == decode_utf8(line_at(old(self).bytes(), old(self).offset())),
                Err(e) => if old(self).offset() >= old(self).bytes().len() {
                    e == Error::UnexpectedEof
                } else {
                    e == Error::InvalidData && !valid_utf8(
                        line_at(old(self).bytes(), old(self).offset()),
                    )
                },
            },
    {
        let at = self.pos;
        if at >= self.data.len() {
            return Err(Error::UnexpectedEof);
        }
        let mut e: usize = at;
        while e < self.data.len() && self.data[e] != 0x0a
            invariant
                at <= e <= self.data.len(),
                line_feed(self.data@, at as int) == line_feed(self.data@, e as int),
            decreases self.data.len() - e,
        {
            e += 1;
        }
        let stop = if e < self.data.len() && at < e && self.data[e - 1] == 0x0d {
            e - 1
        } else {
            e
        };
        self.pos = if e < self.data.len() {
            e + 1
        } else {
            e
        };
        let line = vstd::slice::slice_subrange(self.data, at, stop);
        match utf8_text(line) {
            Some(t) => Ok(t),
            None => Err(Error::InvalidData),
        }
    }
}

/// The nine texts of a vertex from the groups of one match: the groups 1
/// to 9 of a match of ten groups that all took part in it.
pub open spec fn vertex_of_groups(groups: Seq<Option<Seq<char>>>) -> Option<Vertex1View> {
    if groups.len() == 10 && (forall|i: int| 1 <= i < 10 ==> (#[trigger] groups[i]) is Some) {
        Some(Vertex1View { fields: Seq::new(9, |i: int| groups[i + 1]->Some_0) })
    } else {
        None
    }
}

/// The vertices of the matches `caps`, or `None` where one of the matches
/// is no vertex.
pub open spec fn vertices_of_captures(caps: Seq<Seq<Option<Seq<char>>>>) -> Option<
    Seq<Vertex1View>,
> {
    if forall|i: int| 0 <= i < caps.len() ==> vertex_of_groups(#[trigger] caps[i]) is Some {
        Some(Seq::new(caps.len(), |i: int| vertex_of_groups(caps[i])->Some_0))
    } else {
        None
    }
}

/// One group of a match, where it took part in the match.
fn group_text(groups: &Vec<Option<String>>, i: usize) -> (r: Option<String>)
    requires
        i < groups.len(),
    ensures
        r.deep_view() == groups.deep_view()[i as int],
{
    match &groups[i] {
        Some(t) => Some(t.clone()),
        None => None,
    }
}

/// The vertex that the groups of one match spell.
pub fn vertex_from_groups(groups: &Vec<Option<String>>) -> (r: Option<Vertex1>)
    ensures
        match r {
            Some(v) => vertex_of_groups(groups.deep_view()) == Some(v@),
            None => vertex_of_groups(groups.deep_view()) is None,
        },
{
    if groups.len() != 10 {
        return None;
    }
    let g1 = group_text(groups, 1)?;
    let g2 = group_text(groups, 2)?;
    let g3 = group_text(groups, 3)?;
    let g4 = group_text(groups, 4)?;
    let g5 = group_text(groups, 5)?;
    let g6 = group_text(groups, 6)?;
    let g7 = group_text(groups, 7)?;
    let g8 = group_text(groups, 8)?;
    let g9 = group_text(groups, 9)?;
    let v = Vertex1 { pos: [g1, g2, g3], norm: [g4, g5, g6], tex: [g7, g8, g9] };
    assert(v@.fields =~= vertex_of_groups(groups.deep_view())->Some_0.fields);
    Some(v)
}

/// The vertices that the matches of the vertex pattern spell; fails with
/// `Regex` where a match lacks one of its nine fields.
pub fn vertices_from_captures(caps: &Vec<Vec<Option<String>>>) -> (r: Result<Vec<Vertex1>, Error>)
    ensures
        match r {
            Ok(v) => vertices_of_captures(caps.deep_view()) == Some(
                v@.map_values(|x: Vertex1| x@),
            ),
            Err(e) => e == Error::Regex && vertices_of_captures(caps.deep_view()) is None,
        },
{
    let mut out: Vec<Vertex1> = Vec::new();
    let mut i: usize = 0;
    while i < caps.len()
        invariant
            i <= caps.len(),
            out.len() == i,
            forall|j: int|
                0 <= j < i ==> vertex_of_groups(#[trigger] caps.deep_view()[j]) == Some(out@[j]@),
        decreases caps.len() - i,
    {
        assert(caps.deep_view()[i as int] == caps@[i as int].deep_view());
        match vertex_from_groups(&caps[i]) {
            None => {
                return Err(Error::Regex);
            },
            Some(v) => {
                out.push(v);
            },
        }
        i += 1;
    }
    assert(out@.map_values(|x: Vertex1| x@) =~= vertices_of_captures(caps.deep_view())->Some_0);
    Ok(out)
}

/// The revision that the first line names, once the white space at its
/// ends is taken off.
pub open spec fn revision_of(line: Seq<char>) -> Option<Revision1> {
    if trim_of(line) == "version 1.00"@ {
        Some(Revision1::Version100)
    } else if trim_of(line) == "version 1.01"@ {
        Some(Revision1::Version101)
    } else {
        None
    }
}

/// The mesh that three lines of text spell.
pub open spec fn mesh_of_lines(l0: Seq<char>, l1: Seq<char>, l2: Seq<char>) -> Result<
    Mesh1View,
    ErrorView,
> {
    match revision_of(l0) {
        None => Err(ErrorView::Header),
        Some(revision) => match decimal_u32(trim_of(l1)) {
            None => Err(ErrorView::ParseIntError),
            Some(face_count) => match regex_captures_of(VERTEX_PATTERN@, l2) {
                None => Err(ErrorView::Regex),
                Some(caps) => match vertices_of_captures(caps) {
                    None => Err(ErrorView::Regex),
                    Some(vertices) => Ok(
                        Mesh1View { header: Header1 { revision, face_count }, vertices },
                    ),
                },
            },
        },
    }
}

/// The text of the line that starts at `at`: a failure where no line is
/// left or the line is not UTF-8.
pub open spec fn text_line(s: Seq<u8>, at: int) -> Result<Seq<char>, ErrorView> {
    if at >= s.len() {
        Err(ErrorView::UnexpectedEof)
    } else if !valid_utf8(line_at(s, at)) {
        Err(ErrorView::InvalidData)
    } else {
        Ok(decode_utf8(line_at(s, at)))
    }
}

/// The mesh of a text revision that starts at `at`, and the place behind
/// its third line. The lines are taken in their order, and each is looked
/// at before the next one is read.
pub open spec fn read1_spec(s: Seq<u8>, at: int) -> Result<(Mesh1View, int), ErrorView> {
    let a1 = line_after(s, at);
    let a2 = line_after(s, a1);
    match text_line(s, at) {
        Err(e) => Err(e),
        Ok(l0) => match revision_of(l0) {
            None => Err(ErrorView::Header),
            Some(_) => match text_line(s, a1) {
                Err(e) => Err(e),
                Ok(l1) => match decimal_u32(trim_of(l1)) {
                    None => Err(ErrorView::ParseIntError),
                    Some(_) => match text_line(s, a2) {
                        Err(e) => Err(e),
                        Ok(l2) => match mesh_of_lines(l0, l1, l2) {
                            Err(e) => Err(e),
                            Ok(m) => Ok((m, line_after(s, a2))),
                        },
                    },
                },
            },
        },
    }
}

/// Three times the number of faces is the number of vertices.
pub open spec fn counts_agree(mesh: Mesh1View) -> bool {
    3 * mesh.header.face_count == mesh.vertices.len()
}

/// What reading and checking a mesh of a text revision gives.
pub open spec fn read1_checked(s: Seq<u8>, at: int) -> Result<(Mesh1View, int), ErrorView> {
    match read1_spec(s, at) {
        Err(e) => Err(e),
        Ok((m, end)) => if counts_agree(m) {
            Ok((m, end))
        } else {
            Err(ErrorView::VertexCount)
        },
    }
}

/// Gives the mesh back where it holds three vertices for each face, and
/// fails with `VertexCount` where it does not.
pub fn check1(mesh: Mesh1) -> (r: Result<Mesh1, Error>)
    ensures
        match r {
            Ok(m) => counts_agree(mesh@) && m == mesh,
            Err(e) => !counts_agree(mesh@) && e == Error::VertexCount,
        },
{
    if 3 * (mesh.header.face_count as u64) == mesh.vertices.len() as u64 {
        Ok(mesh)
    } else {
        Err(Error::VertexCount)
    }
}

/// Reads a mesh of a text revision from the position of `read` on, and
/// leaves `read` behind its third line. On a failure `read` stays where it
/// was.
pub fn read1(read: &mut Cursor) -> (r: Result<Mesh1, Error>)
    ensures
        final(read).bytes() == old(read).bytes(),
        match r {
            Ok(m) => read1_spec(old(read).bytes(), old(read).start()) == Ok::<
                (Mesh1View, int),
                ErrorView,
            >((m@, final(read).offset())),
            Err(e) => read1_spec(old(read).bytes(), old(read).start()) == Err::<
                (Mesh1View, int),
                ErrorView,
            >(e@) && final(read).offset() == old(read).offset(),
        },
{
    let mut lines = LineMachine::new(read.get_ref(), read.index());
    let l0 = lines.read_line()?;
    let name = trim_text(l0.as_str());
    let revision = if name == "version 1.00".to_owned() {
        Revision1::Version100
    } else if name == "version 1.01".to_owned() {
        Revision1::Version101
    } else {
        return Err(Error::Header);
    };
    let l1 = lines.read_line()?;
    let number = trim_text(l1.as_str());
    let face_count = match parse_u32(number.as_str()) {
        Some(n) => n,
        None => {
            return Err(Error::ParseIntError);
        },
    };
    let vertices_line = lines.read_line()?;
    let caps = match regex_captures(VERTEX_PATTERN, vertices_line.as_str()) {
        Some(c) => c,
        None => {
            return Err(Error::Regex);
        },
    };
    let vertices = vertices_from_captures(&caps)?;
    read.set_position(lines.position());
    Ok(Mesh1 { header: Header1 { revision, face_count }, vertices })
}

/// Reads a mesh of revision 1.00 and checks its counts. The halving of the
/// positions and the flip of the second texture coordinate, which this
/// revision calls for, are the caller's to apply to the numbers.
pub fn read_100(read: &mut Cursor) -> (r: Result<Mesh1, Error>)
    ensures
        final(read).bytes() == old(read).bytes(),
        match r {
            Ok(m) => read1_checked(old(read).bytes(), old(read).start()) == Ok::<
                (Mesh1View, int),
                ErrorView,
            >((m@, final(read).offset())),
            Err(e) => read1_checked(old(read).bytes(), old(read).start()) == Err::<
                (Mesh1View, int),
                ErrorView,
            >(e@) && final(read).offset() == old(read).offset(),
        },
{
    let at = read.place();
    let mesh = read1(read)?;
    match check1(mesh) {
        Ok(m) => Ok(m),
        Err(e) => {
            read.set_position(at);
            Err(e)
        },
    }
}

/// Reads a mesh of revision 1.01 and checks its counts. The flip of the
/// second texture coordinate, which this revision calls for, is the
/// caller's to apply to the numbers.
pub fn read_101(read: &mut Cursor) -> (r: Result<Mesh1, Error>)
    ensures
        final(read).bytes() == old(read).bytes(),
        match r {
            Ok(m) => read1_checked(old(read).bytes(), old(read).start()) == Ok::<
                (Mesh1View, int),
                ErrorView,
            >((m@, final(read).offset())),
            Err(e) => read1_checked(old(read).bytes(), old(read).start()) == Err::<
                (Mesh1View, int),
                ErrorView,
            >(e@) && final(read).offset() == old(read).offset(),
        },
{
    read_100(read)
}

/// The decimal digits of `n`, as bytes of text.
pub open spec fn decimal(n: nat) -> Seq<u8>
    decreases n,
{
    if n < 10 {
        seq![(0x30 + n) as u8]
    } else {
        decimal(n / 10).push((0x30 + n % 10) as u8)
    }
}

/// Appends the decimal digits of `n`.
pub fn put_decimal(n: u32, out: &mut Vec<u8>)
    ensures
        final(out)@ == old(out)@ + decimal(n as nat),
    decreases n,
{
    if n >= 10 {
        put_decimal(n / 10, out);
    }
    out.push(0x30 + (n % 10) as u8);
    assert(out@ =~= old(out)@ + decimal(n as nat));
}

/// The text that the bytes `b` spell, each byte one character.
pub open spec fn ascii_text(b: Seq<u8>) -> Seq<char> {
    b.map_values(|x: u8| x as char)
}

/// The digits that were written for a number spell that number.
pub proof fn lemma_decimal_digits(n: nat)
    ensures
        decimal(n).len() > 0,
        forall|i: int| 0 <= i < decimal(n).len() ==> 0x30 <= #[trigger] decimal(n)[i] <= 0x39,
        digits_value(ascii_text(decimal(n))) == Some(n),
    decreases n,
{
    if n < 10 {
        let d = decimal(n);
        let t = ascii_text(d);
        assert(t.drop_last() =~= Seq::<char>::empty());
        assert(digits_value(t.drop_last()) == Some(0nat));
        assert(t.last() == (0x30 + n) as u8 as char);
    } else {
        lemma_decimal_digits(n / 10);
        let d = decimal(n);
        let t = ascii_text(d);
        assert(t.drop_last() =~= ascii_text(decimal(n / 10)));
        assert(t.last() == (0x30 + n % 10) as u8 as char);
        assert forall|i: int| 0 <= i < d.len() implies 0x30 <= #[trigger] d[i] <= 0x39 by {
            if i < d.len() - 1 {
                assert(d[i] == decimal(n / 10)[i]);
            }
        }
    }
}

/// The count of faces that was written is read back: the digits of a
/// number of 32 bits are the text that spells it.
pub proof fn lemma_decimal_roundtrip(n: u32)
    ensures
        decimal_u32(ascii_text(decimal(n as nat))) == Some(n),
{
    lemma_decimal_digits(n as nat);
    let t = ascii_text(decimal(n as nat));
    assert(t[0] == decimal(n as nat)[0] as char);
    assert(t[0] != '+');
}

/// The bytes of one bracketed triple: `[a,b,c]`.
pub open spec fn triple_text(a: Seq<char>, b: Seq<char>, c: Seq<char>) -> Seq<u8> {
    seq![0x5bu8] + encode_utf8(a) + seq![0x2cu8] + encode_utf8(b) + seq![0x2cu8] + encode_utf8(c)
        + seq![0x5du8]
}

/// The bytes of a vertex: its three bracketed triples.
pub open spec fn vertex_text(v: Vertex1View) -> Seq<u8> {
    triple_text(v.fields[0], v.fields[1], v.fields[2]) + triple_text(
        v.fields[3],
        v.fields[4],
        v.fields[5],
    ) + triple_text(v.fields[6], v.fields[7], v.fields[8])
}

/// The bytes of the vertices of `v`, one after the other.
pub open spec fn vertices_text(v: Seq<Vertex1View>) -> Seq<u8>
    decreases v.len(),
{
    if v.len() == 0 {
        Seq::empty()
    } else {
        vertices_text(v.drop_last()) + vertex_text(v.last())
    }
}

/// The line that names the revision.
pub open spec fn revision_text(revision: Revision1) -> Seq<u8> {
    match revision {
        Revision1::Version100 => "version 1.00"@.map_values(|c: char| c as u8),
        Revision1::Version101 => "version 1.01"@.map_values(|c: char| c as u8),
    }
}

/// The three lines of the mesh: the revision, the number of faces, the
/// vertices. The third line has no line end.
pub open spec fn mesh1_text(m: Mesh1View) -> Seq<u8> {
    revision_text(m.header.revision) + seq![0x0au8] + decimal(m.header.face_count as nat) + seq![
        0x0au8,
    ] + vertices_text(m.vertices)
}

/// Appends one bracketed triple.
fn put_triple(t: &[String; 3], out: &mut Vec<u8>)
    ensures
        final(out)@ == old(out)@ + triple_text(t[0]@, t[1]@, t[2]@),
{
    out.push(0x5b);
    put_bytes(t[0].as_str().as_bytes(), out);
    out.push(0x2c);
    put_bytes(t[1].as_str().as_bytes(), out);
    out.push(0x2c);
    put_bytes(t[2].as_str().as_bytes(), out);
    out.push(0x5d);
    assert(out@ =~= old(out)@ + triple_text(t[0]@, t[1]@, t[2]@));
}

impl Mesh1 {
    /// Appends the three lines of the mesh to `out`, every number as the
    /// text that the mesh holds.
    pub fn write_le(&self, out: &mut Vec<u8>)
        ensures
            final(out)@ == old(out)@ + mesh1_text(self@),
    {
        let ghost b0 = out@;
        let name = match self.header.revision {
            Revision1::Version100 => "version 1.00",
            Revision1::Version101 => "version 1.01",
        };
        proof {
            reveal_strlit("version 1.00");
            reveal_strlit("version 1.01");
            is_ascii_chars_encode_utf8(name@);
            assert(encode_utf8(name@) =~= revision_text(self.header.revision));
        }
        put_bytes(name.as_bytes(), out);
        out.push(0x0a);
        put_decimal(self.header.face_count, out);
        out.push(0x0a);
        let ghost head = out@;
        assert(head =~= b0 + (revision_text(self.header.revision) + seq![0x0au8] + decimal(
            self.header.face_count as nat,
        ) + seq![0x0au8]));
        let mut i: usize = 0;
        while i < self.vertices.len()
            invariant
                i <= self.vertices.len(),
                out@ == head + vertices_text(self@.vertices.subrange(0, i as int)),
            decreases self.vertices.len() - i,
        {
            let ghost before = out@;
            let v = &self.vertices[i];
            put_triple(&v.pos, out);
            put_triple(&v.norm, out);
            put_triple(&v.tex, out);
            proof {
                let done = self@.vertices.subrange(0, i + 1);
                assert(done.drop_last() =~= self@.vertices.subrange(0, i as int));
                assert(done.last() == v@);
                assert(out@ =~= before + vertex_text(v@));
                assert(out@ =~= head + vertices_text(done));
            }
            i += 1;
        }
        assert(self@.vertices.subrange(0, self.vertices.len() as int) =~= self@.vertices);
        assert(out@ =~= b0 + mesh1_text(self@));
    }
}

} // verus!
