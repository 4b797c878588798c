use vstd::prelude::*;
use vstd::slice::{slice_subrange, slice_to_vec};

verus! {

/// A corner of a face: the number of its vertex and, where the file gives
/// one, the number of its normal.  Both count from one.
pub type VertexNormal = (usize, Option<usize>);

/// The three corners of a triangle.
pub type Corners = (VertexNormal, VertexNormal, VertexNormal);

/// One record of a mesh file.  Coordinates are the bit patterns of the
/// numbers that the file holds.
#[derive(Debug, PartialEq)]
pub enum Obj {
    Vertex { x: u64, y: u64, z: u64 },
    Normal { x: u64, y: u64, z: u64 },
    Triangles { indices: Vec<Corners> },
    Group { name: Vec<u8> },
    Ignored { n: u32, line: Vec<u8> },
}

/// What an `Obj` holds.
pub enum Record {
    Vertex { x: u64, y: u64, z: u64 },
    Normal { x: u64, y: u64, z: u64 },
    Triangles { indices: Seq<Corners> },
    Group { name: Seq<u8> },
    Ignored { n: u32, line: Seq<u8> },
}

impl View for Obj {
    type V = Record;

    open spec fn view(&self) -> Record {
        match self {
            Obj::Vertex { x, y, z } => Record::Vertex { x: *x, y: *y, z: *z },
            Obj::Normal { x, y, z } => Record::Normal { x: *x, y: *y, z: *z },
            Obj::Triangles { indices } => Record::Triangles { indices: indices@ },
            Obj::Group { name } => Record::Group { name: name@ },
            Obj::Ignored { n, line } => Record::Ignored { n: *n, line: line@ },
        }
    }
}

/// The classes of bytes that the grammar of a line tells apart.
#[derive(Debug, Clone, Copy, PartialEq, Eq, Structural)]
pub enum Class {
    /// A space or a tab.
    Blank,
    /// A decimal digit.
    Digit,
    /// A decimal digit or a letter of the English alphabet.
    Alphanumeric,
}

impl Class {
    pub open spec fn holds(self, b: u8) -> bool {
        match self {
            Class::Blank => b == 32 || b == 9,
            Class::Digit => 48 <= b <= 57,
            Class::Alphanumeric => 48 <= b <= 57 || 65 <= b <= 90 || 97 <= b <= 122,
        }
    }

    fn has(self, b: u8) -> (r: bool)
        ensures
            r == self.holds(b),
    {
        match self {
            Class::Blank => b == 32 || b == 9,
            Class::Digit => 48 <= b && b <= 57,
            Class::Alphanumeric => (48 <= b && b <= 57) || (65 <= b && b <= 90) || (97 <= b && b
                <= 122),
        }
    }
}

/// The position behind the bytes of `class` that stand in `s` from `pos` on.
pub open spec fn run_end(s: Seq<u8>, pos: int, class: Class) -> int
    decreases s.len() - pos,
{
    if 0 <= pos < s.len() && class.holds(s[pos]) {
        run_end(s, pos + 1, class)
    } else {
        pos
    }
}

/// The position behind a run of at least one byte of `class` at `pos`.
pub open spec fn run1(s: Seq<u8>, pos: int, class: Class) -> Option<int> {
    if run_end(s, pos, class) > pos {
        Some(run_end(s, pos, class))
    } else {
        None
    }
}

/// The number that the decimal digits `s` write.
pub open spec fn decimal(s: Seq<u8>) -> nat
    decreases s.len(),
{
    if s.len() == 0 {
        0
    } else {
        decimal(s.drop_last()) * 10 + (s.last() - 48) as nat
    }
}

/// The number written in digits at `pos`, and the position behind it; none
/// where no digit stands there or the number does not fit.
pub open spec fn index_at(s: Seq<u8>, pos: int) -> Option<(usize, int)> {
    let end = run_end(s, pos, Class::Digit);
    if 0 <= pos < end && decimal(s.subrange(pos, end)) <= usize::MAX {
        Some((decimal(s.subrange(pos, end)) as usize, end))
    } else {
        None
    }
}

/// The position behind the first slash at or behind `pos`.
pub open spec fn slash_end(s: Seq<u8>, pos: int) -> Option<int>
    decreases s.len() - pos,
{
    if 0 <= pos < s.len() {
        if s[pos] == 47 {
            Some(pos + 1)
        } else {
            slash_end(s, pos + 1)
        }
    } else {
        None
    }
}

/// A corner with a normal at `pos`: a vertex number, a slash, anything up
/// to the next slash, and the number of the normal.
pub open spec fn triplet_at(s: Seq<u8>, pos: int) -> Option<(VertexNormal, int)> {
    match index_at(s, pos) {
        Some((v, p)) => if p < s.len() && s[p] == 47 {
            match slash_end(s, p + 1) {
                Some(q) => match index_at(s, q) {
                    Some((n, r)) => Some(((v, Some(n)), r)),
                    None => None,
                },
                None => None,
            }
        } else {
            None
        },
        None => None,
    }
}

/// The corner at `pos`: one with a normal where that can be read, else a bare vertex number.
pub open spec fn corner_at(s: Seq<u8>, pos: int) -> Option<(VertexNormal, int)> {
    match triplet_at(s, pos) {
        Some(c) => Some(c),
        None => match index_at(s, pos) {
            Some((v, p)) => Some(((v, None), p)),
            None => None,
        },
    }
}

/// The corners that follow the one ending at `pos`, each behind blanks.
pub open spec fn more_corners(s: Seq<u8>, pos: int) -> Seq<VertexNormal>
    decreases s.len() - pos,
{
    match run1(s, pos, Class::Blank) {
        Some(q) => match corner_at(s, q) {
            Some((c, r)) => if pos < r <= s.len() {
                seq![c] + more_corners(s, r)
            } else {
                Seq::empty()
            },
            None => Seq::empty(),
        },
        None => Seq::empty(),
    }
}

/// The corners listed from `pos` on, separated by blanks.
pub open spec fn corners_at(s: Seq<u8>, pos: int) -> Seq<VertexNormal> {
    match corner_at(s, pos) {
        Some((c, r)) => seq![c] + more_corners(s, r),
        None => Seq::empty(),
    }
}

proof fn lemma_run_end(s: Seq<u8>, pos: int, class: Class)
    requires
        0 <= pos <= s.len(),
    ensures
        pos <= run_end(s, pos, class) <= s.len(),
        forall|k: int| pos <= k < run_end(s, pos, class) ==> class.holds(s[k]),
        run_end(s, pos, class) < s.len() ==> !class.holds(s[run_end(s, pos, class)]),
    decreases s.len() - pos,
{
    if pos < s.len() && class.holds(s[pos]) {
        lemma_run_end(s, pos + 1, class);
    }
}

proof fn lemma_run_end_from(s: Seq<u8>, pos: int, k: int, class: Class)
    requires
        0 <= pos <= k <= s.len(),
        forall|j: int| pos <= j < k ==> class.holds(s[j]),
    ensures
        run_end(s, pos, class) == run_end(s, k, class),
    decreases k - pos,
{
    if pos < k {
        lemma_run_end_from(s, pos + 1, k, class);
    }
}

proof fn lemma_decimal_grows(s: Seq<u8>, pos: int, k: int, end: int)
    requires
        0 <= pos <= k <= end <= s.len(),
        forall|j: int| pos <= j < end ==> Class::Digit.holds(s[j]),
    ensures
        decimal(s.subrange(pos, k)) <= decimal(s.subrange(pos, end)),
    decreases end - k,
{
    if k < end {
        lemma_decimal_grows(s, pos, k, end - 1);
        assert(s.subrange(pos, end).drop_last() =~= s.subrange(pos, end - 1));
    }
}

/// The position behind the bytes of `class` that stand in `line` from `pos` on.
fn scan(line: &[u8], pos: usize, class: Class) -> (end: usize)
    requires
        pos <= line@.len(),
    ensures
        end == run_end(line@, pos as int, class),
        pos <= end <= line@.len(),
{
    let mut k: usize = pos;
    while k < line.len() && class.has(line[k])
        invariant
            pos <= k <= line@.len(),
            forall|j: int| pos <= j < k ==> class.holds(line@[j]),
        decreases line@.len() - k,
    {
        k += 1;
    }
    proof {
        lemma_run_end_from(line@, pos as int, k as int, class);
        lemma_run_end(line@, pos as int, class);
    }
    k
}

/// The position behind a run of at least one byte of `class` at `pos`.
fn scan1(line: &[u8], pos: usize, class: Class) -> (end: Option<usize>)
    requires
        pos <= line@.len(),
    ensures
        end matches Some(e) ==> run1(line@, pos as int, class) == Some(e as int) && pos < e
            <= line@.len(),
        end.is_none() ==> run1(line@, pos as int, class).is_none(),
{
    let e = scan(line, pos, class);
    if e > pos {
        Some(e)
    } else {
        None
    }
}

fn read_index(line: &[u8], pos: usize) -> (r: Option<(usize, usize)>)
    requires
        pos <= line@.len(),
    ensures
        r matches Some((v, e)) ==> index_at(line@, pos as int) == Some((v, e as int)) && pos < e
            <= line@.len(),
        r.is_none() ==> index_at(line@, pos as int).is_none(),
{
    let end = scan(line, pos, Class::Digit);
    if end == pos {
        return None;
    }
    proof {
        lemma_run_end(line@, pos as int, Class::Digit);
    }
    let mut value: usize = 0;
    let mut k: usize = pos;
    assert(line@.subrange(pos as int, pos as int) =~= Seq::<u8>::empty());
    while k < end
        invariant
            pos <= k <= end <= line@.len(),
            pos < end == run_end(line@, pos as int, Class::Digit),
            value == decimal(line@.subrange(pos as int, k as int)),
            forall|j: int| pos <= j < end ==> Class::Digit.holds(line@[j]),
        decreases end - k,
    {
        let digit: usize = (line[k] - 48) as usize;
        proof {
            let next = line@.subrange(pos as int, k + 1);
            assert(next.drop_last() =~= line@.subrange(pos as int, k as int));
            assert(next.last() == line@[k as int]);
            lemma_decimal_grows(line@, pos as int, k + 1, end as int);
        }
        let tens = match value.checked_mul(10) {
            Some(t) => t,
            None => {
                return None;
            },
        };
        value = match tens.checked_add(digit) {
            Some(v) => v,
            None => {
                return None;
            },
        };
        k += 1;
    }
    Some((value, end))
}

fn find_slash(line: &[u8], pos: usize) -> (r: Option<usize>)
    requires
        pos <= line@.len(),
    ensures
        r matches Some(q) ==> slash_end(line@, pos as int) == Some(q as int) && pos < q
            <= line@.len(),
        r.is_none() ==> slash_end(line@, pos as int).is_none(),
{
    let mut k: usize = pos;
    while k < line.len()
        invariant
            pos <= k <= line@.len(),
            slash_end(line@, pos as int) == slash_end(line@, k as int),
        decreases line@.len() - k,
    {
        if line[k] == 47 {
            return Some(k + 1);
        }
        k += 1;
    }
    None
}

fn read_triplet(line: &[u8], pos: usize) -> (r: Option<(VertexNormal, usize)>)
    requires
        pos <= line@.len(),
    ensures
        r matches Some((c, e)) ==> triplet_at(line@, pos as int) == Some((c, e as int)) && pos < e
            <= line@.len(),
        r.is_none() ==> triplet_at(line@, pos as int).is_none(),
{
    let (v, p) = match read_index(line, pos) {
        Some(found) => found,
        None => {
            return None;
        },
    };
    if p >= line.len() || line[p] != 47 {
        return None;
    }
    let q = match find_slash(line, p + 1) {
        Some(q) => q,
        None => {
            return None;
        },
    };
    match read_index(line, q) {
        Some((n, e)) => Some(((v, Some(n)), e)),
        None => None,
    }
}

fn read_corner(line: &[u8], pos: usize) -> (r: Option<(VertexNormal, usize)>)
    requires
        pos <= line@.len(),
    ensures
        r matches Some((c, e)) ==> corner_at(line@, pos as int) == Some((c, e as int)) && pos < e
            <= line@.len(),
        r.is_none() ==> corner_at(line@, pos as int).is_none(),
{
    match read_triplet(line, pos) {
        Some(found) => Some(found),
        None => match read_index(line, pos) {
            Some((v, e)) => Some(((v, None), e)),
            None => None,
        },
    }
}

fn read_corners(line: &[u8], pos: usize) -> (corners: Vec<VertexNormal>)
    requires
        pos <= line@.len(),
    ensures
        corners@ == corners_at(line@, pos as int),
{
    let mut corners: Vec<VertexNormal> = Vec::new();
    let mut at: usize = match read_corner(line, pos) {
        Some((c, e)) => {
            corners.push(c);
            e
        },
        None => {
            return corners;
        },
    };
    assert(corners@ =~= seq![corners@[0]]);
    loop
        invariant
            at <= line@.len(),
            corners@ + more_corners(line@, at as int) == corners_at(line@, pos as int),
        ensures
            corners@ == corners_at(line@, pos as int),
        decreases line@.len() - at,
    {
        let ghost before = corners@;
        let q = match scan1(line, at, Class::Blank) {
            Some(q) => q,
            None => {
                assert(before + Seq::<VertexNormal>::empty() =~= before);
                break ;
            },
        };
        match read_corner(line, q) {
            Some((c, e)) => {
                corners.push(c);
                assert(before.push(c) + more_corners(line@, e as int) =~= before + (seq![c]
                    + more_corners(line@, e as int)));
                at = e;
            },
            None => {
                assert(before + Seq::<VertexNormal>::empty() =~= before);
                break ;
            },
        }
    }
    corners
}

/// The fan of triangles over a polygon: each joins the first corner with
/// two neighbouring ones.
pub open spec fn fan<T>(corners: Seq<T>) -> Seq<(T, T, T)> {
    Seq::new(
        if corners.len() >= 2 {
            (corners.len() - 2) as nat
        } else {
            0
        },
        |i: int| (corners[0], corners[i + 1], corners[i + 2]),
    )
}

pub fn triangulate<T: Copy>(indices: Vec<T>) -> (triples: Vec<(T, T, T)>)
    requires
        indices@.len() >= 1,
    ensures
        triples@ == fan(indices@),
{
    let mut triples: Vec<(T, T, T)> = Vec::new();
    let mut i: usize = 1;
    while i < indices.len() - 1
        invariant
            1 <= i,
            indices@.len() >= 1,
            indices@.len() == 1 ==> i == 1,
            indices@.len() >= 2 ==> i <= indices@.len() - 1,
            triples@.len() == i - 1,
            forall|k: int|
                0 <= k < triples@.len() ==> triples@[k] == (
                    indices@[0],
                    indices@[k + 1],
                    indices@[k + 2],
                ),
        decreases indices@.len() - i,
    {
        triples.push((indices[0], indices[i], indices[i + 1]));
        i += 1;
    }
    assert(triples@ =~= fan(indices@));
    triples
}

/// What the number parser makes of a text: the bit pattern of the number
/// that it reads at the front, and how many bytes it leaves unread; `None`
/// where no number stands at the front.
pub uninterp spec fn number_prefix(text: Seq<u8>) -> Option<(u64, nat)>;

/// Reads a number at the front of `text` with `nom::number::complete::double`.
/// The contract names the outcome, and claims of it only that what is left
/// unread is a part of `text`.
#[verifier::external_body]
fn read_number(text: &[u8]) -> (r: Option<(u64, usize)>)
    ensures
        r matches Some((bits, left)) ==> number_prefix(text@) == Some((bits, left as nat)) && left
            <= text@.len(),
        r.is_none() ==> number_prefix(text@).is_none(),
{
    match nom::number::complete::double::<&[u8], nom::error::Error<&[u8]>>(text) {
        Ok((rest, value)) => Some((value.to_bits(), rest.len())),
        Err(_) => None,
    }
}

/// The number that stands at `pos`, and the position behind it.
pub open spec fn number_at(s: Seq<u8>, pos: int) -> Option<(u64, int)> {
    match number_prefix(s.subrange(pos, s.len() as int)) {
        Some((bits, left)) => if left <= s.len() - pos {
            Some((bits, s.len() - left))
        } else {
            None
        },
        None => None,
    }
}

/// Three numbers from `pos` on, each behind blanks.
pub open spec fn triple_at(s: Seq<u8>, pos: int) -> Option<(u64, u64, u64)> {
    match run1(s, pos, Class::Blank) {
        Some(p1) => match number_at(s, p1) {
            Some((x, q1)) => match run1(s, q1, Class::Blank) {
                Some(p2) => match number_at(s, p2) {
                    Some((y, q2)) => match run1(s, q2, Class::Blank) {
                        Some(p3) => match number_at(s, p3) {
                            Some((z, _)) => Some((x, y, z)),
                            None => None,
                        },
                        None => None,
                    },
                    None => None,
                },
                None => None,
            },
            None => None,
        },
        None => None,
    }
}

/// The name of the group that a line opens: `g`, blanks, and a run of
/// letters and digits.
pub open spec fn group_name(s: Seq<u8>) -> Option<Seq<u8>> {
    if s.len() > 0 && s[0] == 103 {
        match run1(s, 1, Class::Blank) {
            Some(p) => match run1(s, p, Class::Alphanumeric) {
                Some(e) => Some(s.subrange(p, e)),
                None => None,
            },
            None => None,
        }
    } else {
        None
    }
}

/// The corners of the face that a line lists: `f`, blanks, and corners
/// separated by blanks, as far as they can be read.
pub open spec fn face_corners(s: Seq<u8>) -> Option<Seq<VertexNormal>> {
    if s.len() > 0 && s[0] == 102 {
        match run1(s, 1, Class::Blank) {
            Some(p) => Some(corners_at(s, p)),
            None => None,
        }
    } else {
        None
    }
}

/// The record that line number `n` holds.  A vertex is `v` and three
/// numbers, a normal `vn` and three numbers; whatever follows a record on
/// its line is passed over, and a line that holds none is kept as ignored.
/// A face without a corner that can be read has no record.
pub open spec fn parse(n: u32, s: Seq<u8>) -> Option<Record> {
    if s.len() > 0 && s[0] == 118 && triple_at(s, 1).is_some() {
        let (x, y, z) = triple_at(s, 1).unwrap();
        Some(Record::Vertex { x, y, z })
    } else if s.len() > 1 && s[0] == 118 && s[1] == 110 && triple_at(s, 2).is_some() {
        let (x, y, z) = triple_at(s, 2).unwrap();
        Some(Record::Normal { x, y, z })
    } else if face_corners(s).is_some() {
        if face_corners(s).unwrap().len() == 0 {
            None
        } else {
            Some(Record::Triangles { indices: fan(face_corners(s).unwrap()) })
        }
    } else if group_name(s).is_some() {
        Some(Record::Group { name: group_name(s).unwrap() })
    } else {
        Some(Record::Ignored { n, line: s })
    }
}

fn number_from(line: &[u8], pos: usize) -> (r: Option<(u64, usize)>)
    requires
        pos <= line@.len(),
    ensures
        r matches Some((bits, e)) ==> number_at(line@, pos as int) == Some((bits, e as int)) && e
            <= line@.len(),
        r.is_none() ==> number_at(line@, pos as int).is_none(),
{
    match read_number(slice_subrange(line, pos, line.len())) {
        Some((bits, left)) => Some((bits, line.len() - left)),
        None => None,
    }
}

fn read_triple(line: &[u8], pos: usize) -> (r: Option<(u64, u64, u64)>)
    requires
        pos <= line@.len(),
    ensures
        r == triple_at(line@, pos as int),
{
    let p1 = match scan1(line, pos, Class::Blank) {
        Some(p) => p,
        None => {
            return None;
        },
    };
    let (x, q1) = match number_from(line, p1) {
        Some(found) => found,
        None => {
            return None;
        },
    };
    let p2 = match scan1(line, q1, Class::Blank) {
        Some(p) => p,
        None => {
            return None;
        },
    };
    let (y, q2) = match number_from(line, p2) {
        Some(found) => found,
        None => {
            return None;
        },
    };
    let p3 = match scan1(line, q2, Class::Blank) {
        Some(p) => p,
        None => {
            return None;
        },
    };
    match number_from(line, p3) {
        Some((z, _)) => Some((x, y, z)),
        None => None,
    }
}

fn read_group(line: &[u8]) -> (r: Option<Vec<u8>>)
    ensures
        r matches Some(name) ==> group_name(line@) == Some(name@),
        r.is_none() ==> group_name(line@).is_none(),
{
    if line.len() == 0 || line[0] != 103 {
        return None;
    }
    let p = match scan1(line, 1, Class::Blank) {
        Some(p) => p,
        None => {
            return None;
        },
    };
    match scan1(line, p, Class::Alphanumeric) {
        Some(e) => Some(slice_to_vec(slice_subrange(line, p, e))),
        None => None,
    }
}

fn read_face(line: &[u8]) -> (r: Option<Vec<VertexNormal>>)
    ensures
        r matches Some(corners) ==> face_corners(line@) == Some(corners@),
        r.is_none() ==> face_corners(line@).is_none(),
{
    if line.len() == 0 || line[0] != 102 {
        return None;
    }
    match scan1(line, 1, Class::Blank) {
        Some(p) => Some(read_corners(line, p)),
        None => None,
    }
}

/// Reads the record that line number `n` holds.
pub fn parse_line(n: u32, line: &[u8]) -> (obj: Option<Obj>)
    ensures
        obj matches Some(o) ==> parse(n, line@) == Some(o@),
        obj.is_none() ==> parse(n, line@).is_none(),
{
    if line.len() > 0 && line[0] == 118 {
        if let Some((x, y, z)) = read_triple(line, 1) {
            return Some(Obj::Vertex { x, y, z });
        }
        if line.len() > 1 && line[1] == 110 {
            if let Some((x, y, z)) = read_triple(line, 2) {
                return Some(Obj::Normal { x, y, z });
            }
        }
    }
    if let Some(corners) = read_face(line) {
        if corners.len() == 0 {
            return None;
        }
        return Some(Obj::Triangles { indices: triangulate(corners) });
    }
    if let Some(name) = read_group(line) {
        return Some(Obj::Group { name });
    }
    Some(Obj::Ignored { n, line: slice_to_vec(line) })
}

/// Tells whether `bytes` are well-formed UTF-8, with `std::str::from_utf8`.
#[verifier::external_body]
fn is_text(bytes: &[u8]) -> (r: bool)
    ensures
        r == vstd::utf8::valid_utf8(bytes@),
{
    std::str::from_utf8(bytes).is_ok()
}

/// The position of the first line feed at or behind `pos`, or the end of `s`.
pub open spec fn line_end(s: Seq<u8>, pos: int) -> int
    decreases s.len() - pos,
{
    if 0 <= pos < s.len() && s[pos] != 10 {
        line_end(s, pos + 1)
    } else {
        pos
    }
}

/// The line of `s` that starts at `pos` and ends before `end`: without the
/// carriage return of a line that ends in one and a line feed.
pub open spec fn line_between(s: Seq<u8>, pos: int, end: int) -> Seq<u8> {
    if pos < end < s.len() && s[end - 1] == 13 {
        s.subrange(pos, end - 1)
    } else {
        s.subrange(pos, end)
    }
}

/// The records of the lines of `s` from `pos` on, where the line at `pos`
/// has the number `n`.  A line that is not well-formed text is counted and
/// passed over.  There are no records where a line has none.
pub open spec fn records_from(s: Seq<u8>, pos: int, n: int) -> Option<Seq<Record>>
    decreases s.len() - pos,
{
    if 0 <= pos < s.len() {
        let end = line_end(s, pos);
        let line = line_between(s, pos, end);
        let next = if end < s.len() {
            end + 1
        } else {
            end
        };
        if pos < next <= s.len() {
            let rest = records_from(s, next, n + 1);
            if !vstd::utf8::valid_utf8(line) {
                rest
            } else {
                match (parse(#[verifier::truncate] (n as u32), line), rest) {
                    (Some(r), Some(rs)) => Some(seq![r] + rs),
                    _ => None,
                }
            }
        } else {
            None
        }
    } else {
        Some(Seq::empty())
    }
}

/// What a vector of records holds.
pub open spec fn records_of(objs: Seq<Obj>) -> Seq<Record> {
    Seq::new(objs.len(), |i: int| objs[i]@)
}

proof fn lemma_line_end(s: Seq<u8>, pos: int)
    requires
        0 <= pos <= s.len(),
    ensures
        pos <= line_end(s, pos) <= s.len(),
        line_end(s, pos) < s.len() ==> s[line_end(s, pos)] == 10,
    decreases s.len() - pos,
{
    if pos < s.len() && s[pos] != 10 {
        lemma_line_end(s, pos + 1);
    }
}

fn find_line_end(text: &[u8], pos: usize) -> (end: usize)
    requires
        pos <= text@.len(),
    ensures
        end == line_end(text@, pos as int),
        pos <= end <= text@.len(),
{
    let mut k: usize = pos;
    while k < text.len() && text[k] != 10
        invariant
            pos <= k <= text@.len(),
            line_end(text@, pos as int) == line_end(text@, k as int),
        decreases text@.len() - k,
    {
        k += 1;
    }
    k
}

/// Reads the records of a mesh file, line by line; the first line has the
/// number one.  `None` where a line lists a face without a corner.
pub fn parse_lines(text: &[u8]) -> (objs: Option<Vec<Obj>>)
    requires
        text@.len() < u32::MAX,
    ensures
        objs matches Some(v) ==> records_from(text@, 0, 1) == Some(records_of(v@)),
        objs.is_none() ==> records_from(text@, 0, 1).is_none(),
{
    let mut objs: Vec<Obj> = Vec::new();
    let mut pos: usize = 0;
    let mut n: u32 = 1;
    assert(records_of(objs@) + Seq::<Record>::empty() =~= records_of(objs@));
    while pos < text.len()
        invariant
            pos <= text@.len() < u32::MAX,
            n <= pos + 1,
            match records_from(text@, pos as int, n as int) {
                Some(rs) => records_from(text@, 0, 1) == Some(records_of(objs@) + rs),
                None => records_from(text@, 0, 1).is_none(),
            },
        decreases text@.len() - pos,
    {
        let end = find_line_end(text, pos);
        let stop: usize = if pos < end && end < text.len() && text[end - 1] == 13 {
            end - 1
        } else {
            end
        };
        let line = slice_subrange(text, pos, stop);
        let next: usize = if end < text.len() {
            end + 1
        } else {
            end
        };
        proof {
            lemma_line_end(text@, pos as int);
        }
        let ghost before = records_of(objs@);
        if is_text(line) {
            match parse_line(n, line) {
                Some(obj) => {
                    let ghost r = obj@;
                    objs.push(obj);
                    proof {
                        assert(records_of(objs@) =~= before.push(r));
                        if let Some(rs) = records_from(text@, next as int, n + 1) {
                            assert(before.push(r) + rs =~= before + (seq![r] + rs));
                        }
                    }
                },
                None => {
                    return None;
                },
            }
        }
        pos = next;
        n = n + 1;
    }
    assert(records_of(objs@) + Seq::<Record>::empty() =~= records_of(objs@));
    Some(objs)
}

/// The three coordinates of a point or a direction, as bit patterns.
pub type Point = (u64, u64, u64);

/// A triangle of a mesh: its corners and, for a smooth one, the normals at them.
#[derive(Debug, Clone, Copy, PartialEq, Eq)]
pub struct Triangle {
    pub p1: Point,
    pub p2: Point,
    pub p3: Point,
    pub normals: Option<(Point, Point, Point)>,
}

/// A triangle in the group that it belongs to.
#[derive(Debug, Clone, Copy, PartialEq, Eq)]
pub struct Face {
    /// The position of the group's name among the names of the mesh.
    pub group: usize,
    pub triangle: Triangle,
}

/// A mesh as a file describes it.
#[derive(Debug)]
pub struct Mesh {
    /// The names of the groups, each once, in the order they first occur;
    /// the first is the group of the faces that stand before any name.
    pub groups: Vec<Vec<u8>>,
    /// The triangles, in the order of the file.
    pub faces: Vec<Face>,
    /// The lines that hold no record, with their numbers.
    pub ignored: Vec<(u32, Vec<u8>)>,
}

/// What is known of a mesh after some of its records.
pub struct Assembly {
    pub vertices: Seq<Point>,
    pub normals: Seq<Point>,
    pub names: Seq<Seq<u8>>,
    pub current: int,
    pub faces: Seq<Face>,
    pub ignored: Seq<(u32, Seq<u8>)>,
}

/// The name of the group that holds the faces in front of any group record.
pub open spec fn default_name() -> Seq<u8> {
    seq![68u8, 101u8, 102u8, 97u8, 117u8, 108u8, 116u8]
}

/// The item of `items` with the number `index`, counted from one.
pub open spec fn item_at(items: Seq<Point>, index: usize) -> Option<Point> {
    if 1 <= index <= items.len() {
        Some(items[index - 1])
    } else {
        None
    }
}

/// The triangle with the corners `c`: smooth where every corner names a
/// normal, else flat, whatever normals some corners name.  None where a
/// number that is needed names nothing.
pub open spec fn resolve(vertices: Seq<Point>, normals: Seq<Point>, c: Corners) -> Option<
    Triangle,
> {
    match (item_at(vertices, c.0.0), item_at(vertices, c.1.0), item_at(vertices, c.2.0)) {
        (Some(p1), Some(p2), Some(p3)) => match (c.0.1, c.1.1, c.2.1) {
            (Some(a), Some(b), Some(c)) => match (
                item_at(normals, a),
                item_at(normals, b),
                item_at(normals, c),
            ) {
                (Some(n1), Some(n2), Some(n3)) => Some(
                    Triangle { p1, p2, p3, normals: Some((n1, n2, n3)) },
                ),
                _ => None,
            },
            _ => Some(Triangle { p1, p2, p3, normals: None }),
        },
        _ => None,
    }
}

/// The faces of group `group` that `indices` describe.
pub open spec fn resolve_all(
    vertices: Seq<Point>,
    normals: Seq<Point>,
    group: usize,
    indices: Seq<Corners>,
) -> Option<Seq<Face>>
    decreases indices.len(),
{
    if indices.len() == 0 {
        Some(Seq::empty())
    } else {
        match (
            resolve_all(vertices, normals, group, indices.drop_last()),
            resolve(vertices, normals, indices.last()),
        ) {
            (Some(faces), Some(triangle)) => Some(faces.push(Face { group, triangle })),
            _ => None,
        }
    }
}

/// The first position of `name` in `names`, or their count where it is not among them.
pub open spec fn position(names: Seq<Seq<u8>>, name: Seq<u8>) -> int
    decreases names.len(),
{
    if names.len() == 0 {
        0
    } else if position(names.drop_last(), name) < names.len() - 1 {
        position(names.drop_last(), name)
    } else if names.last() == name {
        names.len() - 1
    } else {
        names.len() as int
    }
}

/// What is known after one more record.  A vertex or a normal joins those
/// that later faces may name; a group record makes its group the current
/// one, new at the end where the name is; triangles join the current group.
pub open spec fn step(a: Assembly, r: Record) -> Option<Assembly> {
    match r {
        Record::Vertex { x, y, z } => Some(Assembly { vertices: a.vertices.push((x, y, z)), ..a }),
        Record::Normal { x, y, z } => Some(Assembly { normals: a.normals.push((x, y, z)), ..a }),
        Record::Triangles { indices } => match resolve_all(
            a.vertices,
            a.normals,
            a.current as usize,
            indices,
        ) {
            Some(faces) => Some(Assembly { faces: a.faces + faces, ..a }),
            None => None,
        },
        Record::Group { name } => {
            let at = position(a.names, name);
            if at < a.names.len() {
                Some(Assembly { current: at, ..a })
            } else {
                Some(Assembly { names: a.names.push(name), current: at, ..a })
            }
        },
        Record::Ignored { n, line } => Some(Assembly { ignored: a.ignored.push((n, line)), ..a }),
    }
}

/// What is known of a mesh after the records `rs`; nothing where a face
/// names a vertex or a normal that no record before it gives.
pub open spec fn assemble(rs: Seq<Record>) -> Option<Assembly>
    decreases rs.len(),
{
    if rs.len() == 0 {
        Some(
            Assembly {
                vertices: Seq::empty(),
                normals: Seq::empty(),
                names: seq![default_name()],
                current: 0,
                faces: Seq::empty(),
                ignored: Seq::empty(),
            },
        )
    } else {
        match assemble(rs.drop_last()) {
            Some(a) => step(a, rs.last()),
            None => None,
        }
    }
}

impl Mesh {
    /// The names of the groups.
    pub open spec fn names(&self) -> Seq<Seq<u8>> {
        Seq::new(self.groups@.len(), |i: int| self.groups@[i]@)
    }

    /// The lines that hold no record, with their numbers.
    pub open spec fn skipped(&self) -> Seq<(u32, Seq<u8>)> {
        Seq::new(self.ignored@.len(), |i: int| (self.ignored@[i].0, self.ignored@[i].1@))
    }

    /// Whether the mesh is what `a` knows at the end of a file.
    pub open spec fn shows(&self, a: Assembly) -> bool {
        &&& self.names() == a.names
        &&& self.faces@ == a.faces
        &&& self.skipped() == a.ignored
    }

    /// The triangles of the faces of `faces` in group `group`.
    pub open spec fn members(faces: Seq<Face>, group: usize) -> Seq<Triangle>
        decreases faces.len(),
    {
        if faces.len() == 0 {
            Seq::empty()
        } else if faces.last().group == group {
            Self::members(faces.drop_last(), group).push(faces.last().triangle)
        } else {
            Self::members(faces.drop_last(), group)
        }
    }

    /// The triangles of one group, in the order of the file.
    pub fn triangles_of(&self, group: usize) -> (triangles: Vec<Triangle>)
        ensures
            triangles@ == Self::members(self.faces@, group),
    {
        let mut triangles: Vec<Triangle> = Vec::new();
        let mut k: usize = 0;
        while k < self.faces.len()
            invariant
                k <= self.faces@.len(),
                triangles@ == Self::members(self.faces@.take(k as int), group),
            decreases self.faces@.len() - k,
        {
            proof {
                assert(self.faces@.take(k + 1).drop_last() =~= self.faces@.take(k as int));
            }
            if self.faces[k].group == group {
                triangles.push(self.faces[k].triangle);
            }
            k += 1;
        }
        assert(self.faces@.take(k as int) =~= self.faces@);
        triangles
    }
}

fn same_bytes(a: &Vec<u8>, b: &Vec<u8>) -> (same: bool)
    ensures
        same == (a@ == b@),
{
    if a.len() != b.len() {
        return false;
    }
    let mut k: usize = 0;
    while k < a.len()
        invariant
            k <= a@.len() == b@.len(),
            forall|j: int| 0 <= j < k ==> a@[j] == b@[j],
        decreases a@.len() - k,
    {
        if a[k] != b[k] {
            return false;
        }
        k += 1;
    }
    assert(a@ =~= b@);
    true
}

fn find_name(names: &Vec<Vec<u8>>, name: &Vec<u8>) -> (at: usize)
    ensures
        at == position(Seq::new(names@.len(), |i: int| names@[i]@), name@),
        at <= names@.len(),
{
    let ghost all = Seq::new(names@.len(), |i: int| names@[i]@);
    let mut k: usize = 0;
    assert(all.take(0) =~= Seq::<Seq<u8>>::empty());
    while k < names.len()
        invariant
            k <= names@.len(),
            all == Seq::new(names@.len(), |i: int| names@[i]@),
            position(all.take(k as int), name@) == k,
        decreases names@.len() - k,
    {
        proof {
            assert(all.take(k + 1).drop_last() =~= all.take(k as int));
            assert(all.take(k + 1).last() == names@[k as int]@);
        }
        if same_bytes(&names[k], name) {
            proof {
                lemma_position_found(all, k as int, name@);
            }
            return k;
        }
        k += 1;
    }
    assert(all.take(k as int) =~= all);
    k
}

proof fn lemma_position_found(names: Seq<Seq<u8>>, k: int, name: Seq<u8>)
    requires
        0 <= k < names.len(),
        position(names.take(k + 1), name) == k,
    ensures
        position(names, name) == k,
    decreases names.len(),
{
    if k + 1 < names.len() {
        assert(names.drop_last().take(k + 1) =~= names.take(k + 1));
        lemma_position_found(names.drop_last(), k, name);
    } else {
        assert(names.take(k + 1) =~= names);
    }
}

fn lookup(items: &Vec<Point>, index: usize) -> (item: Option<Point>)
    ensures
        item == item_at(items@, index),
{
    if 1 <= index && index <= items.len() {
        Some(items[index - 1])
    } else {
        None
    }
}

fn resolve_corners(vertices: &Vec<Point>, normals: &Vec<Point>, c: Corners) -> (t: Option<
    Triangle,
>)
    ensures
        t == resolve(vertices@, normals@, c),
{
    let p1 = match lookup(vertices, c.0.0) {
        Some(p) => p,
        None => {
            return None;
        },
    };
    let p2 = match lookup(vertices, c.1.0) {
        Some(p) => p,
        None => {
            return None;
        },
    };
    let p3 = match lookup(vertices, c.2.0) {
        Some(p) => p,
        None => {
            return None;
        },
    };
    match (c.0.1, c.1.1, c.2.1) {
        (Some(a), Some(b), Some(c)) => {
            match (lookup(normals, a), lookup(normals, b), lookup(normals, c)) {
                (Some(n1), Some(n2), Some(n3)) => Some(
                    Triangle { p1, p2, p3, normals: Some((n1, n2, n3)) },
                ),
                _ => None,
            }
        },
        _ => Some(Triangle { p1, p2, p3, normals: None }),
    }
}

fn resolve_faces(
    vertices: &Vec<Point>,
    normals: &Vec<Point>,
    group: usize,
    indices: &Vec<Corners>,
) -> (faces: Option<Vec<Face>>)
    ensures
        faces matches Some(f) ==> resolve_all(vertices@, normals@, group, indices@) == Some(f@),
        faces.is_none() ==> resolve_all(vertices@, normals@, group, indices@).is_none(),
{
    let mut found: Vec<Face> = Vec::new();
    let mut j: usize = 0;
    assert(indices@.take(0) =~= Seq::<Corners>::empty());
    while j < indices.len()
        invariant
            j <= indices@.len(),
            resolve_all(vertices@, normals@, group, indices@.take(j as int)) == Some(found@),
        decreases indices@.len() - j,
    {
        proof {
            assert(indices@.take(j + 1).drop_last() =~= indices@.take(j as int));
            assert(indices@.take(j + 1).last() == indices@[j as int]);
        }
        match resolve_corners(vertices, normals, indices[j]) {
            Some(triangle) => {
                found.push(Face { group, triangle });
            },
            None => {
                proof {
                    lemma_resolve_all_fails(vertices@, normals@, group, indices@, j + 1);
                }
                return None;
            },
        }
        j += 1;
    }
    assert(indices@.take(j as int) =~= indices@);
    Some(found)
}

/// Puts the records of a mesh file together.  `None` where a face names a
/// vertex or a normal that no record before it gives.
pub fn build(objs: &Vec<Obj>) -> (mesh: Option<Mesh>)
    ensures
        mesh matches Some(m) ==> assemble(records_of(objs@)) matches Some(a) && m.shows(a),
        mesh.is_none() ==> assemble(records_of(objs@)).is_none(),
{
    let mut vertices: Vec<Point> = Vec::new();
    let mut normals: Vec<Point> = Vec::new();
    let mut groups: Vec<Vec<u8>> = Vec::new();
    groups.push(vec![68u8, 101u8, 102u8, 97u8, 117u8, 108u8, 116u8]);
    let mut current: usize = 0;
    let mut faces: Vec<Face> = Vec::new();
    let mut ignored: Vec<(u32, Vec<u8>)> = Vec::new();
    let ghost rs = records_of(objs@);
    let mut k: usize = 0;
    proof {
        assert(rs.take(0) =~= Seq::<Record>::empty());
        assert(Seq::new(groups@.len(), |i: int| groups@[i]@) =~= seq![default_name()]);
        assert(Seq::new(ignored@.len(), |i: int| (ignored@[i].0, ignored@[i].1@))
            =~= Seq::<(u32, Seq<u8>)>::empty());
    }
    while k < objs.len()
        invariant
            k <= objs@.len(),
            rs == records_of(objs@),
            assemble(rs.take(k as int)) == Some(
                Assembly {
                    vertices: vertices@,
                    normals: normals@,
                    names: Seq::new(groups@.len(), |i: int| groups@[i]@),
                    current: current as int,
                    faces: faces@,
                    ignored: Seq::new(
                        ignored@.len(),
                        |i: int| (ignored@[i].0, ignored@[i].1@),
                    ),
                },
            ),
        decreases objs@.len() - k,
    {
        let ghost names = Seq::new(groups@.len(), |i: int| groups@[i]@);
        let ghost passed = Seq::new(ignored@.len(), |i: int| (ignored@[i].0, ignored@[i].1@));
        proof {
            assert(rs.take(k + 1).drop_last() =~= rs.take(k as int));
            assert(rs.take(k + 1).last() == objs@[k as int]@);
        }
        match &objs[k] {
            Obj::Vertex { x, y, z } => {
                vertices.push((*x, *y, *z));
            },
            Obj::Normal { x, y, z } => {
                normals.push((*x, *y, *z));
            },
            Obj::Triangles { indices } => {
                let mut found = match resolve_faces(&vertices, &normals, current, indices) {
                    Some(found) => found,
                    None => {
                        proof {
                            lemma_assemble_fails(rs, k + 1);
                        }
                        return None;
                    },
                };
                faces.append(&mut found);
            },
            Obj::Group { name } => {
                let at = find_name(&groups, name);
                if at == groups.len() {
                    groups.push(slice_to_vec(name.as_slice()));
                    assert(Seq::new(groups@.len(), |i: int| groups@[i]@) =~= names.push(name@));
                }
                current = at;
            },
            Obj::Ignored { n, line } => {
                ignored.push((*n, slice_to_vec(line.as_slice())));
                assert(Seq::new(ignored@.len(), |i: int| (ignored@[i].0, ignored@[i].1@))
                    =~= passed.push((*n, line@)));
            },
        }
        k += 1;
    }
    assert(rs.take(k as int) =~= rs);
    Some(Mesh { groups, faces, ignored })
}

/// What a mesh file describes: what is known after all its records.
pub open spec fn described(text: Seq<u8>) -> Option<Assembly> {
    match records_from(text, 0, 1) {
        Some(rs) => assemble(rs),
        None => None,
    }
}

/// A reader of the mesh file at a path.
#[derive(Debug)]
pub struct ObjParser<'a> {
    path: &'a str,
}

impl<'a> ObjParser<'a> {
    /// The path of the file.
    pub closed spec fn target(&self) -> Seq<char> {
        self.path@
    }

    pub fn new(path: &'a str) -> (parser: ObjParser<'a>)
        ensures
            parser.target() == path@,
    {
        ObjParser { path }
    }

    pub fn path(&self) -> (path: &'a str)
        ensures
            path@ == self.target(),
    {
        self.path
    }

    /// Reads the mesh that `text`, the content of the file, describes.
    /// `None` where a face has no corner, or names a vertex or a normal
    /// that no line before it gives.
    pub fn parse_obj(&self, text: &[u8]) -> (mesh: Option<Mesh>)
        requires
            text@.len() < u32::MAX,
        ensures
            mesh matches Some(m) ==> described(text@) matches Some(a) && m.shows(a),
            mesh.is_none() ==> described(text@).is_none(),
    {
        match parse_lines(text) {
            Some(objs) => build(&objs),
            None => None,
        }
    }
}

proof fn lemma_resolve_all_fails(
    vertices: Seq<Point>,
    normals: Seq<Point>,
    group: usize,
    indices: Seq<Corners>,
    k: int,
)
    requires
        0 <= k <= indices.len(),
        resolve_all(vertices, normals, group, indices.take(k)).is_none(),
    ensures
        resolve_all(vertices, normals, group, indices).is_none(),
    decreases indices.len() - k,
{
    if k < indices.len() {
        assert(indices.take(k + 1).drop_last() =~= indices.take(k));
        lemma_resolve_all_fails(vertices, normals, group, indices, k + 1);
    } else {
        assert(indices.take(k) =~= indices);
    }
}

proof fn lemma_assemble_fails(rs: Seq<Record>, k: int)
    requires
        0 <= k <= rs.len(),
        assemble(rs.take(k)).is_none(),
    ensures
        assemble(rs).is_none(),
    decreases rs.len() - k,
{
    if k < rs.len() {
        assert(rs.take(k + 1).drop_last() =~= rs.take(k));
        lemma_assemble_fails(rs, k + 1);
    } else {
        assert(rs.take(k) =~= rs);
    }
}

} // verus!
