//! The text form of a mesh: lines of vertices, normals, texture coordinates
//! and faces. The numbers of a file are decimal; they are brought to the
//! lattice by a scale, the number of steps of the lattice in one unit of
//! the file.
use crate::geometry::obj3d::{Mesh, MeshError, Triangle};
use crate::math::{Vector2, Vector3};
use vstd::prelude::*;

verus! {

/// A point of a triangle, by the ranks of its position, of its normal and
/// of its texture coordinates in the tables of the file.
#[derive(Debug, Clone, Copy, PartialEq, Eq, Structural)]
pub struct RawPoint(pub usize, pub usize, pub Option<usize>);

/// One kind of rank, for each of the three points of a triangle.
#[derive(Debug, Clone, Copy, PartialEq, Eq, Structural)]
pub struct RawData(pub u32, pub u32, pub u32);

/// A triangle, before its points are looked up in the tables.
#[derive(Debug, Clone, Copy, PartialEq, Eq, Structural)]
pub struct RawTriangle(pub RawPoint, pub RawPoint, pub RawPoint);

/// What a line of the file says.
#[derive(Debug, Clone, Copy, PartialEq, Eq, Structural)]
pub enum LineType {
    Ignore,
    Face(RawData, RawData, Option<RawData>),
    Vertex(i64, i64, i64),
    Normal(i64, i64, i64),
    TexCoord(i64, i64),
}

/// Why a line could not be read.
#[derive(Debug, Clone, Copy, PartialEq, Eq, Structural)]
pub enum ParseError {
    /// A line is empty, or is a `v` with nothing after it.
    EmptyLine,
    /// A line starts with a symbol that is not known.
    UnexpectedSymbol,
    /// A line has not the number of values that its kind wants.
    WrongNumberOfValues,
    /// A rank of a face is not a number that fits in 32 bits.
    BadIndex,
    /// A point of a face has neither two nor three ranks.
    WrongNumberOfIndexes,
    /// A face has less than three points.
    MissingPoints,
}

/// Why a file could not be read, and where.
#[derive(Debug, Clone, Copy, PartialEq, Eq, Structural)]
pub enum FileError {
    /// The line of rank `line`, counted from zero, cannot be read, for the
    /// reason `error`; every line before it can.
    Line { line: usize, error: ParseError },
    /// Every line can be read, but the face of rank `face`, counted from
    /// zero among the faces of the file, refers to what the tables do not
    /// hold; every face before it can be built.
    Mesh { face: usize, error: MeshError },
}

/// The ranks of the texture coordinates of the three points of a triangle,
/// one by one.
pub fn propagate_option(val: Option<RawData>) -> (r: (Option<usize>, Option<usize>, Option<usize>))
    ensures
        r == (match val {
            Some(tuple) => (Some(tuple.0 as usize), Some(tuple.1 as usize), Some(tuple.2 as usize)),
            None => (None::<usize>, None::<usize>, None::<usize>),
        }),
{
    match val {
        Some(tuple) => (Some(tuple.0 as usize), Some(tuple.1 as usize), Some(tuple.2 as usize)),
        None => (None, None, None),
    }
}

/// The first three elements of a sequence of ranks.
pub fn make_tuple(vec: &[u32]) -> (r: RawData)
    requires
        vec@.len() >= 3,
    ensures
        r == RawData(vec@[0], vec@[1], vec@[2]),
{
    RawData(vec[0], vec[1], vec[2])
}

/// The first three elements of a sequence, as a tuple.
pub fn vec_to_tuple3(vec: &[u32]) -> (r: (u32, u32, u32))
    requires
        vec@.len() >= 3,
    ensures
        r == (vec@[0], vec@[1], vec@[2]),
{
    (vec[0], vec[1], vec[2])
}

/// The pieces of a text between the occurrences of a separator: one more
/// than there are separators, some of them empty perhaps.
pub open spec fn split(s: Seq<u8>, sep: u8) -> Seq<Seq<u8>>
    decreases s.len(),
{
    if s.len() == 0 {
        seq![Seq::<u8>::empty()]
    } else {
        let rest = split(s.drop_last(), sep);
        if s.last() == sep {
            rest.push(Seq::empty())
        } else {
            rest.update(rest.len() - 1, rest.last().push(s.last()))
        }
    }
}

/// A text always has at least one piece.
pub proof fn lemma_split_not_empty(s: Seq<u8>, sep: u8)
    ensures
        split(s, sep).len() >= 1,
    decreases s.len(),
{
    if s.len() > 0 {
        lemma_split_not_empty(s.drop_last(), sep);
    }
}

/// The texts of a sequence of buffers.
pub open spec fn views(v: Seq<Vec<u8>>) -> Seq<Seq<u8>> {
    Seq::new(v.len(), |i: int| v[i]@)
}

/// The pieces of a text between the occurrences of a separator.
pub fn split_at(line: &[u8], sep: u8) -> (pieces: Vec<Vec<u8>>)
    ensures
        views(pieces@) == split(line@, sep),
{
    let mut done: Vec<Vec<u8>> = Vec::new();
    let mut current: Vec<u8> = Vec::new();
    let mut i: usize = 0;
    while i < line.len()
        invariant
            i <= line@.len(),
            views(done@).push(current@) == split(line@.take(i as int), sep),
        decreases line@.len() - i,
    {
        let ghost before = split(line@.take(i as int), sep);
        proof {
            assert(line@.take(i + 1).drop_last() == line@.take(i as int));
            assert(before.len() == done@.len() + 1);
            assert(before.last() == current@);
        }
        if line[i] == sep {
            let ghost old_done = done@;
            done.push(current);
            current = Vec::new();
            proof {
                assert(views(done@) =~= before);
            }
        } else {
            current.push(line[i]);
            proof {
                assert(views(done@).push(current@) =~= before.update(
                    before.len() - 1,
                    before.last().push(line@[i as int]),
                ));
            }
        }
        i = i + 1;
    }
    proof {
        assert(line@.take(i as int) == line@);
        let ghost whole = views(done@).push(current@);
        assert(views(done@.push(current)) =~= whole);
    }
    done.push(current);
    done
}

/// Whether a character is a blank of a line: a space, a tabulation, or an
/// end of line.
pub open spec fn is_blank(c: u8) -> bool {
    c == 32 || c == 9 || c == 10 || c == 13 || c == 11 || c == 12
}

/// The words of a text: what stands between its blanks.
pub open spec fn words(s: Seq<u8>) -> Seq<Seq<u8>>
    decreases s.len(),
{
    if s.len() == 0 {
        Seq::empty()
    } else {
        let rest = words(s.drop_last());
        if is_blank(s.last()) {
            rest
        } else if s.len() >= 2 && !is_blank(s[s.len() - 2]) && rest.len() > 0 {
            rest.update(rest.len() - 1, rest.last().push(s.last()))
        } else {
            rest.push(seq![s.last()])
        }
    }
}

/// A text that does not end with a blank has a last word.
pub proof fn lemma_words_last(s: Seq<u8>)
    requires
        s.len() > 0,
        !is_blank(s.last()),
    ensures
        words(s).len() > 0,
        words(s).last().len() > 0,
    decreases s.len(),
{
    if s.len() >= 2 && !is_blank(s[s.len() - 2]) {
        assert(s.drop_last().last() == s[s.len() - 2]);
        lemma_words_last(s.drop_last());
    }
}

/// The words of a text.
pub fn split_words(line: &[u8]) -> (pieces: Vec<Vec<u8>>)
    ensures
        views(pieces@) == words(line@),
{
    let mut done: Vec<Vec<u8>> = Vec::new();
    let mut current: Vec<u8> = Vec::new();
    let mut i: usize = 0;
    while i < line.len()
        invariant
            i <= line@.len(),
            current@.len() > 0 <==> i > 0 && !is_blank(line@[i - 1]),
            current@.len() > 0 ==> views(done@).push(current@) == words(line@.take(i as int)),
            current@.len() == 0 ==> views(done@) == words(line@.take(i as int)),
        decreases line@.len() - i,
    {
        let c = line[i];
        let ghost before = words(line@.take(i as int));
        proof {
            assert(line@.take(i + 1).drop_last() == line@.take(i as int));
            if i > 0 {
                assert(line@.take(i + 1)[i - 1] == line@[i - 1]);
                assert(line@.take(i as int).last() == line@[i - 1]);
                if !is_blank(line@[i - 1]) {
                    lemma_words_last(line@.take(i as int));
                }
            }
        }
        if c == 32 || c == 9 || c == 10 || c == 13 || c == 11 || c == 12 {
            if current.len() > 0 {
                let ghost whole = views(done@).push(current@);
                proof {
                    assert(views(done@.push(current)) =~= whole);
                }
                done.push(current);
                current = Vec::new();
            }
        } else {
            let ghost grown = current@.push(c);
            current.push(c);
            proof {
                if grown.len() > 1 {
                    assert(views(done@).push(current@) =~= before.update(
                        before.len() - 1,
                        before.last().push(c),
                    ));
                } else {
                    assert(current@ =~= seq![c]);
                }
            }
        }
        i = i + 1;
    }
    proof {
        assert(line@.take(i as int) == line@);
    }
    if current.len() > 0 {
        let ghost whole = views(done@).push(current@);
        proof {
            assert(views(done@.push(current)) =~= whole);
        }
        done.push(current);
    }
    done
}

/// Whether a character is a decimal digit.
pub open spec fn is_digit(c: u8) -> bool {
    48 <= c <= 57
}

/// Whether a text is made of decimal digits only.
pub open spec fn all_digits(s: Seq<u8>) -> bool {
    forall|i: int| 0 <= i < s.len() ==> is_digit(#[trigger] s[i])
}

/// The number that a text of decimal digits stands for.
pub open spec fn digits_value(s: Seq<u8>) -> nat
    decreases s.len(),
{
    if s.len() == 0 {
        0
    } else {
        digits_value(s.drop_last()) * 10 + (s.last() - 48) as nat
    }
}

/// The number that a text stands for, if it is made of at least one decimal
/// digit, after a plus sign perhaps, and fits in 32 bits.
pub open spec fn number_of(s: Seq<u8>) -> Option<u32> {
    let digits = if s.len() > 0 && s[0] == 43 {
        s.subrange(1, s.len() as int)
    } else {
        s
    };
    if digits.len() > 0 && all_digits(digits) && digits_value(digits) <= u32::MAX {
        Some(digits_value(digits) as u32)
    } else {
        None
    }
}

/// The value of a text of digits grows with each digit.
pub proof fn lemma_digits_grow(s: Seq<u8>, k: int)
    requires
        0 <= k <= s.len(),
        all_digits(s),
    ensures
        digits_value(s.take(k)) <= digits_value(s),
    decreases s.len() - k,
{
    if k < s.len() {
        lemma_digits_grow(s, k + 1);
        assert(s.take(k + 1).drop_last() == s.take(k));
        assert(is_digit(s[k]));
    } else {
        assert(s.take(k) == s);
    }
}

/// Reads a rank of a face: a whole number without a sign, or with a plus.
pub fn convert_to_u32(string: &[u8]) -> (r: Option<u32>)
    ensures
        r == number_of(string@),
{
    let start: usize = if string.len() > 0 && string[0] == 43 {
        1
    } else {
        0
    };
    let ghost digits = string@.subrange(start as int, string@.len() as int);
    proof {
        if start == 0 {
            assert(digits =~= string@);
        }
    }
    let ghost named = if string@.len() > 0 && string@[0] == 43 {
        string@.subrange(1, string@.len() as int)
    } else {
        string@
    };
    assert(digits == named);
    if start >= string.len() {
        assert(digits.len() == 0);
        return None;
    }
    let mut value: u64 = 0;
    let mut i: usize = start;
    while i < string.len()
        invariant
            start <= i <= string@.len(),
            digits == string@.subrange(start as int, string@.len() as int),
            digits == named,
            named == (if string@.len() > 0 && string@[0] == 43 {
                string@.subrange(1, string@.len() as int)
            } else {
                string@
            }),
            all_digits(digits.take(i - start)),
            value == digits_value(digits.take(i - start)),
            value <= u32::MAX,
        decreases string@.len() - i,
    {
        let c = string[i];
        proof {
            assert(digits[i - start] == c);
            assert(digits.take(i - start + 1).drop_last() == digits.take(i - start));
        }
        if c < 48 || c > 57 {
            proof {
                assert(!all_digits(digits));
            }
            return None;
        }
        let next = value * 10 + (c - 48) as u64;
        if next > u32::MAX as u64 {
            proof {
                if all_digits(digits) {
                    lemma_digits_grow(digits, i - start + 1);
                }
            }
            return None;
        }
        proof {
            assert forall|j: int| 0 <= j < digits.take(i - start + 1).len() implies is_digit(
                #[trigger] digits.take(i - start + 1)[j],
            ) by {
                if j < i - start {
                    assert(digits.take(i - start)[j] == digits.take(i - start + 1)[j]);
                }
            }
        }
        value = next;
        i = i + 1;
    }
    proof {
        assert(digits.take(i - start) == digits);
    }
    Some(value as u32)
}

/// The texts of a sequence of groups of buffers.
pub open spec fn views2(v: Seq<Vec<Vec<u8>>>) -> Seq<Seq<Seq<u8>>> {
    Seq::new(v.len(), |i: int| views(v[i]@))
}

/// Those of the first `k` texts that are not empty, in order.
pub open spec fn kept(tokens: Seq<Seq<u8>>, k: int) -> Seq<Seq<u8>>
    decreases k,
{
    if k <= 0 {
        Seq::empty()
    } else if tokens[k - 1].len() > 0 {
        kept(tokens, k - 1).push(tokens[k - 1])
    } else {
        kept(tokens, k - 1)
    }
}

/// The ranks of a point of a face, as texts: what stands between the
/// slashes of the point, but for what is empty.
pub open spec fn group_of(piece: Seq<u8>) -> Seq<Seq<u8>> {
    kept(split(piece, 47), split(piece, 47).len() as int)
}

/// Whether a group is worth keeping: it is not empty, and is not the mark
/// `f` of a face.
pub open spec fn is_point(group: Seq<Seq<u8>>) -> bool {
    group.len() > 0 && !(group[0].len() == 1 && group[0][0] == 102)
}

/// The groups of the points among the first `k` pieces of a line.
pub open spec fn face_groups(pieces: Seq<Seq<u8>>, k: int) -> Seq<Seq<Seq<u8>>>
    decreases k,
{
    if k <= 0 {
        Seq::empty()
    } else if is_point(group_of(pieces[k - 1])) {
        face_groups(pieces, k - 1).push(group_of(pieces[k - 1]))
    } else {
        face_groups(pieces, k - 1)
    }
}

/// The points of the face that a line describes: for ` 2//1 4//1 3//1`,
/// the groups `2 1`, `4 1` and `3 1`.
pub open spec fn face_of(line: Seq<u8>) -> Seq<Seq<Seq<u8>>> {
    face_groups(split(line, 32), split(line, 32).len() as int)
}

/// A copy of a text.
fn copy_bytes(s: &[u8]) -> (r: Vec<u8>)
    ensures
        r@ == s@,
{
    let mut r: Vec<u8> = Vec::new();
    let mut i: usize = 0;
    while i < s.len()
        invariant
            i <= s@.len(),
            r@ == s@.take(i as int),
        decreases s@.len() - i,
    {
        r.push(s[i]);
        proof {
            assert(r@ =~= s@.take(i + 1));
        }
        i = i + 1;
    }
    proof {
        assert(s@.take(i as int) == s@);
    }
    r
}

/// Those of the texts that are not empty.
fn keep_tokens(tokens: &Vec<Vec<u8>>) -> (r: Vec<Vec<u8>>)
    ensures
        views(r@) == kept(views(tokens@), tokens@.len() as int),
{
    let mut result: Vec<Vec<u8>> = Vec::new();
    let mut i: usize = 0;
    while i < tokens.len()
        invariant
            i <= tokens@.len(),
            views(result@) == kept(views(tokens@), i as int),
        decreases tokens@.len() - i,
    {
        proof {
            assert(views(tokens@)[i as int] == tokens@[i as int]@);
        }
        if tokens[i].len() > 0 {
            let token = copy_bytes(tokens[i].as_slice());
            let ghost grown = views(result@).push(token@);
            proof {
                assert(views(result@.push(token)) =~= grown);
            }
            result.push(token);
        }
        i = i + 1;
    }
    result
}

/// The points of the face that a line describes, each as the texts of its
/// ranks.
pub fn get_face(line: &[u8]) -> (groups: Vec<Vec<Vec<u8>>>)
    ensures
        views2(groups@) == face_of(line@),
{
    let pieces = split_at(line, 32);
    let mut result: Vec<Vec<Vec<u8>>> = Vec::new();
    let mut i: usize = 0;
    while i < pieces.len()
        invariant
            i <= pieces@.len(),
            views(pieces@) == split(line@, 32),
            views2(result@) == face_groups(views(pieces@), i as int),
        decreases pieces@.len() - i,
    {
        // The line is cut at the slashes, and what is empty is left out.
        let tokens = split_at(pieces[i].as_slice(), 47);
        let group = keep_tokens(&tokens);
        proof {
            assert(views(pieces@)[i as int] == pieces@[i as int]@);
        }
        // The mark of the line is left out too.
        if group.len() > 0 && !(group[0].len() == 1 && group[0][0] == 102) {
            let ghost grown = views2(result@).push(views(group@));
            proof {
                assert(views(group@)[0] == group@[0]@);
                assert(views2(result@.push(group)) =~= grown);
            }
            result.push(group);
        } else {
            proof {
                if group@.len() > 0 {
                    assert(views(group@)[0] == group@[0]@);
                }
            }
        }
        i = i + 1;
    }
    result
}

/// Every rank of every point is a number.
pub open spec fn all_parse(groups: Seq<Seq<Seq<u8>>>) -> bool {
    forall|i: int, j: int|
        0 <= i < groups.len() && 0 <= j < groups[i].len() ==> number_of(#[trigger] groups[i][j]) is Some
}

/// The ranks of the points of a face, kind by kind.
pub struct Ranks {
    pub pos: Seq<u32>,
    pub norm: Seq<u32>,
    pub tex: Seq<u32>,
    /// Some point has neither two nor three ranks.
    pub wrong: bool,
}

/// The ranks of the first `k` points of a face. A point of three ranks has
/// a position, texture coordinates and a normal, in this order; a point of
/// two ranks has a position and a normal.
pub open spec fn ranks(groups: Seq<Seq<Seq<u8>>>, k: int) -> Ranks
    decreases k,
{
    if k <= 0 {
        Ranks { pos: Seq::empty(), norm: Seq::empty(), tex: Seq::empty(), wrong: false }
    } else {
        let r = ranks(groups, k - 1);
        let g = groups[k - 1];
        if g.len() == 3 {
            Ranks {
                pos: r.pos.push(number_of(g[0]).unwrap()),
                tex: r.tex.push(number_of(g[1]).unwrap()),
                norm: r.norm.push(number_of(g[2]).unwrap()),
                wrong: r.wrong,
            }
        } else if g.len() == 2 {
            Ranks {
                pos: r.pos.push(number_of(g[0]).unwrap()),
                tex: r.tex,
                norm: r.norm.push(number_of(g[1]).unwrap()),
                wrong: r.wrong,
            }
        } else {
            Ranks { pos: r.pos, tex: r.tex, norm: r.norm, wrong: true }
        }
    }
}

/// What a line of a face says: the ranks of the positions and of the
/// normals of its first three points, and those of their texture
/// coordinates if there are exactly three of them.
pub open spec fn indexes_of(line: Seq<u8>) -> Result<(RawData, RawData, Option<RawData>), ParseError> {
    let groups = face_of(line);
    let r = ranks(groups, groups.len() as int);
    if !all_parse(groups) {
        Err(ParseError::BadIndex)
    } else if r.wrong {
        Err(ParseError::WrongNumberOfIndexes)
    } else if r.pos.len() < 3 || r.norm.len() < 3 {
        Err(ParseError::MissingPoints)
    } else {
        Ok(
            (
                RawData(r.pos[0], r.pos[1], r.pos[2]),
                RawData(r.norm[0], r.norm[1], r.norm[2]),
                if r.tex.len() == 3 {
                    Some(RawData(r.tex[0], r.tex[1], r.tex[2]))
                } else {
                    None
                },
            ),
        )
    }
}

/// Reads the ranks of a face. A point has a position and a normal, or a
/// position, texture coordinates and a normal.
pub fn extract_indexes(line: &[u8]) -> (r: Result<(RawData, RawData, Option<RawData>), ParseError>)
    ensures
        r == indexes_of(line@),
{
    let data = get_face(line);
    let ghost groups = face_of(line@);
    let mut id_pos: Vec<u32> = Vec::new();
    let mut id_norm: Vec<u32> = Vec::new();
    let mut id_tex: Vec<u32> = Vec::new();

    // The ranks, read as numbers.
    let mut parsed_data: Vec<Vec<u32>> = Vec::new();
    let mut i: usize = 0;
    while i < data.len()
        invariant
            i <= data@.len(),
            views2(data@) == groups,
            groups == face_of(line@),
            parsed_data@.len() == i,
            forall|a: int, b: int|
                0 <= a < i && 0 <= b < groups[a].len() ==> number_of(#[trigger] groups[a][b]) is Some,
            forall|a: int|
                0 <= a < i ==> (#[trigger] parsed_data@[a])@.len() == groups[a].len(),
            forall|a: int, b: int|
                0 <= a < i && 0 <= b < groups[a].len() ==> #[trigger] parsed_data@[a]@[b] == number_of(
                    groups[a][b],
                ).unwrap(),
        decreases data@.len() - i,
    {
        let group = &data[i];
        proof {
            assert(groups[i as int] == views(group@));
            assert(groups.len() == data@.len());
        }
        let mut numbers: Vec<u32> = Vec::new();
        let mut j: usize = 0;
        while j < group.len()
            invariant
                j <= group@.len(),
                i < data@.len(),
                groups.len() == data@.len(),
                groups == face_of(line@),
                groups[i as int] == views(group@),
                numbers@.len() == j,
                forall|b: int| 0 <= b < j ==> number_of(#[trigger] groups[i as int][b]) is Some,
                forall|b: int|
                    0 <= b < j ==> #[trigger] numbers@[b] == number_of(groups[i as int][b]).unwrap(),
            decreases group@.len() - j,
        {
            proof {
                assert(views(group@)[j as int] == group@[j as int]@);
            }
            match convert_to_u32(group[j].as_slice()) {
                Some(n) => {
                    numbers.push(n);
                },
                None => {
                    proof {
                        assert(groups.len() == data@.len());
                        assert(groups[i as int].len() == group@.len());
                        assert(number_of(groups[i as int][j as int]) is None);
                        assert(!all_parse(groups));
                    }
                    return Err(ParseError::BadIndex);
                },
            }
            j = j + 1;
        }
        parsed_data.push(numbers);
        i = i + 1;
    }
    proof {
        assert(all_parse(groups));
    }
    // A line may have a wrong number of ranks.
    let mut error = false;
    let mut k: usize = 0;
    while k < parsed_data.len()
        invariant
            k <= parsed_data@.len(),
            parsed_data@.len() == groups.len(),
            groups == face_of(line@),
            forall|a: int|
                0 <= a < groups.len() ==> (#[trigger] parsed_data@[a])@.len() == groups[a].len(),
            forall|a: int, b: int|
                0 <= a < groups.len() && 0 <= b < groups[a].len() ==> #[trigger] parsed_data@[a]@[b]
                    == number_of(groups[a][b]).unwrap(),
            id_pos@ == ranks(groups, k as int).pos,
            id_norm@ == ranks(groups, k as int).norm,
            id_tex@ == ranks(groups, k as int).tex,
            error == ranks(groups, k as int).wrong,
        decreases parsed_data@.len() - k,
    {
        let elem = &parsed_data[k];
        proof {
            assert(elem@.len() == groups[k as int].len());
            if elem@.len() >= 2 {
                assert(elem@[0] == number_of(groups[k as int][0]).unwrap());
                assert(elem@[1] == number_of(groups[k as int][1]).unwrap());
            }
            if elem@.len() >= 3 {
                assert(elem@[2] == number_of(groups[k as int][2]).unwrap());
            }
        }
        if elem.len() == 3 {
            id_pos.push(elem[0]);
            id_tex.push(elem[1]);
            id_norm.push(elem[2]);
        } else if elem.len() == 2 {
            id_pos.push(elem[0]);
            id_norm.push(elem[1]);
        } else {
            error = true;
        }
        k = k + 1;
    }
    if error {
        Err(ParseError::WrongNumberOfIndexes)
    } else if id_pos.len() < 3 || id_norm.len() < 3 {
        Err(ParseError::MissingPoints)
    } else {
        Ok(
            (
                make_tuple(id_pos.as_slice()),
                make_tuple(id_norm.as_slice()),
                if id_tex.len() == 3 {
                    Some(make_tuple(id_tex.as_slice()))
                } else {
                    None
                },
            ),
        )
    }
}

/// Ten to the power `k`.
pub open spec fn pow10(k: nat) -> nat
    decreases k,
{
    if k == 0 {
        1
    } else {
        10 * pow10((k - 1) as nat)
    }
}

/// The powers of ten grow, and the eighteenth is a one with eighteen
/// zeros.
pub proof fn lemma_pow10(a: nat, b: nat)
    requires
        a <= b,
    ensures
        1 <= pow10(a) <= pow10(b),
        pow10(18) == 1000000000000000000,
    decreases b - a,
{
    assert(pow10(18) == 1000000000000000000) by {
        reveal_with_fuel(pow10, 19);
    }
    lemma_pow10_positive(a);
    if a < b {
        lemma_pow10(a + 1, b);
    }
}

proof fn lemma_pow10_positive(a: nat)
    ensures
        pow10(a) >= 1,
    decreases a,
{
    if a > 0 {
        lemma_pow10_positive((a - 1) as nat);
    }
}

/// A text of `k` digits stands for a number less than ten to the `k`.
pub proof fn lemma_digits_bounded(s: Seq<u8>)
    requires
        all_digits(s),
    ensures
        digits_value(s) < pow10(s.len()),
    decreases s.len(),
{
    if s.len() > 0 {
        assert(is_digit(s.last()));
        assert forall|i: int| 0 <= i < s.drop_last().len() implies is_digit(
            #[trigger] s.drop_last()[i],
        ) by {
            assert(s.drop_last()[i] == s[i]);
        }
        lemma_digits_bounded(s.drop_last());
    }
}

/// The place of the first point of a text, or its length if it has none.
pub open spec fn dot_place(s: Seq<u8>) -> int
    decreases s.len(),
{
    if s.len() == 0 || s[0] == 46 {
        0
    } else {
        1 + dot_place(s.subrange(1, s.len() as int))
    }
}

/// The place of the first point is the only place `d` with no point before
/// it where there is a point or the text ends.
pub proof fn lemma_dot_place(s: Seq<u8>, d: int)
    requires
        0 <= d <= s.len(),
        forall|j: int| 0 <= j < d ==> s[j] != 46,
        d < s.len() ==> s[d] == 46,
    ensures
        dot_place(s) == d,
    decreases s.len(),
{
    if s.len() > 0 && s[0] != 46 {
        let rest = s.subrange(1, s.len() as int);
        assert forall|j: int| 0 <= j < d - 1 implies rest[j] != 46 by {
            assert(rest[j] == s[j + 1]);
        }
        if d - 1 < rest.len() {
            assert(rest[d - 1] == s[d]);
        }
        lemma_dot_place(rest, d - 1);
    }
}

/// The number that a decimal text stands for, times `scale` and rounded
/// toward zero: a sign perhaps, then digits with one point at most among
/// them, one digit at least and eighteen at most. Nothing for any other
/// text, or if the number does not fit in 64 bits.
pub open spec fn decimal_of(s: Seq<u8>, scale: u32) -> Option<i64> {
    let negative = s.len() > 0 && s[0] == 45;
    let body = if s.len() > 0 && (s[0] == 45 || s[0] == 43) {
        s.subrange(1, s.len() as int)
    } else {
        s
    };
    let d = dot_place(body);
    let whole = body.take(d);
    let frac = if d < body.len() {
        body.subrange(d + 1, body.len() as int)
    } else {
        Seq::empty()
    };
    let m = digits_value(whole) * pow10(frac.len()) + digits_value(frac);
    let q = (m * scale) / (pow10(frac.len()) as int);
    if all_digits(whole) && all_digits(frac) && 1 <= whole.len() + frac.len() <= 18 && q
        <= i64::MAX {
        Some(
            if negative {
                (-q) as i64
            } else {
                q as i64
            },
        )
    } else {
        None
    }
}

/// Reads a decimal number and brings it to the lattice.
pub fn parse_decimal(token: &[u8], scale: u32) -> (r: Option<i64>)
    ensures
        r == decimal_of(token@, scale),
{
    let negative = token.len() > 0 && token[0] == 45;
    let start: usize = if token.len() > 0 && (token[0] == 45 || token[0] == 43) {
        1
    } else {
        0
    };
    let ghost body = token@.subrange(start as int, token@.len() as int);
    proof {
        if start == 0 {
            assert(body =~= token@);
        }
        lemma_pow10(0, 18);
    }
    let mut m: u128 = 0;
    let mut div: u128 = 1;
    let mut count: usize = 0;
    let mut seen_dot = false;
    let ghost mut d: int = 0;
    let mut i: usize = start;
    while i < token.len()
        invariant
            start <= i <= token@.len(),
            body == token@.subrange(start as int, token@.len() as int),
            body == (if token@.len() > 0 && (token@[0] == 45 || token@[0] == 43) {
                token@.subrange(1, token@.len() as int)
            } else {
                token@
            }),
            negative == (token@.len() > 0 && token@[0] == 45),
            count <= 18,
            pow10(18) == 1000000000000000000,
            !seen_dot ==> {
                &&& forall|j: int| 0 <= j < i - start ==> body[j] != 46
                &&& all_digits(body.take(i - start))
                &&& m == digits_value(body.take(i - start))
                &&& count == i - start
                &&& div == 1
            },
            seen_dot ==> {
                &&& 0 <= d < i - start
                &&& dot_place(body) == d
                &&& all_digits(body.take(d))
                &&& all_digits(body.subrange(d + 1, i - start))
                &&& m == digits_value(body.take(d)) * pow10((i - start - d - 1) as nat) + digits_value(
                    body.subrange(d + 1, i - start),
                )
                &&& count == i - start - 1
                &&& div == pow10((i - start - d - 1) as nat)
            },
            m < pow10(count as nat),
        decreases token@.len() - i,
    {
        let c = token[i];
        let ghost p = i - start;
        proof {
            assert(body[p] == c);
            lemma_pow10(count as nat, 18);
        }
        if c == 46 && !seen_dot {
            proof {
                d = p;
                lemma_dot_place(body, d);
                assert(body.subrange(d + 1, p + 1) =~= Seq::<u8>::empty());
                assert(body.take(d) == body.take(p));
                assert(digits_value(body.take(d)) * 1 == digits_value(body.take(d))) by (nonlinear_arith);
            }
            seen_dot = true;
        } else if 48 <= c && c <= 57 {
            if count == 18 {
                proof {
                    // There are more than eighteen digits, or something
                    // that is not a digit.
                    let dd = dot_place(body);
                    if !seen_dot {
                        lemma_dot_count(body, p + 1);
                    }
                }
                return None;
            }
            proof {
                if seen_dot {
                    let fl = (p - d - 1) as nat;
                    let before = body.subrange(d + 1, p);
                    let after = body.subrange(d + 1, p + 1);
                    assert(after.drop_last() =~= before);
                    assert(after.last() == c);
                    assert forall|j: int| 0 <= j < after.len() implies is_digit(#[trigger] after[j]) by {
                        if j < before.len() {
                            assert(before[j] == after[j]);
                        }
                    }
                    let w = digits_value(body.take(d));
                    let f = digits_value(before);
                    assert((w * pow10(fl) + f) * 10 + (c - 48) == w * (10 * pow10(fl)) + (f * 10 + (c
                        - 48))) by (nonlinear_arith);
                } else {
                    let before = body.take(p);
                    let after = body.take(p + 1);
                    assert(after.drop_last() =~= before);
                    assert forall|j: int| 0 <= j < after.len() implies is_digit(#[trigger] after[j]) by {
                        if j < before.len() {
                            assert(before[j] == after[j]);
                        }
                    }
                }
                lemma_pow10((count + 1) as nat, 18);
                if seen_dot {
                    lemma_pow10((p - d) as nat, 18);
                }
            }
            m = m * 10 + (c - 48) as u128;
            count = count + 1;
            if seen_dot {
                div = div * 10;
            }
        } else {
            proof {
                if seen_dot {
                    let frac = body.subrange(d + 1, body.len() as int);
                    assert(frac[p - d - 1] == c);
                    assert(!all_digits(frac));
                } else {
                    lemma_dot_after(body, p);
                    let dd = dot_place(body);
                    assert(body.take(dd)[p] == c);
                    assert(!all_digits(body.take(dd)));
                }
            }
            return None;
        }
        i = i + 1;
    }
    let ghost whole = body.take(dot_place(body));
    let ghost frac = if dot_place(body) < body.len() {
        body.subrange(dot_place(body) + 1, body.len() as int)
    } else {
        Seq::<u8>::empty()
    };
    proof {
        if seen_dot {
            assert(whole == body.take(d));
            assert(frac == body.subrange(d + 1, i - start));
        } else {
            lemma_dot_place(body, body.len() as int);
            assert(body.take(body.len() as int) == body);
            assert(whole == body);
            assert(frac.len() == 0);
            assert(m * 1 == m);
        }
        lemma_pow10(frac.len(), 18);
        lemma_pow10(count as nat, 18);
    }
    if count == 0 {
        return None;
    }
    proof {
        crate::algebra::lemma_product_bounded(
            m as int,
            scale as int,
            1000000000000000000,
            0x1_0000_0000,
        );
        assert(m * scale >= 0) by (nonlinear_arith)
            requires
                m >= 0,
                scale >= 0,
        ;
    }
    let q = (m * (scale as u128)) / div;
    if q > i64::MAX as u128 {
        return None;
    }
    if negative {
        Some(-(q as i64))
    } else {
        Some(q as i64)
    }
}

/// In a text with no point among its first `p` characters, the first point
/// comes after them.
proof fn lemma_dot_after(s: Seq<u8>, p: int)
    requires
        0 <= p < s.len(),
        forall|j: int| 0 <= j <= p ==> s[j] != 46,
    ensures
        p < dot_place(s) <= s.len(),
    decreases s.len(),
{
    let rest = s.subrange(1, s.len() as int);
    if p > 0 {
        assert forall|j: int| 0 <= j <= p - 1 implies rest[j] != 46 by {
            assert(rest[j] == s[j + 1]);
        }
        lemma_dot_after(rest, p - 1);
    } else {
        lemma_dot_range(rest);
    }
}

/// The place of the first point lies within the text or at its end.
proof fn lemma_dot_range(s: Seq<u8>)
    ensures
        0 <= dot_place(s) <= s.len(),
    decreases s.len(),
{
    if s.len() > 0 && s[0] != 46 {
        lemma_dot_range(s.subrange(1, s.len() as int));
    }
}

/// A text whose first `n` characters are not points has its first point
/// at the place `n` at least.
proof fn lemma_dot_count(s: Seq<u8>, n: int)
    requires
        0 <= n <= s.len(),
        forall|j: int| 0 <= j < n - 1 ==> s[j] != 46,
        n >= 1 ==> s[n - 1] != 46,
    ensures
        n <= dot_place(s) <= s.len(),
{
    lemma_dot_range(s);
    if n >= 1 {
        lemma_dot_after(s, n - 1);
    }
}

/// The numbers among the first `k` words of a line: the words that are
/// not decimal numbers are left out.
pub open spec fn numbers(ws: Seq<Seq<u8>>, k: int, scale: u32) -> Seq<i64>
    decreases k,
{
    if k <= 0 {
        Seq::empty()
    } else {
        match decimal_of(ws[k - 1], scale) {
            Some(n) => numbers(ws, k - 1, scale).push(n),
            None => numbers(ws, k - 1, scale),
        }
    }
}

/// The numbers of a line, brought to the lattice.
pub open spec fn numbers_of(line: Seq<u8>, scale: u32) -> Seq<i64> {
    numbers(words(line), words(line).len() as int, scale)
}

/// Reads the numbers of a line: its words are read one by one, and those
/// that are not numbers are left out.
pub fn get_floats(line: &[u8], scale: u32) -> (r: Vec<i64>)
    ensures
        r@ == numbers_of(line@, scale),
{
    let ws = split_words(line);
    let mut result: Vec<i64> = Vec::new();
    let mut i: usize = 0;
    while i < ws.len()
        invariant
            i <= ws@.len(),
            views(ws@) == words(line@),
            result@ == numbers(views(ws@), i as int, scale),
        decreases ws@.len() - i,
    {
        proof {
            assert(views(ws@)[i as int] == ws@[i as int]@);
        }
        match parse_decimal(ws[i].as_slice(), scale) {
            Some(n) => {
                result.push(n);
            },
            None => {},
        }
        i = i + 1;
    }
    result
}

/// What a line of three numbers says, as a normal.
pub open spec fn normal_of(line: Seq<u8>, scale: u32) -> Result<LineType, ParseError> {
    let n = numbers_of(line, scale);
    if n.len() == 3 {
        Ok(LineType::Normal(n[0], n[1], n[2]))
    } else {
        Err(ParseError::WrongNumberOfValues)
    }
}

/// What a line says: nothing for the lines of objects, groups, comments,
/// materials and smoothing; a face for `f`; a vertex for `v`, a normal for
/// `vn`, texture coordinates for `vt`.
pub open spec fn line_of(line: Seq<u8>, scale: u32) -> Result<LineType, ParseError> {
    if line.len() == 0 {
        Err(ParseError::EmptyLine)
    } else if line[0] == 111 || line[0] == 103 || line[0] == 35 || line[0] == 117 || line[0] == 109
        || line[0] == 115 {
        Ok(LineType::Ignore)
    } else if line[0] == 102 {
        match indexes_of(line) {
            Ok(i) => Ok(LineType::Face(i.0, i.1, i.2)),
            Err(e) => Err(e),
        }
    } else if line[0] == 118 {
        if line.len() < 2 {
            Err(ParseError::EmptyLine)
        } else if line[1] == 32 {
            match normal_of(line, scale) {
                Ok(LineType::Normal(u, v, w)) => Ok(LineType::Vertex(u, v, w)),
                Ok(other) => Ok(other),
                Err(t) => Err(t),
            }
        } else if line[1] == 110 {
            normal_of(line, scale)
        } else if line[1] == 116 {
            let n = numbers_of(line, scale);
            if n.len() == 2 {
                Ok(LineType::TexCoord(n[0], n[1]))
            } else {
                Err(ParseError::WrongNumberOfValues)
            }
        } else {
            Err(ParseError::UnexpectedSymbol)
        }
    } else {
        Err(ParseError::UnexpectedSymbol)
    }
}

fn parse_normal(line: &[u8], scale: u32) -> (r: Result<LineType, ParseError>)
    ensures
        r == normal_of(line@, scale),
{
    let floats = get_floats(line, scale);
    if floats.len() == 3 {
        Ok(LineType::Normal(floats[0], floats[1], floats[2]))
    } else {
        Err(ParseError::WrongNumberOfValues)
    }
}

fn parse_vertex(line: &[u8], scale: u32) -> (r: Result<LineType, ParseError>)
    ensures
        r == (match normal_of(line@, scale) {
            Ok(LineType::Normal(u, v, w)) => Ok(LineType::Vertex(u, v, w)),
            Ok(other) => Ok(other),
            Err(t) => Err(t),
        }),
{
    match parse_normal(line, scale) {
        Ok(LineType::Normal(u, v, w)) => Ok(LineType::Vertex(u, v, w)),
        Ok(other) => Ok(other),
        Err(t) => Err(t),
    }
}

fn parse_face(line: &[u8]) -> (r: Result<LineType, ParseError>)
    ensures
        r == (match indexes_of(line@) {
            Ok(i) => Ok(LineType::Face(i.0, i.1, i.2)),
            Err(e) => Err(e),
        }),
{
    let indices = extract_indexes(line);
    match indices {
        Ok(i) => Ok(LineType::Face(i.0, i.1, i.2)),
        // An error goes one level further.
        Err(e) => Err(e),
    }
}

fn parse_tex_coord(line: &[u8], scale: u32) -> (r: Result<LineType, ParseError>)
    ensures
        r == ({
            let n = numbers_of(line@, scale);
            if n.len() == 2 {
                Ok(LineType::TexCoord(n[0], n[1]))
            } else {
                Err::<LineType, ParseError>(ParseError::WrongNumberOfValues)
            }
        }),
{
    let floats = get_floats(line, scale);
    if floats.len() == 2 {
        Ok(LineType::TexCoord(floats[0], floats[1]))
    } else {
        Err(ParseError::WrongNumberOfValues)
    }
}

/// Reads a line.
pub fn parse_line(line: &[u8], scale: u32) -> (r: Result<LineType, ParseError>)
    ensures
        r == line_of(line@, scale),
{
    if line.len() == 0 {
        return Err(ParseError::EmptyLine);
    }
    let first = line[0];
    if first == 111 || first == 103 || first == 35 || first == 117 || first == 109 || first == 115 {
        // Groups and single objects are not kept apart.
        Ok(LineType::Ignore)
    } else if first == 102 {
        parse_face(line)
    } else if first == 118 {
        if line.len() < 2 {
            return Err(ParseError::EmptyLine);
        }
        let second = line[1];
        if second == 32 {
            parse_vertex(line, scale)
        } else if second == 110 {
            parse_normal(line, scale)
        } else if second == 116 {
            parse_tex_coord(line, scale)
        } else {
            Err(ParseError::UnexpectedSymbol)
        }
    } else {
        Err(ParseError::UnexpectedSymbol)
    }
}

/// The tables of a file: its positions, its normals, its texture
/// coordinates if it has any, and its faces.
pub struct Tables {
    pub pos: Seq<Vector3<i64>>,
    pub normals: Seq<Vector3<i64>>,
    pub tex: Option<Seq<Vector2<i64>>>,
    pub tris: Seq<RawTriangle>,
}

/// The triangle of a face, by the ranks of its three points.
pub open spec fn raw_triangle(p: RawData, n: RawData, t: Option<RawData>) -> RawTriangle {
    RawTriangle(
        RawPoint(
            p.0 as usize,
            n.0 as usize,
            match t {
                Some(t) => Some(t.0 as usize),
                None => None,
            },
        ),
        RawPoint(
            p.1 as usize,
            n.1 as usize,
            match t {
                Some(t) => Some(t.1 as usize),
                None => None,
            },
        ),
        RawPoint(
            p.2 as usize,
            n.2 as usize,
            match t {
                Some(t) => Some(t.2 as usize),
                None => None,
            },
        ),
    )
}

/// The tables after the first `k` lines of a file, or the rank and the
/// error of the first line that cannot be read.
pub open spec fn tables_of(lines: Seq<Seq<u8>>, k: int, scale: u32) -> Result<Tables, FileError>
    decreases k,
{
    if k <= 0 {
        Ok(Tables { pos: Seq::empty(), normals: Seq::empty(), tex: None, tris: Seq::empty() })
    } else {
        match tables_of(lines, k - 1, scale) {
            Err(e) => Err(e),
            Ok(t) => match line_of(lines[k - 1], scale) {
                Err(e) => Err(FileError::Line { line: (k - 1) as usize, error: e }),
                Ok(LineType::Ignore) => Ok(t),
                Ok(LineType::Face(p, n, x)) => Ok(
                    Tables {
                        pos: t.pos,
                        normals: t.normals,
                        tex: t.tex,
                        tris: t.tris.push(raw_triangle(p, n, x)),
                    },
                ),
                Ok(LineType::Normal(x, y, z)) => Ok(
                    Tables {
                        pos: t.pos,
                        normals: t.normals.push(Vector3 { x, y, z }),
                        tex: t.tex,
                        tris: t.tris,
                    },
                ),
                Ok(LineType::Vertex(x, y, z)) => Ok(
                    Tables {
                        pos: t.pos.push(Vector3 { x, y, z }),
                        normals: t.normals,
                        tex: t.tex,
                        tris: t.tris,
                    },
                ),
                Ok(LineType::TexCoord(u, v)) => Ok(
                    Tables {
                        pos: t.pos,
                        normals: t.normals,
                        tex: Some(
                            match t.tex {
                                Some(s) => s.push(Vector2 { x: u, y: v }),
                                None => seq![Vector2 { x: u, y: v }],
                            },
                        ),
                        tris: t.tris,
                    },
                ),
            },
        }
    }
}

/// The triangle whose points are found in the tables at the ranks of a raw
/// triangle.
pub open spec fn looked_up(
    triangle: RawTriangle,
    pos: Seq<Vector3<i64>>,
    norm: Seq<Vector3<i64>>,
    tex: Option<Seq<Vector2<i64>>>,
) -> Result<Triangle, MeshError> {
    match Mesh::point_at(triangle.0.0, triangle.0.1, triangle.0.2, pos, norm, tex) {
        Err(e) => Err(e),
        Ok(u) => match Mesh::point_at(triangle.1.0, triangle.1.1, triangle.1.2, pos, norm, tex) {
            Err(e) => Err(e),
            Ok(v) => match Mesh::point_at(triangle.2.0, triangle.2.1, triangle.2.2, pos, norm, tex) {
                Err(e) => Err(e),
                Ok(w) => Ok(Triangle { u, v, w }),
            },
        },
    }
}

/// The triangles of the first `k` raw triangles, or the error of the first
/// that refers to what the tables do not hold.
pub open spec fn built(
    tris: Seq<RawTriangle>,
    k: int,
    pos: Seq<Vector3<i64>>,
    norm: Seq<Vector3<i64>>,
    tex: Option<Seq<Vector2<i64>>>,
) -> Result<Seq<Triangle>, MeshError>
    decreases k,
{
    if k <= 0 {
        Ok(Seq::empty())
    } else {
        match built(tris, k - 1, pos, norm, tex) {
            Err(e) => Err(e),
            Ok(s) => match looked_up(tris[k - 1], pos, norm, tex) {
                Err(e) => Err(e),
                Ok(t) => Ok(s.push(t)),
            },
        }
    }
}

/// The triangles, among the first `k` raw triangles, that come before the
/// first that cannot be built.
pub open spec fn built_before(
    tris: Seq<RawTriangle>,
    k: int,
    pos: Seq<Vector3<i64>>,
    norm: Seq<Vector3<i64>>,
    tex: Option<Seq<Vector2<i64>>>,
) -> Seq<Triangle>
    decreases k,
{
    if k <= 0 {
        Seq::empty()
    } else {
        match built(tris, k - 1, pos, norm, tex) {
            Err(_) => built_before(tris, k - 1, pos, norm, tex),
            Ok(s) => match looked_up(tris[k - 1], pos, norm, tex) {
                Err(_) => s,
                Ok(t) => s.push(t),
            },
        }
    }
}

/// The texture coordinates of a file, as a sequence.
pub open spec fn tex_view(tex: Option<Vec<Vector2<i64>>>) -> Option<Seq<Vector2<i64>>> {
    match tex {
        Some(t) => Some(t@),
        None => None,
    }
}

/// Adds to the mesh the triangles whose points are found in the tables. At
/// the first triangle that refers to what the tables do not hold, the
/// triangles before it are in the mesh and the error is returned.
pub fn add_triangles(
    mesh: &mut Mesh,
    tris: &[RawTriangle],
    pos: &[Vector3<i64>],
    norm: &[Vector3<i64>],
    tex: &Option<Vec<Vector2<i64>>>,
) -> (r: Result<(), MeshError>)
    ensures
        match built(tris@, tris@.len() as int, pos@, norm@, tex_view(*tex)) {
            Ok(s) => r is Ok && final(mesh).triangles@ == old(mesh).triangles@ + s,
            Err(e) => r == Err::<(), MeshError>(e),
        },
        final(mesh).triangles@ == old(mesh).triangles@ + built_before(
            tris@,
            tris@.len() as int,
            pos@,
            norm@,
            tex_view(*tex),
        ),
{
    let mut i: usize = 0;
    while i < tris.len()
        invariant
            i <= tris@.len(),
            built(tris@, i as int, pos@, norm@, tex_view(*tex)) is Ok,
            mesh.triangles@ == old(mesh).triangles@ + built(
                tris@,
                i as int,
                pos@,
                norm@,
                tex_view(*tex),
            ).unwrap(),
        decreases tris@.len() - i,
    {
        let triangle = &tris[i];
        let first = &triangle.0;
        let second = &triangle.1;
        let third = &triangle.2;
        let ghost so_far = built(tris@, i as int, pos@, norm@, tex_view(*tex)).unwrap();
        let u = match Mesh::create_point(first.0, first.1, first.2, pos, norm, tex) {
            Ok(p) => p,
            Err(e) => {
                proof {
                    lemma_built_fails(tris@, i + 1, tris@.len() as int, pos@, norm@, tex_view(*tex));
                }
                return Err(e);
            },
        };
        let v = match Mesh::create_point(second.0, second.1, second.2, pos, norm, tex) {
            Ok(p) => p,
            Err(e) => {
                proof {
                    lemma_built_fails(tris@, i + 1, tris@.len() as int, pos@, norm@, tex_view(*tex));
                }
                return Err(e);
            },
        };
        let w = match Mesh::create_point(third.0, third.1, third.2, pos, norm, tex) {
            Ok(p) => p,
            Err(e) => {
                proof {
                    lemma_built_fails(tris@, i + 1, tris@.len() as int, pos@, norm@, tex_view(*tex));
                }
                return Err(e);
            },
        };
        mesh.add_triangle(Triangle::new(u, v, w));
        proof {
            assert(old(mesh).triangles@ + so_far.push(Triangle { u, v, w }) =~= (old(
                mesh,
            ).triangles@ + so_far).push(Triangle { u, v, w }));
        }
        i = i + 1;
    }
    proof {
        lemma_built_before(tris@, tris@.len() as int, pos@, norm@, tex_view(*tex));
    }
    Ok(())
}

/// Once a triangle cannot be built, the error stays, and so do the
/// triangles that were built before it.
proof fn lemma_built_fails(
    tris: Seq<RawTriangle>,
    k: int,
    n: int,
    pos: Seq<Vector3<i64>>,
    norm: Seq<Vector3<i64>>,
    tex: Option<Seq<Vector2<i64>>>,
)
    requires
        0 <= k <= n,
        built(tris, k, pos, norm, tex) is Err,
    ensures
        built(tris, n, pos, norm, tex) == built(tris, k, pos, norm, tex),
        built_before(tris, n, pos, norm, tex) == built_before(tris, k, pos, norm, tex),
    decreases n - k,
{
    if k < n {
        lemma_built_fails(tris, k, n - 1, pos, norm, tex);
    }
}

/// As long as every triangle can be built, the triangles before the first
/// that cannot are all of them.
proof fn lemma_built_before(
    tris: Seq<RawTriangle>,
    k: int,
    pos: Seq<Vector3<i64>>,
    norm: Seq<Vector3<i64>>,
    tex: Option<Seq<Vector2<i64>>>,
)
    requires
        built(tris, k, pos, norm, tex) is Ok,
    ensures
        built_before(tris, k, pos, norm, tex) == built(tris, k, pos, norm, tex).unwrap(),
    decreases k,
{
    if k > 0 {
        lemma_built_before(tris, k - 1, pos, norm, tex);
    }
}

/// Once a line cannot be read, the error stays.
proof fn lemma_tables_fail(lines: Seq<Seq<u8>>, k: int, n: int, scale: u32)
    requires
        0 <= k <= n,
        tables_of(lines, k, scale) is Err,
    ensures
        tables_of(lines, n, scale) == tables_of(lines, k, scale),
    decreases n - k,
{
    if k < n {
        lemma_tables_fail(lines, k, n - 1, scale);
    }
}

/// The mesh that the lines of a file describe, on a lattice of `scale`
/// steps to the unit: the tables are filled line by line, then the
/// triangles of the faces are looked up in them.
pub open spec fn mesh_of(lines: Seq<Seq<u8>>, scale: u32) -> Result<Seq<Triangle>, FileError> {
    match tables_of(lines, lines.len() as int, scale) {
        Err(e) => Err(e),
        Ok(t) => match built(t.tris, t.tris.len() as int, t.pos, t.normals, t.tex) {
            Ok(s) => Ok(s),
            Err(e) => Err(
                FileError::Mesh {
                    face: built_before(t.tris, t.tris.len() as int, t.pos, t.normals, t.tex).len() as usize,
                    error: e,
                },
            ),
        },
    }
}

/// Where a file cannot be read because of a line, that line is the first
/// that cannot be read, and the error is its own.
pub proof fn lemma_first_bad_line(lines: Seq<Seq<u8>>, scale: u32, n: int)
    requires
        0 <= n <= lines.len() <= usize::MAX,
    ensures
        match tables_of(lines, n, scale) {
            Err(FileError::Line { line, error }) => {
                &&& line < n
                &&& line_of(lines[line as int], scale) == Err::<LineType, ParseError>(error)
                &&& forall|j: int| 0 <= j < line ==> (#[trigger] line_of(lines[j], scale)) is Ok
            },
            Err(FileError::Mesh { .. }) => false,
            Ok(_) => forall|j: int| 0 <= j < n ==> (#[trigger] line_of(lines[j], scale)) is Ok,
        },
    decreases n,
{
    if n > 0 {
        lemma_first_bad_line(lines, scale, n - 1);
    }
}

/// Makes a mesh from the lines of a file. Where a line cannot be read,
/// the error names the line by its rank; where a face cannot be built, the
/// error names the face by its rank among the faces.
pub fn open_obj(lines: &[Vec<u8>], scale: u32) -> (r: Result<Mesh, FileError>)
    ensures
        match mesh_of(views(lines@), scale) {
            Ok(s) => r is Ok && r->Ok_0.triangles@ == s,
            Err(e) => r is Err && r->Err_0 == e,
        },
{
    let mut tris: Vec<RawTriangle> = Vec::new();
    let mut pos: Vec<Vector3<i64>> = Vec::new();
    let mut normals: Vec<Vector3<i64>> = Vec::new();
    let mut tex: Option<Vec<Vector2<i64>>> = None;
    let ghost all = views(lines@);

    let mut i: usize = 0;
    while i < lines.len()
        invariant
            i <= lines@.len(),
            all == views(lines@),
            tables_of(all, i as int, scale) == Ok::<Tables, FileError>(
                Tables { pos: pos@, normals: normals@, tex: tex_view(tex), tris: tris@ },
            ),
        decreases lines@.len() - i,
    {
        proof {
            assert(all[i as int] == lines@[i as int]@);
        }
        let parsed_line = match parse_line(lines[i].as_slice(), scale) {
            Ok(t) => t,
            Err(e) => {
                proof {
                    lemma_tables_fail(all, i + 1, all.len() as int, scale);
                }
                return Err(FileError::Line { line: i, error: e });
            },
        };
        // The tables are filled line by line.
        match parsed_line {
            LineType::Ignore => {},
            LineType::Face(p, n, t) => {
                let (t0, t1, t2) = propagate_option(t);
                tris.push(
                    RawTriangle(
                        RawPoint(p.0 as usize, n.0 as usize, t0),
                        RawPoint(p.1 as usize, n.1 as usize, t1),
                        RawPoint(p.2 as usize, n.2 as usize, t2),
                    ),
                );
            },
            LineType::Normal(x, y, z) => {
                normals.push(Vector3::new(x, y, z));
            },
            LineType::Vertex(x, y, z) => {
                pos.push(Vector3::new(x, y, z));
            },
            LineType::TexCoord(u, v) => {
                tex = match tex {
                    Some(mut vec) => {
                        vec.push(Vector2::new(u, v));
                        Some(vec)
                    },
                    None => {
                        let mut vec = Vec::new();
                        vec.push(Vector2::new(u, v));
                        proof {
                            assert(vec@ =~= seq![Vector2 { x: u, y: v }]);
                        }
                        Some(vec)
                    },
                };
            },
        }
        i = i + 1;
    }
    let mut mesh = Mesh::new_empty();
    match add_triangles(&mut mesh, tris.as_slice(), pos.as_slice(), normals.as_slice(), &tex) {
        Ok(()) => {
            proof {
                let t = tables_of(all, all.len() as int, scale).unwrap();
                let s = built(t.tris, t.tris.len() as int, t.pos, t.normals, t.tex).unwrap();
                assert(Seq::<Triangle>::empty() + s =~= s);
            }
            Ok(mesh)
        },
        Err(e) => Err(FileError::Mesh { face: mesh.triangles.len(), error: e }),
    }
}

} // verus!
