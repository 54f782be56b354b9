use crate::math::fixed::Fixed;
use crate::math::vector::Vec3f;
use crate::math::vector::Vec4f;
use crate::math::vector::Vector;
use vstd::prelude::*;
use vstd::slice::slice_subrange;
use vstd::string::StrSliceExecFns;
use vstd::string::StringExecFns;

verus! {

/// The error of `std::io`; nothing is known of it here.
#[verifier::external_type_specification]
#[verifier::external_body]
pub struct ExIoError(std::io::Error);

/// Why a mesh description was not read.
#[derive(Debug)]
pub enum ObjParseError {
    /// A number is missing or is not spelled as one.
    BadFloat,
    /// An index is missing or is not spelled as one.
    BadIndex,
    /// A vertex has the first number of components where the second is
    /// asked for.
    BadVertexComponentCount(u8, u8),
    /// The description could not be read to its end.
    Io(std::io::Error),
}

/// An index into one of a mesh's lists, counted from one.
pub type Idx = u32;

/// One corner of a face: its vertex, and where given its texture coordinate
/// and its normal.
#[derive(Debug, Clone, Copy, PartialEq, Eq)]
pub struct FaceInd {
    pub v: Idx,
    pub vt: Option<Idx>,
    pub vn: Option<Idx>,
}

/// A face of a mesh: a triangle, or a polygon of any other number of
/// corners.
#[derive(Debug, Clone, PartialEq, Eq)]
pub enum Face {
    Tri([FaceInd; 3]),
    Poly(Vec<FaceInd>),
}

/// A line element of a mesh: one segment, or a chain of any other number of
/// vertices.
#[derive(Debug, Clone, PartialEq, Eq)]
pub enum Line {
    Seg { start: Idx, end: Idx },
    Multi(Vec<Idx>),
}

/// A mesh: its vertices in homogeneous coordinates and the faces and lines
/// that index them, with the texture coordinates, normals and parameter
/// vertices that came with them.
#[derive(Debug, Clone)]
pub struct ObjData {
    pub vertices: Vec<Vec4f>,
    pub texture_coordinates: Vec<Vec3f>,
    pub vertex_normals: Vec<Vec3f>,
    pub param_vertices: Vec<Vec3f>,
    pub faces: Vec<Face>,
    pub lines: Vec<Line>,
}

impl ObjData {
    /// Whether every face is a triangle.
    pub open spec fn triangulated(&self) -> bool {
        forall|k: int| 0 <= k < self.faces.len() ==> #[trigger] self.faces[k] is Tri
    }

    /// The `i`-th corner of the `k`-th face, where that is a triangle.
    pub open spec fn corner(&self, k: int, i: int) -> FaceInd {
        self.faces[k]->Tri_0[i]
    }

    /// Whether every corner of every triangle names a vertex of the mesh.
    pub open spec fn indexed(&self) -> bool {
        forall|k: int, i: int|
            0 <= k < self.faces.len() && 0 <= i < 3 && self.faces[k] is Tri ==> 1 <= (
            #[trigger] self.corner(k, i)).v <= self.vertices.len()
    }

    /// An empty mesh.
    pub fn new() -> (d: ObjData)
        ensures
            d.vertices@.len() == 0,
            d.texture_coordinates@.len() == 0,
            d.vertex_normals@.len() == 0,
            d.param_vertices@.len() == 0,
            d.faces@.len() == 0,
            d.lines@.len() == 0,
    {
        ObjData {
            vertices: Vec::new(),
            texture_coordinates: Vec::new(),
            vertex_normals: Vec::new(),
            param_vertices: Vec::new(),
            faces: Vec::new(),
            lines: Vec::new(),
        }
    }
}

/// One field of a line of a mesh description: its text, and the number it
/// spells where it spells one.
#[derive(Debug, Clone)]
pub struct Token {
    pub text: String,
    pub number: Option<Fixed>,
}

/// The texts of a run of strings.
pub open spec fn texts(v: Seq<String>) -> Seq<Seq<char>> {
    Seq::new(v.len(), |i: int| v[i]@)
}

/// The fields that `str::split_whitespace` finds in a text.
pub uninterp spec fn whitespace_fields(s: Seq<char>) -> Seq<Seq<char>>;

/// The number that a decimal digit stands for.
pub open spec fn digit_value(c: char) -> Option<int> {
    if c == '0' {
        Some(0int)
    } else if c == '1' {
        Some(1int)
    } else if c == '2' {
        Some(2int)
    } else if c == '3' {
        Some(3int)
    } else if c == '4' {
        Some(4int)
    } else if c == '5' {
        Some(5int)
    } else if c == '6' {
        Some(6int)
    } else if c == '7' {
        Some(7int)
    } else if c == '8' {
        Some(8int)
    } else if c == '9' {
        Some(9int)
    } else {
        None
    }
}

/// Whether every character of a text is a decimal digit.
pub open spec fn all_digits(s: Seq<char>) -> bool {
    forall|i: int| 0 <= i < s.len() ==> digit_value(#[trigger] s[i]) is Some
}

/// The number that a text of decimal digits spells; a character that is no
/// digit counts as zero.
pub open spec fn digits_value(s: Seq<char>) -> int
    decreases s.len(),
{
    if s.len() == 0 {
        0
    } else {
        digits_value(s.drop_last()) * 10 + match digit_value(s.last()) {
            Some(d) => d,
            None => 0,
        }
    }
}

/// The index that a text spells, where it spells one: decimal digits, at
/// least one, after a plus sign or none, and a number that is at most the
/// greatest of a `u32`.
pub open spec fn parsed_index(s: Seq<char>) -> Option<u32> {
    let digits = if s.len() > 0 && s[0] == '+' { s.skip(1) } else { s };
    if digits.len() > 0 && all_digits(digits) && digits_value(digits) <= u32::MAX {
        Some(digits_value(digits) as u32)
    } else {
        None
    }
}

/// A text spells no less than any of its beginnings.
pub proof fn lemma_digits_value_grows(s: Seq<char>, k: int)
    requires
        0 <= k <= s.len(),
    ensures
        0 <= digits_value(s.take(k)) <= digits_value(s),
    decreases s.len(),
{
    if k == s.len() {
        assert(s.take(k) =~= s);
        if s.len() > 0 {
            lemma_digits_value_grows(s.drop_last(), 0);
            lemma_digits_value_grows(s.drop_last(), k - 1);
        }
    } else {
        lemma_digits_value_grows(s.drop_last(), k);
        assert(s.drop_last().take(k) =~= s.take(k));
    }
}

/// The parts of a text between its slashes: one more than it has slashes,
/// each without a slash, empty where two slashes meet or the text starts or
/// ends with one.
pub open spec fn slash_fields(s: Seq<char>) -> Seq<Seq<char>>
    decreases s.len(),
{
    if s.len() == 0 {
        seq![Seq::<char>::empty()]
    } else {
        let rest = slash_fields(s.skip(1));
        if s[0] == '/' {
            seq![Seq::<char>::empty()] + rest
        } else {
            rest.update(0, seq![s[0]] + rest[0])
        }
    }
}

/// Calls `str::split_whitespace` and collects what it yields. The fields are
/// named, not described: they are the substrings between runs of white
/// space as std defines it.
#[verifier::external_body]
fn split_whitespace(s: &str) -> (r: Vec<String>)
    ensures
        texts(r@) == whitespace_fields(s@),
{
    s.split_whitespace().map(String::from).collect()
}

/// A text without a slash is its own and only part.
pub proof fn lemma_no_slash(t: Seq<char>)
    requires
        forall|j: int| 0 <= j < t.len() ==> t[j] != '/',
    ensures
        slash_fields(t) == seq![t],
    decreases t.len(),
{
    if t.len() == 0 {
        assert(t =~= Seq::<char>::empty());
    } else {
        let rest = t.skip(1);
        assert forall|j: int| 0 <= j < rest.len() implies rest[j] != '/' by {
            assert(rest[j] == t[j + 1]);
        }
        lemma_no_slash(rest);
        assert(seq![t[0]] + rest =~= t);
        assert(seq![rest].update(0, seq![t[0]] + rest) =~= seq![t]);
    }
}

/// The parts of a text whose first slash stands at `k`: what stands before
/// it, then the parts of what follows it.
pub proof fn lemma_first_slash(t: Seq<char>, k: int)
    requires
        0 <= k < t.len(),
        t[k] == '/',
        forall|j: int| 0 <= j < k ==> t[j] != '/',
    ensures
        slash_fields(t) == seq![t.take(k)] + slash_fields(t.skip(k + 1)),
    decreases k,
{
    let rest = t.skip(1);
    if k == 0 {
        assert(t.take(0) =~= Seq::<char>::empty());
    } else {
        assert forall|j: int| 0 <= j < k - 1 implies rest[j] != '/' by {
            assert(rest[j] == t[j + 1]);
        }
        lemma_first_slash(rest, k - 1);
        lemma_slash_fields_len(rest.skip(k));
        assert(rest.skip(k) =~= t.skip(k + 1));
        assert(seq![t[0]] + rest.take(k - 1) =~= t.take(k));
        let tail = slash_fields(t.skip(k + 1));
        assert((seq![rest.take(k - 1)] + tail).update(0, seq![t[0]] + rest.take(k - 1)) =~= seq![
            t.take(k),
        ] + tail);
    }
}

/// The parts of a text between its slashes, in order, empty parts included.
fn split_slash(s: &str) -> (r: Vec<String>)
    ensures
        texts(r@) == slash_fields(s@),
{
    let n: usize = s.unicode_len();
    let mut parts: Vec<String> = Vec::new();
    let mut start: usize = 0;
    let mut i: usize = 0;
    assert(s@.skip(0) =~= s@);
    assert(texts(parts@) + slash_fields(s@) =~= slash_fields(s@));
    while i < n
        invariant
            start <= i <= n,
            n == s@.len(),
            forall|j: int| start <= j < i ==> s@[j] != '/',
            slash_fields(s@) == texts(parts@) + slash_fields(s@.skip(start as int)),
        decreases n - i,
    {
        if s.get_char(i) == '/' {
            let part: String = String::from_str(s.substring_char(start, i));
            proof {
                let t = s@.skip(start as int);
                assert forall|j: int| 0 <= j < i - start implies t[j] != '/' by {
                    assert(t[j] == s@[start + j]);
                }
                lemma_first_slash(t, i - start);
                assert(t.take(i - start) =~= s@.subrange(start as int, i as int));
                assert(t.skip(i - start + 1) =~= s@.skip(i + 1));
                assert(texts(parts@.push(part)) =~= texts(parts@) + seq![part@]);
            }
            parts.push(part);
            start = i + 1;
        }
        i += 1;
    }
    let last: String = String::from_str(s.substring_char(start, n));
    proof {
        let t = s@.skip(start as int);
        assert forall|j: int| 0 <= j < t.len() implies t[j] != '/' by {
            assert(t[j] == s@[start + j]);
        }
        lemma_no_slash(t);
        assert(t =~= s@.subrange(start as int, n as int));
        assert(texts(parts@.push(last)) =~= texts(parts@) + seq![last@]);
    }
    parts.push(last);
    parts
}

/// The number that a decimal digit stands for.
fn digit_of(c: char) -> (r: Option<u64>)
    ensures
        r matches Some(d) ==> digit_value(c) == Some(d as int),
        r is None ==> digit_value(c) is None,
{
    if c == '0' {
        Some(0)
    } else if c == '1' {
        Some(1)
    } else if c == '2' {
        Some(2)
    } else if c == '3' {
        Some(3)
    } else if c == '4' {
        Some(4)
    } else if c == '5' {
        Some(5)
    } else if c == '6' {
        Some(6)
    } else if c == '7' {
        Some(7)
    } else if c == '8' {
        Some(8)
    } else if c == '9' {
        Some(9)
    } else {
        None
    }
}

/// The index that a text spells, where it spells one.
pub fn parse_index(s: &str) -> (r: Option<u32>)
    ensures
        r == parsed_index(s@),
{
    let n: usize = s.unicode_len();
    if n == 0 {
        return None;
    }
    let start: usize = if s.get_char(0) == '+' { 1 } else { 0 };
    if start == n {
        return None;
    }
    let ghost digits = s@.skip(start as int);
    assert(digits.take(0) =~= Seq::<char>::empty());
    let mut value: u64 = 0;
    let mut i: usize = start;
    while i < n
        invariant
            start <= i <= n,
            n == s@.len(),
            start < n,
            start == (if s@[0] == '+' { 1int } else { 0int }),
            digits == s@.skip(start as int),
            all_digits(digits.take(i - start)),
            value == digits_value(digits.take(i - start)),
            value <= u32::MAX,
        decreases n - i,
    {
        let ghost k: int = i - start;
        assert(digits[k] == s@[i as int]);
        let d: u64 = match digit_of(s.get_char(i)) {
            Some(d) => d,
            None => {
                assert(!all_digits(digits));
                assert(digits =~= (if s@.len() > 0 && s@[0] == '+' { s@.skip(1) } else { s@ }));
                return None;
            },
        };
        proof {
            assert(digits.take(k + 1).drop_last() =~= digits.take(k));
            assert(digits.take(k + 1).last() == digits[k]);
            assert forall|j: int| 0 <= j < k + 1 implies digit_value(
                #[trigger] digits.take(k + 1)[j],
            ) is Some by {
                if j < k {
                    assert(digits.take(k + 1)[j] == digits.take(k)[j]);
                }
            }
        }
        value = value * 10 + d;
        if value > 4294967295 {
            proof {
                lemma_digits_value_grows(digits, k + 1);
                assert(digits =~= (if s@.len() > 0 && s@[0] == '+' { s@.skip(1) } else { s@ }));
            }
            return None;
        }
        i += 1;
    }
    assert(digits.take(n - start) =~= digits);
    assert(digits =~= (if s@.len() > 0 && s@[0] == '+' { s@.skip(1) } else { s@ }));
    Some(value as u32)
}

/// A line without its comment: what stands before the first `#`.
pub open spec fn before_comment(s: Seq<char>) -> Seq<char>
    decreases s.len(),
{
    if s.len() == 0 || s[0] == '#' {
        Seq::<char>::empty()
    } else {
        seq![s[0]] + before_comment(s.skip(1))
    }
}

/// A text up to and without its first `#`.
pub fn strip_comment(line: &str) -> (r: &str)
    ensures
        r@ == before_comment(line@),
{
    let n: usize = line.unicode_len();
    let mut i: usize = 0;
    while i < n
        invariant
            i <= n,
            n == line@.len(),
            forall|j: int| 0 <= j < i ==> line@[j] != '#',
        decreases n - i,
    {
        if line.get_char(i) == '#' {
            proof {
                lemma_before_comment(line@, i as int);
            }
            return line.substring_char(0, i);
        }
        i += 1;
    }
    proof {
        lemma_before_comment(line@, n as int);
    }
    line.substring_char(0, n)
}

/// Where the first `#` stands at `i`, or `i` is the length of a text without
/// one, what stands before the comment is the first `i` characters.
pub proof fn lemma_before_comment(s: Seq<char>, i: int)
    requires
        0 <= i <= s.len(),
        forall|j: int| 0 <= j < i ==> s[j] != '#',
        i < s.len() ==> s[i] == '#',
    ensures
        before_comment(s) == s.subrange(0, i),
    decreases i,
{
    if i == 0 {
        assert(s.subrange(0, 0) =~= Seq::<char>::empty());
    } else {
        let t = s.skip(1);
        assert forall|j: int| 0 <= j < i - 1 implies t[j] != '#' by {
            assert(t[j] == s[j + 1]);
        }
        lemma_before_comment(t, i - 1);
        assert(seq![s[0]] + t.subrange(0, i - 1) =~= s.subrange(0, i));
    }
}

/// The fields of a line of a mesh description: what white space separates,
/// up to the first `#`.
pub fn fields_of(line: &str) -> (r: Vec<String>)
    ensures
        texts(r@) == whitespace_fields(before_comment(line@)),
{
    split_whitespace(strip_comment(line))
}

/// The corner that parsed indices make. `v` is what the first part of a
/// field spells; `vt` and `vn` are what the second and third part spell, where
/// the field has them. There is no corner where a part that the field has
/// spells no index.
pub open spec fn corner_of(v: Option<Idx>, vt: Option<Option<Idx>>, vn: Option<Option<Idx>>) -> Option<
    FaceInd,
> {
    if v is None || vt == Some(None::<Idx>) || vn == Some(None::<Idx>) {
        None
    } else {
        Some(
            FaceInd {
                v: v.unwrap(),
                vt: match vt {
                    Some(i) => i,
                    None => None,
                },
                vn: match vn {
                    Some(i) => i,
                    None => None,
                },
            },
        )
    }
}

/// The corner that one field of a face spells: a vertex index, then after
/// slashes a texture index and a normal index where they are given. `None`
/// where one of them is not an index; an empty part between two slashes is
/// none. Parts after the third are not looked at.
pub open spec fn face_ind_of(tok: Seq<char>) -> Option<FaceInd> {
    let f = slash_fields(tok);
    corner_of(
        parsed_index(f[0]),
        if f.len() > 1 { Some(parsed_index(f[1])) } else { None },
        if f.len() > 2 { Some(parsed_index(f[2])) } else { None },
    )
}

/// Whether a face has the shape that its number of corners asks for: a
/// triangle if and only if it has three.
pub open spec fn face_shaped(f: Face) -> bool {
    f is Tri <==> face_inds(f).len() == 3
}

/// Whether a line element has the shape that its number of vertices asks
/// for: a segment if and only if it has two.
pub open spec fn line_shaped(l: Line) -> bool {
    l is Seg <==> line_inds(l).len() == 2
}

/// The corners of a face.
pub open spec fn face_inds(f: Face) -> Seq<FaceInd> {
    match f {
        Face::Tri(a) => a@,
        Face::Poly(v) => v@,
    }
}

/// The vertices of a line element.
pub open spec fn line_inds(l: Line) -> Seq<Idx> {
    match l {
        Line::Seg { start, end } => seq![start, end],
        Line::Multi(v) => v@,
    }
}

/// Every slash-separated text has a first part.
pub proof fn lemma_slash_fields_len(s: Seq<char>)
    ensures
        slash_fields(s).len() >= 1,
    decreases s.len(),
{
    if s.len() > 0 {
        lemma_slash_fields_len(s.skip(1));
    }
}

/// The corner that parsed indices make: the vertex, and the texture
/// coordinate and the normal where the field has a part for them. `None`
/// where a part that the field has spells no index.
pub fn face_ind_from(v: Option<Idx>, vt: Option<Option<Idx>>, vn: Option<Option<Idx>>) -> (r: Option<
    FaceInd,
>)
    ensures
        r == corner_of(v, vt, vn),
{
    let v: Idx = match v {
        Some(v) => v,
        None => {
            return None;
        },
    };
    let vt: Option<Idx> = match vt {
        Some(Some(i)) => Some(i),
        Some(None) => {
            return None;
        },
        None => None,
    };
    let vn: Option<Idx> = match vn {
        Some(Some(i)) => Some(i),
        Some(None) => {
            return None;
        },
        None => None,
    };
    Some(FaceInd { v, vt, vn })
}

/// The face of the given corners: a triangle for three of them, a polygon
/// for any other number.
pub fn face_from_corners(fs: Vec<FaceInd>) -> (f: Face)
    ensures
        f is Tri <==> fs@.len() == 3,
        face_inds(f) == fs@,
{
    if fs.len() == 3 {
        let f = Face::Tri([fs[0], fs[1], fs[2]]);
        assert(face_inds(f) =~= fs@);
        f
    } else {
        Face::Poly(fs)
    }
}

/// The line element of the given vertices: a segment for two of them, a
/// chain for any other number.
pub fn line_from_indices(v: Vec<Idx>) -> (l: Line)
    ensures
        l is Seg <==> v@.len() == 2,
        line_inds(l) == v@,
{
    if v.len() == 2 {
        let l = Line::Seg { start: v[0], end: v[1] };
        assert(line_inds(l) =~= v@);
        l
    } else {
        Line::Multi(v)
    }
}

/// The corner that one field of a face spells.
fn get_face_ind(tok: &str) -> (r: Option<FaceInd>)
    ensures
        r == face_ind_of(tok@),
{
    let parts: Vec<String> = split_slash(tok);
    proof {
        lemma_slash_fields_len(tok@);
        assert(texts(parts@).len() == parts@.len());
        assert forall|i: int| 0 <= i < parts@.len() implies parts@[i]@ == slash_fields(tok@)[i] by {
            assert(texts(parts@)[i] == parts@[i]@);
        }
    }
    let v: Option<Idx> = parse_index(parts[0].as_str());
    let vt: Option<Option<Idx>> = if parts.len() > 1 {
        Some(parse_index(parts[1].as_str()))
    } else {
        None
    };
    let vn: Option<Option<Idx>> = if parts.len() > 2 {
        Some(parse_index(parts[2].as_str()))
    } else {
        None
    };
    face_ind_from(v, vt, vn)
}

/// The face that the fields after an `f` spell: a triangle for three
/// corners, a polygon for any other number.
pub fn get_face(a: &[Token]) -> (r: Result<Face, ObjParseError>)
    ensures
        r is Ok <==> forall|i: int| 0 <= i < a@.len() ==> face_ind_of(#[trigger] a@[i].text@) is Some,
        r matches Err(e) ==> e is BadIndex,
        r matches Ok(f) ==> {
            &&& f is Tri <==> a@.len() == 3
            &&& face_inds(f).len() == a@.len()
            &&& forall|i: int|
                0 <= i < a@.len() ==> Some(#[trigger] face_inds(f)[i]) == face_ind_of(a@[i].text@)
        },
{
    let mut fs: Vec<FaceInd> = Vec::new();
    let mut i: usize = 0;
    while i < a.len()
        invariant
            i <= a@.len(),
            fs@.len() == i,
            forall|j: int| 0 <= j < i ==> Some(#[trigger] fs@[j]) == face_ind_of(a@[j].text@),
        decreases a@.len() - i,
    {
        match get_face_ind(a[i].text.as_str()) {
            Some(ind) => {
                fs.push(ind);
            },
            None => {
                return Err(ObjParseError::BadIndex);
            },
        }
        i += 1;
    }
    assert forall|j: int| 0 <= j < a@.len() implies face_ind_of(#[trigger] a@[j].text@) is Some by {
        assert(Some(fs@[j]) == face_ind_of(a@[j].text@));
    }
    Ok(face_from_corners(fs))
}

/// The line element that the fields after an `l` spell: a segment for two
/// vertices, a chain for any other number.
pub fn get_line(a: &[Token]) -> (r: Result<Line, ObjParseError>)
    ensures
        r is Ok <==> forall|i: int| 0 <= i < a@.len() ==> parsed_index(#[trigger] a@[i].text@) is Some,
        r matches Err(e) ==> e is BadIndex,
        r matches Ok(l) ==> {
            &&& l is Seg <==> a@.len() == 2
            &&& line_inds(l).len() == a@.len()
            &&& forall|i: int|
                0 <= i < a@.len() ==> Some(#[trigger] line_inds(l)[i]) == parsed_index(a@[i].text@)
        },
{
    let mut v: Vec<u32> = Vec::new();
    let mut i: usize = 0;
    while i < a.len()
        invariant
            i <= a@.len(),
            v@.len() == i,
            forall|j: int| 0 <= j < i ==> Some(#[trigger] v@[j]) == parsed_index(a@[j].text@),
        decreases a@.len() - i,
    {
        match parse_index(a[i].text.as_str()) {
            Some(index) => {
                v.push(index);
            },
            None => {
                return Err(ObjParseError::BadIndex);
            },
        }
        i += 1;
    }
    assert forall|j: int| 0 <= j < a@.len() implies parsed_index(#[trigger] a@[j].text@) is Some by {
        assert(Some(v@[j]) == parsed_index(a@[j].text@));
    }
    Ok(line_from_indices(v))
}

/// How many of the fields are read as components when at most `most` are.
pub open spec fn taken(a: Seq<Token>, most: int) -> int {
    if a.len() < most {
        a.len() as int
    } else {
        most
    }
}

/// Whether each of the first `n` fields spells a number.
pub open spec fn all_numbers(a: Seq<Token>, n: int) -> bool {
    forall|i: int| 0 <= i < n ==> (#[trigger] a[i]).number is Some
}

/// The `i`-th component: the number of the `i`-th field where that is one
/// of the first `n`, and the default otherwise.
pub open spec fn component(a: Seq<Token>, n: int, i: int, default: Fixed) -> Fixed {
    if i < n {
        a[i].number.unwrap()
    } else {
        default
    }
}

/// The numbers of the first four fields at most, where each of them spells
/// one, with how many they are.
fn take_numbers(a: &[Token], most: usize, defaults: [Fixed; 4]) -> (r: Result<
    ([Fixed; 4], usize),
    ObjParseError,
>)
    requires
        most <= 4,
    ensures
        r is Ok <==> all_numbers(a@, taken(a@, most as int)),
        r matches Err(e) ==> e is BadFloat,
        r matches Ok(t) ==> t.1 == taken(a@, most as int) && forall|i: int|
            0 <= i < 4 ==> #[trigger] t.0[i] == component(a@, t.1 as int, i, defaults[i]),
{
    let mut arr: [Fixed; 4] = defaults;
    let mut i: usize = 0;
    while i < most && i < a.len()
        invariant
            i <= most <= 4,
            i <= a@.len(),
            all_numbers(a@, i as int),
            forall|j: int| 0 <= j < 4 ==> #[trigger] arr[j] == component(a@, i as int, j, defaults[j]),
        decreases most - i,
    {
        match a[i].number {
            Some(v) => {
                arr[i] = v;
            },
            None => {
                return Err(ObjParseError::BadFloat);
            },
        }
        i += 1;
    }
    Ok((arr, i))
}

/// The vertex that the fields after a `v` spell: x, y and z, and w where it
/// is given and one where it is not. Fields after the fourth are not looked
/// at.
pub fn get_vertex(a: &[Token]) -> (r: Result<Vec4f, ObjParseError>)
    ensures
        r is Ok <==> all_numbers(a@, taken(a@, 4)) && a@.len() >= 3,
        r matches Err(e) ==> if all_numbers(a@, taken(a@, 4)) {
            e == ObjParseError::BadVertexComponentCount(a@.len() as u8, 3)
        } else {
            e is BadFloat
        },
        r matches Ok(v) ==> forall|i: int|
            0 <= i < 4 ==> #[trigger] v.0[i] == component(
                a@,
                taken(a@, 4),
                i,
                if i == 3 { Fixed(65536) } else { Fixed(0) },
            ),
{
    let (arr, n) = match take_numbers(a, 4, [Fixed(0), Fixed(0), Fixed(0), Fixed(65536)]) {
        Ok(t) => t,
        Err(e) => {
            return Err(e);
        },
    };
    if n < 3 {
        return Err(ObjParseError::BadVertexComponentCount(n as u8, 3));
    }
    Ok(Vector(arr))
}

/// The texture coordinate that the fields after a `vt` spell: u, and v and
/// w where they are given and zero where they are not. Fields after the
/// third are not looked at.
pub fn get_texture_coordinate(a: &[Token]) -> (r: Result<Vec3f, ObjParseError>)
    ensures
        r is Ok <==> all_numbers(a@, taken(a@, 3)) && a@.len() >= 1,
        r matches Err(e) ==> if all_numbers(a@, taken(a@, 3)) {
            e == ObjParseError::BadVertexComponentCount(0, 1)
        } else {
            e is BadFloat
        },
        r matches Ok(v) ==> forall|i: int|
            0 <= i < 3 ==> #[trigger] v.0[i] == component(a@, taken(a@, 3), i, Fixed(0)),
{
    let (arr, n) = match take_numbers(a, 3, [Fixed(0), Fixed(0), Fixed(0), Fixed(0)]) {
        Ok(t) => t,
        Err(e) => {
            return Err(e);
        },
    };
    if n == 0 {
        return Err(ObjParseError::BadVertexComponentCount(n as u8, 1));
    }
    Ok(Vector([arr[0], arr[1], arr[2]]))
}

/// The normal that the fields after a `vn` spell: exactly x, y and z.
/// Fields after the third are not looked at.
pub fn get_vertex_normal(a: &[Token]) -> (r: Result<Vec3f, ObjParseError>)
    ensures
        r is Ok <==> all_numbers(a@, taken(a@, 3)) && a@.len() >= 3,
        r matches Err(e) ==> if all_numbers(a@, taken(a@, 3)) {
            e == ObjParseError::BadVertexComponentCount(a@.len() as u8, 3)
        } else {
            e is BadFloat
        },
        r matches Ok(v) ==> forall|i: int| 0 <= i < 3 ==> #[trigger] v.0[i] == a@[i].number.unwrap(),
{
    let (arr, n) = match take_numbers(a, 3, [Fixed(0), Fixed(0), Fixed(0), Fixed(0)]) {
        Ok(t) => t,
        Err(e) => {
            return Err(e);
        },
    };
    if n != 3 {
        return Err(ObjParseError::BadVertexComponentCount(n as u8, 3));
    }
    Ok(Vector([arr[0], arr[1], arr[2]]))
}

/// The parameter vertex that the fields after a `vp` spell, read as a
/// texture coordinate is.
pub fn get_param_vertex(a: &[Token]) -> (r: Result<Vec3f, ObjParseError>)
    ensures
        r is Ok <==> all_numbers(a@, taken(a@, 3)) && a@.len() >= 1,
        r matches Err(e) ==> if all_numbers(a@, taken(a@, 3)) {
            e == ObjParseError::BadVertexComponentCount(0, 1)
        } else {
            e is BadFloat
        },
        r matches Ok(v) ==> forall|i: int|
            0 <= i < 3 ==> #[trigger] v.0[i] == component(a@, taken(a@, 3), i, Fixed(0)),
{
    get_texture_coordinate(a)
}

/// What a line of a mesh description adds to the mesh.
pub enum Entry {
    Vertex(Vec4f),
    TextureCoordinate(Vec3f),
    VertexNormal(Vec3f),
    ParamVertex(Vec3f),
    Face(Seq<FaceInd>),
    Line(Seq<Idx>),
    Nothing,
}

/// What is read of four components at most, in the order of the checks: a
/// field that spells no number, then too few fields.
pub open spec fn components_of(a: Seq<Token>, most: int, least: int, defaults: Seq<Fixed>) -> Result<
    Seq<Fixed>,
    ObjParseError,
> {
    let n = taken(a, most);
    if !all_numbers(a, n) {
        Err(ObjParseError::BadFloat)
    } else if n < least {
        Err(ObjParseError::BadVertexComponentCount(n as u8, (if least == 1 { 1u8 } else { 3u8 })))
    } else {
        Ok(Seq::new(defaults.len(), |i: int| component(a, n, i, defaults[i])))
    }
}

/// The corners that the fields of a face spell.
pub open spec fn face_of(a: Seq<Token>) -> Result<Seq<FaceInd>, ObjParseError> {
    if forall|i: int| 0 <= i < a.len() ==> face_ind_of(#[trigger] a[i].text@) is Some {
        Ok(Seq::new(a.len(), |i: int| face_ind_of(a[i].text@).unwrap()))
    } else {
        Err(ObjParseError::BadIndex)
    }
}

/// The vertices that the fields of a line element spell.
pub open spec fn line_of(a: Seq<Token>) -> Result<Seq<Idx>, ObjParseError> {
    if forall|i: int| 0 <= i < a.len() ==> parsed_index(#[trigger] a[i].text@) is Some {
        Ok(Seq::new(a.len(), |i: int| parsed_index(a[i].text@).unwrap()))
    } else {
        Err(ObjParseError::BadIndex)
    }
}

/// The vector of the first three of four components.
pub open spec fn first3(c: Seq<Fixed>) -> Vec3f {
    Vector([c[0], c[1], c[2]])
}

/// What a line adds to the mesh, by its first field: `v` a vertex, `vt` a
/// texture coordinate, `vn` a normal, `vp` a parameter vertex, `f` a face and
/// `l` a line element. Any other line, and an empty one, adds nothing.
pub open spec fn entry_of(line: Seq<Token>) -> Result<Entry, ObjParseError> {
    if line.len() == 0 {
        Ok(Entry::Nothing)
    } else {
        let head = line[0].text@;
        let a = line.skip(1);
        let zeros = seq![Fixed(0), Fixed(0), Fixed(0), Fixed(0)];
        if head == seq!['v'] {
            match components_of(a, 4, 3, seq![Fixed(0), Fixed(0), Fixed(0), Fixed(65536)]) {
                Ok(c) => Ok(Entry::Vertex(Vector([c[0], c[1], c[2], c[3]]))),
                Err(e) => Err(e),
            }
        } else if head == seq!['v', 't'] {
            match components_of(a, 3, 1, zeros) {
                Ok(c) => Ok(Entry::TextureCoordinate(first3(c))),
                Err(e) => Err(e),
            }
        } else if head == seq!['v', 'n'] {
            match components_of(a, 3, 3, zeros) {
                Ok(c) => Ok(Entry::VertexNormal(first3(c))),
                Err(e) => Err(e),
            }
        } else if head == seq!['v', 'p'] {
            match components_of(a, 3, 1, zeros) {
                Ok(c) => Ok(Entry::ParamVertex(first3(c))),
                Err(e) => Err(e),
            }
        } else if head == seq!['f'] {
            match face_of(a) {
                Ok(f) => Ok(Entry::Face(f)),
                Err(e) => Err(e),
            }
        } else if head == seq!['l'] {
            match line_of(a) {
                Ok(l) => Ok(Entry::Line(l)),
                Err(e) => Err(e),
            }
        } else {
            Ok(Entry::Nothing)
        }
    }
}

/// The six lists of a mesh as plain sequences.
pub struct Lists {
    pub vertices: Seq<Vec4f>,
    pub texture_coordinates: Seq<Vec3f>,
    pub vertex_normals: Seq<Vec3f>,
    pub param_vertices: Seq<Vec3f>,
    pub faces: Seq<Seq<FaceInd>>,
    pub lines: Seq<Seq<Idx>>,
}

impl Lists {
    /// The lists with one entry more.
    pub open spec fn with(self, e: Entry) -> Lists {
        match e {
            Entry::Vertex(v) => Lists { vertices: self.vertices.push(v), ..self },
            Entry::TextureCoordinate(v) => Lists {
                texture_coordinates: self.texture_coordinates.push(v),
                ..self
            },
            Entry::VertexNormal(v) => Lists { vertex_normals: self.vertex_normals.push(v), ..self },
            Entry::ParamVertex(v) => Lists { param_vertices: self.param_vertices.push(v), ..self },
            Entry::Face(f) => Lists { faces: self.faces.push(f), ..self },
            Entry::Line(l) => Lists { lines: self.lines.push(l), ..self },
            Entry::Nothing => self,
        }
    }
}

/// The lists that the first `k` lines fill, where each of them can be read.
pub open spec fn collected(lines: Seq<Vec<Token>>, k: int) -> Lists
    decreases k,
{
    if k <= 0 {
        Lists {
            vertices: Seq::empty(),
            texture_coordinates: Seq::empty(),
            vertex_normals: Seq::empty(),
            param_vertices: Seq::empty(),
            faces: Seq::empty(),
            lines: Seq::empty(),
        }
    } else {
        match entry_of(lines[k - 1]@) {
            Ok(e) => collected(lines, k - 1).with(e),
            Err(_) => collected(lines, k - 1),
        }
    }
}

impl ObjData {
    /// The six lists as plain sequences.
    pub open spec fn lists(&self) -> Lists {
        Lists {
            vertices: self.vertices@,
            texture_coordinates: self.texture_coordinates@,
            vertex_normals: self.vertex_normals@,
            param_vertices: self.param_vertices@,
            faces: Seq::new(self.faces@.len(), |i: int| face_inds(self.faces@[i])),
            lines: Seq::new(self.lines@.len(), |i: int| line_inds(self.lines@[i])),
        }
    }

    /// Whether every face and every line element has the shape that its
    /// number of corners or vertices asks for: each face of three corners is
    /// a triangle and no other is, each line element of two vertices is a
    /// segment and no other is.
    pub open spec fn shaped(&self) -> bool {
        &&& forall|k: int| 0 <= k < self.faces@.len() ==> face_shaped(#[trigger] self.faces@[k])
        &&& forall|k: int| 0 <= k < self.lines@.len() ==> line_shaped(#[trigger] self.lines@[k])
    }

    /// Whether the faces and line elements of `self` are those of `before`,
    /// as they were, followed by others that have the shape their number asks
    /// for.
    pub open spec fn extends(&self, before: &ObjData) -> bool {
        &&& before.faces@.len() <= self.faces@.len()
        &&& before.lines@.len() <= self.lines@.len()
        &&& forall|k: int|
            0 <= k < self.faces@.len() ==> if k < before.faces@.len() {
                #[trigger] self.faces@[k] == before.faces@[k]
            } else {
                face_shaped(self.faces@[k])
            }
        &&& forall|k: int|
            0 <= k < self.lines@.len() ==> if k < before.lines@.len() {
                #[trigger] self.lines@[k] == before.lines@[k]
            } else {
                line_shaped(self.lines@[k])
            }
    }
}

/// Whether a text is the given one or two characters.
fn is_word(text: &str, first: char, second: Option<char>) -> (r: bool)
    ensures
        r == (text@ == match second {
            Some(c) => seq![first, c],
            None => seq![first],
        }),
{
    let n: usize = text.unicode_len();
    match second {
        Some(c) => {
            if n == 2 && text.get_char(0) == first && text.get_char(1) == c {
                assert(text@ =~= seq![first, c]);
                true
            } else {
                false
            }
        },
        None => {
            if n == 1 && text.get_char(0) == first {
                assert(text@ =~= seq![first]);
                true
            } else {
                false
            }
        },
    }
}

/// Adds to the mesh what one line of its description spells. A face of
/// three corners is added as a triangle and any other as a polygon; a line
/// element of two vertices is added as a segment and any other as a chain.
pub fn add_line(d: &mut ObjData, line: &[Token]) -> (r: Result<(), ObjParseError>)
    ensures
        final(d).extends(old(d)),
        old(d).shaped() ==> final(d).shaped(),
        match r {
            Ok(()) => entry_of(line@) is Ok && final(d).lists() == old(d).lists().with(
                entry_of(line@)->Ok_0,
            ),
            Err(e) => entry_of(line@) == Err::<Entry, ObjParseError>(e) && *final(d) == *old(d),
        },
{
    if line.len() == 0 {
        return Ok(());
    }
    let head: &str = line[0].text.as_str();
    let a: &[Token] = slice_subrange(line, 1, line.len());
    assert(a@ == line@.skip(1));
    let ghost before = d.lists();
    if is_word(head, 'v', None) {
        let v: Vec4f = match get_vertex(a) {
            Ok(v) => v,
            Err(e) => {
                return Err(e);
            },
        };
        proof {
            let c = components_of(
                a@,
                4,
                3,
                seq![Fixed(0), Fixed(0), Fixed(0), Fixed(65536)],
            )->Ok_0;
            assert(v.0 =~= Vector([c[0], c[1], c[2], c[3]]).0);
        }
        d.vertices.push(v);
        assert(d.lists().faces =~= before.faces);
        assert(d.lists().lines =~= before.lines);
    } else if is_word(head, 'v', Some('t')) {
        let v: Vec3f = match get_texture_coordinate(a) {
            Ok(v) => v,
            Err(e) => {
                return Err(e);
            },
        };
        proof {
            let c = components_of(a@, 3, 1, seq![Fixed(0), Fixed(0), Fixed(0), Fixed(0)])->Ok_0;
            assert(v.0 =~= first3(c).0);
        }
        d.texture_coordinates.push(v);
        assert(d.lists().faces =~= before.faces);
        assert(d.lists().lines =~= before.lines);
    } else if is_word(head, 'v', Some('n')) {
        let v: Vec3f = match get_vertex_normal(a) {
            Ok(v) => v,
            Err(e) => {
                return Err(e);
            },
        };
        proof {
            let c = components_of(a@, 3, 3, seq![Fixed(0), Fixed(0), Fixed(0), Fixed(0)])->Ok_0;
            assert(v.0 =~= first3(c).0);
        }
        d.vertex_normals.push(v);
        assert(d.lists().faces =~= before.faces);
        assert(d.lists().lines =~= before.lines);
    } else if is_word(head, 'v', Some('p')) {
        let v: Vec3f = match get_param_vertex(a) {
            Ok(v) => v,
            Err(e) => {
                return Err(e);
            },
        };
        proof {
            let c = components_of(a@, 3, 1, seq![Fixed(0), Fixed(0), Fixed(0), Fixed(0)])->Ok_0;
            assert(v.0 =~= first3(c).0);
        }
        d.param_vertices.push(v);
        assert(d.lists().faces =~= before.faces);
        assert(d.lists().lines =~= before.lines);
    } else if is_word(head, 'f', None) {
        let f: Face = match get_face(a) {
            Ok(f) => f,
            Err(e) => {
                return Err(e);
            },
        };
        assert(face_inds(f) =~= face_of(a@)->Ok_0);
        d.faces.push(f);
        assert(d.lists().faces =~= before.faces.push(face_inds(f)));
        assert(d.lists().lines =~= before.lines);
    } else if is_word(head, 'l', None) {
        let l: Line = match get_line(a) {
            Ok(l) => l,
            Err(e) => {
                return Err(e);
            },
        };
        assert(line_inds(l) =~= line_of(a@)->Ok_0);
        d.lines.push(l);
        assert(d.lists().lines =~= before.lines.push(line_inds(l)));
        assert(d.lists().faces =~= before.faces);
    }
    Ok(())
}

/// Reads a mesh from the lines of its description, each given by its
/// fields. Every face of three corners is read as a triangle and every other
/// as a polygon; every line element of two vertices is read as a segment and
/// every other as a chain. The first line that cannot be read ends the
/// reading with its error.
pub fn read(lines: &Vec<Vec<Token>>) -> (r: Result<ObjData, ObjParseError>)
    ensures
        match r {
            Ok(d) => d.shaped() && d.lists() == collected(lines@, lines@.len() as int)
                && forall|k: int|
                0 <= k < lines@.len() ==> entry_of(#[trigger] lines@[k]@) is Ok,
            Err(e) => exists|k: int|
                0 <= k < lines@.len() && entry_of(#[trigger] lines@[k]@) == Err::<
                    Entry,
                    ObjParseError,
                >(e) && forall|j: int| 0 <= j < k ==> entry_of(#[trigger] lines@[j]@) is Ok,
        },
{
    let mut d: ObjData = ObjData::new();
    proof {
        let start = collected(lines@, 0);
        assert(d.lists().vertices =~= start.vertices);
        assert(d.lists().texture_coordinates =~= start.texture_coordinates);
        assert(d.lists().vertex_normals =~= start.vertex_normals);
        assert(d.lists().param_vertices =~= start.param_vertices);
        assert(d.lists().faces =~= start.faces);
        assert(d.lists().lines =~= start.lines);
    }
    let mut k: usize = 0;
    while k < lines.len()
        invariant
            k <= lines@.len(),
            d.shaped(),
            d.lists() == collected(lines@, k as int),
            forall|j: int| 0 <= j < k ==> entry_of(#[trigger] lines@[j]@) is Ok,
        decreases lines@.len() - k,
    {
        match add_line(&mut d, lines[k].as_slice()) {
            Ok(()) => {},
            Err(e) => {
                return Err(e);
            },
        }
        k += 1;
    }
    Ok(d)
}

} // verus!
