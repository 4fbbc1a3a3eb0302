use vstd::prelude::*;
use crate::text::chars_of;
use crate::text::cut;
use crate::text::is_number;
use crate::text::is_number_at;
use crate::text::parse_usize;
use crate::text::read_usize;
use crate::text::span_is;
use crate::text::split;
use crate::text::split_spans;
use crate::text::string_of;
use crate::text::trim;
use crate::text::trim_span;

verus! {

/// One corner of a face: the position of its vertex in the list of vertices,
/// counted from zero, and the numbers of its texture coordinate and its normal as
/// the file gives them, where it gives them.
#[derive(Debug, Copy, Clone, PartialEq, Eq, Structural)]
pub struct FaceVertex(pub usize, pub Option<usize>, pub Option<usize>);

/// One line of a Wavefront OBJ file. Coordinates are kept as the file spells them;
/// each is a word that spells a real number.
#[derive(Debug, Clone, PartialEq, Eq)]
pub enum LineType {
    Comment(String),
    Object(String),
    Vertex(String, String, String),
    VertexNormal(String, String, String),
    VertexTexture(String, String),
    Face(FaceVertex, FaceVertex, FaceVertex),
    UseMaterial(String),
    MTLib(String),
    Unknown,
}

/// What a `LineType` holds, with each string as its sequence of characters.
pub enum LineView {
    Comment(Seq<char>),
    Object(Seq<char>),
    Vertex(Seq<char>, Seq<char>, Seq<char>),
    VertexNormal(Seq<char>, Seq<char>, Seq<char>),
    VertexTexture(Seq<char>, Seq<char>),
    Face(FaceVertex, FaceVertex, FaceVertex),
    UseMaterial(Seq<char>),
    MTLib(Seq<char>),
    Unknown,
}

impl View for LineType {
    type V = LineView;

    open spec fn view(&self) -> LineView {
        match self {
            LineType::Comment(a) => LineView::Comment(a@),
            LineType::Object(a) => LineView::Object(a@),
            LineType::Vertex(a, b, c) => LineView::Vertex(a@, b@, c@),
            LineType::VertexNormal(a, b, c) => LineView::VertexNormal(a@, b@, c@),
            LineType::VertexTexture(a, b) => LineView::VertexTexture(a@, b@),
            LineType::Face(a, b, c) => LineView::Face(*a, *b, *c),
            LineType::UseMaterial(a) => LineView::UseMaterial(a@),
            LineType::MTLib(a) => LineView::MTLib(a@),
            LineType::Unknown => LineView::Unknown,
        }
    }
}

/// Where reading a file stopped: the position, counted from zero, of the first
/// line that is malformed.
#[derive(Debug, Copy, Clone, PartialEq, Eq, Structural)]
pub struct ParseError {
    pub line: usize,
}

/// The corner that `segment` describes: three or more numbers separated by
/// slashes, of which the first is the number of a vertex, counted from one, and
/// the second and third may be left out or unreadable. Nothing if there are fewer
/// than three parts or the first is no number from one up.
pub open spec fn face_vertex_of(segment: Seq<char>) -> Option<FaceVertex> {
    let nums = split(trim(segment), '/');
    if nums.len() < 3 {
        None
    } else {
        match parse_usize(nums[0]) {
            Some(v) => if v >= 1 {
                Some(FaceVertex((v - 1) as usize, parse_usize(nums[1]), parse_usize(nums[2])))
            } else {
                None
            },
            None => None,
        }
    }
}

/// The three corners that the second, third and fourth word of `words` describe.
pub open spec fn face_of(words: Seq<Seq<char>>) -> Option<LineView> {
    if words.len() < 4 {
        None
    } else {
        match (face_vertex_of(words[1]), face_vertex_of(words[2]), face_vertex_of(words[3])) {
            (Some(a), Some(b), Some(c)) => Some(LineView::Face(a, b, c)),
            _ => None,
        }
    }
}

/// What `line` says, or nothing if it is malformed.
///
/// The line is trimmed and cut into words at every single space. The first word
/// tells the kind of line; a line of no known kind is `Unknown`. A line of a known
/// kind is malformed if it has fewer words than its kind needs, if it is a vertex,
/// a normal or a texture coordinate with a coordinate that spells no real number,
/// or if it is a face with a corner that `face_vertex_of` does not accept. Words
/// beyond those needed are ignored.
pub open spec fn line_of(line: Seq<char>) -> Option<LineView> {
    let words = split(trim(line), ' ');
    let kind = words[0];
    if kind == "#"@ {
        if words.len() < 2 {
            None
        } else {
            Some(LineView::Comment(words[1]))
        }
    } else if kind == "o"@ {
        if words.len() < 2 {
            None
        } else {
            Some(LineView::Object(words[1]))
        }
    } else if kind == "v"@ {
        if words.len() < 4 || !is_number(words[1]) || !is_number(words[2]) || !is_number(words[3]) {
            None
        } else {
            Some(LineView::Vertex(words[1], words[2], words[3]))
        }
    } else if kind == "vn"@ {
        if words.len() < 4 || !is_number(words[1]) || !is_number(words[2]) || !is_number(words[3]) {
            None
        } else {
            Some(LineView::VertexNormal(words[1], words[2], words[3]))
        }
    } else if kind == "vt"@ {
        if words.len() < 3 || !is_number(words[1]) || !is_number(words[2]) {
            None
        } else {
            Some(LineView::VertexTexture(words[1], words[2]))
        }
    } else if kind == "f"@ {
        face_of(words)
    } else if kind == "usemtl"@ {
        if words.len() < 2 {
            None
        } else {
            Some(LineView::UseMaterial(words[1]))
        }
    } else if kind == "mtllib"@ {
        if words.len() < 2 {
            None
        } else {
            Some(LineView::MTLib(words[1]))
        }
    } else {
        Some(LineView::Unknown)
    }
}

/// Whether `parsed` is what `line_of` reads from `line`.
pub open spec fn reads_as(parsed: Option<LineType>, line: Seq<char>) -> bool {
    match parsed {
        Some(l) => line_of(line) == Some(l@),
        None => line_of(line) is None,
    }
}

fn face_vertex_at(text: &Vec<char>, from: usize, to: usize) -> (corner: Option<FaceVertex>)
    requires
        from <= to <= text@.len(),
    ensures
        corner == face_vertex_of(text@.subrange(from as int, to as int)),
{
    let (a, b) = trim_span(text, from, to);
    let nums = split_spans(text, a, b, '/');
    let ghost parts = split(trim(text@.subrange(from as int, to as int)), '/');
    proof {
        assert(parts == cut(text@, nums@));
        assert(parts.len() == nums@.len());
    }
    if nums.len() < 3 {
        return None;
    }
    proof {
        assert(parts[0] == text@.subrange(nums@[0].0 as int, nums@[0].1 as int));
        assert(parts[1] == text@.subrange(nums@[1].0 as int, nums@[1].1 as int));
        assert(parts[2] == text@.subrange(nums@[2].0 as int, nums@[2].1 as int));
    }
    match read_usize(text, nums[0].0, nums[0].1) {
        Some(v) => {
            if v >= 1 {
                let texture = read_usize(text, nums[1].0, nums[1].1);
                let normal = read_usize(text, nums[2].0, nums[2].1);
                Some(FaceVertex(v - 1, texture, normal))
            } else {
                None
            }
        },
        None => None,
    }
}

fn line_at(text: &Vec<char>, from: usize, to: usize) -> (parsed: Option<LineType>)
    requires
        from <= to <= text@.len(),
    ensures
        reads_as(parsed, text@.subrange(from as int, to as int)),
{
    let (a, b) = trim_span(text, from, to);
    let spans = split_spans(text, a, b, ' ');
    let ghost words = split(trim(text@.subrange(from as int, to as int)), ' ');
    proof {
        assert(words == cut(text@, spans@));
        assert(words.len() == spans@.len());
        assert forall|k: int| 0 <= k < spans@.len() implies words[k] == text@.subrange(
            spans@[k].0 as int,
            spans@[k].1 as int,
        ) by {}
    }
    let n = spans.len();
    let kind = spans[0];
    if span_is(text, kind.0, kind.1, "#") {
        if n < 2 {
            None
        } else {
            Some(LineType::Comment(string_of(text, spans[1].0, spans[1].1)))
        }
    } else if span_is(text, kind.0, kind.1, "o") {
        if n < 2 {
            None
        } else {
            Some(LineType::Object(string_of(text, spans[1].0, spans[1].1)))
        }
    } else if span_is(text, kind.0, kind.1, "v") {
        if n < 4 || !is_number_at(text, spans[1].0, spans[1].1) || !is_number_at(
            text,
            spans[2].0,
            spans[2].1,
        ) || !is_number_at(text, spans[3].0, spans[3].1) {
            None
        } else {
            Some(
                LineType::Vertex(
                    string_of(text, spans[1].0, spans[1].1),
                    string_of(text, spans[2].0, spans[2].1),
                    string_of(text, spans[3].0, spans[3].1),
                ),
            )
        }
    } else if span_is(text, kind.0, kind.1, "vn") {
        if n < 4 || !is_number_at(text, spans[1].0, spans[1].1) || !is_number_at(
            text,
            spans[2].0,
            spans[2].1,
        ) || !is_number_at(text, spans[3].0, spans[3].1) {
            None
        } else {
            Some(
                LineType::VertexNormal(
                    string_of(text, spans[1].0, spans[1].1),
                    string_of(text, spans[2].0, spans[2].1),
                    string_of(text, spans[3].0, spans[3].1),
                ),
            )
        }
    } else if span_is(text, kind.0, kind.1, "vt") {
        if n < 3 || !is_number_at(text, spans[1].0, spans[1].1) || !is_number_at(
            text,
            spans[2].0,
            spans[2].1,
        ) {
            None
        } else {
            Some(
                LineType::VertexTexture(
                    string_of(text, spans[1].0, spans[1].1),
                    string_of(text, spans[2].0, spans[2].1),
                ),
            )
        }
    } else if span_is(text, kind.0, kind.1, "f") {
        if n < 4 {
            None
        } else {
            let first = face_vertex_at(text, spans[1].0, spans[1].1);
            let second = face_vertex_at(text, spans[2].0, spans[2].1);
            let third = face_vertex_at(text, spans[3].0, spans[3].1);
            match (first, second, third) {
                (Some(x), Some(y), Some(z)) => Some(LineType::Face(x, y, z)),
                _ => None,
            }
        }
    } else if span_is(text, kind.0, kind.1, "usemtl") {
        if n < 2 {
            None
        } else {
            Some(LineType::UseMaterial(string_of(text, spans[1].0, spans[1].1)))
        }
    } else if span_is(text, kind.0, kind.1, "mtllib") {
        if n < 2 {
            None
        } else {
            Some(LineType::MTLib(string_of(text, spans[1].0, spans[1].1)))
        }
    } else {
        Some(LineType::Unknown)
    }
}

/// Reads one corner of a face.
pub fn parse_face_vertex(segment: &str) -> (corner: Option<FaceVertex>)
    ensures
        corner == face_vertex_of(segment@),
{
    let text = chars_of(segment);
    proof {
        assert(text@.subrange(0, text@.len() as int) =~= segment@);
    }
    face_vertex_at(&text, 0, text.len())
}

/// Reads one line of an OBJ file.
pub fn parse_line(line: &str) -> (parsed: Option<LineType>)
    ensures
        reads_as(parsed, line@),
{
    let text = chars_of(line);
    proof {
        assert(text@.subrange(0, text@.len() as int) =~= line@);
    }
    line_at(&text, 0, text.len())
}

/// Reads an OBJ file line by line. The result has one entry for each line of the
/// file, in order, the empty line after a final line break included; reading stops
/// at the first malformed line.
pub fn parse(obj: &str) -> (parsed: Result<Vec<LineType>, ParseError>)
    ensures
        match parsed {
            Ok(lines) => {
                &&& lines@.len() == split(obj@, '\n').len()
                &&& forall|i: int|
                    0 <= i < lines@.len() ==> line_of(#[trigger] split(obj@, '\n')[i]) == Some(
                        lines@[i]@,
                    )
            },
            Err(e) => {
                &&& e.line < split(obj@, '\n').len()
                &&& line_of(split(obj@, '\n')[e.line as int]) is None
                &&& forall|i: int|
                    0 <= i < e.line ==> line_of(#[trigger] split(obj@, '\n')[i]) is Some
            },
        },
{
    let text = chars_of(obj);
    let spans = split_spans(&text, 0, text.len(), '\n');
    let ghost rows = split(obj@, '\n');
    proof {
        assert(text@.subrange(0, text@.len() as int) =~= obj@);
        assert(rows == cut(text@, spans@));
    }
    let mut lines: Vec<LineType> = Vec::new();
    let mut i: usize = 0;
    while i < spans.len()
        invariant
            i <= spans@.len(),
            rows == split(obj@, '\n'),
            rows == cut(text@, spans@),
            rows.len() == spans@.len(),
            forall|k: int|
                0 <= k < spans@.len() ==> (#[trigger] spans@[k]).0 <= spans@[k].1 <= text@.len(),
            lines@.len() == i,
            forall|k: int| 0 <= k < i ==> line_of(#[trigger] rows[k]) == Some(lines@[k]@),
        decreases spans@.len() - i,
    {
        let span = spans[i];
        proof {
            assert(rows[i as int] == text@.subrange(span.0 as int, span.1 as int));
        }
        match line_at(&text, span.0, span.1) {
            Some(line) => {
                lines.push(line);
            },
            None => {
                return Err(ParseError { line: i });
            },
        }
        i += 1;
    }
    Ok(lines)
}

} // verus!
