use vstd::prelude::*;
use crate::name_map::inserted;
use crate::name_map::NameMap;
use crate::obj_parser::ParseError;
use crate::text::chars_of;
use crate::text::cut;
use crate::text::is_number;
use crate::text::is_number_at;
use crate::text::span_is;
use crate::text::split;
use crate::text::split_spans;
use crate::text::string_of;
use crate::text::trim;
use crate::text::trim_span;

verus! {

/// The diffuse colour of a material as its file spells it: the red, green and blue
/// parts of its last `Kd` line, each a word that spells a real number, or nothing
/// if it has no such line.
pub type Diffuse = Option<(String, String, String)>;

/// `Diffuse`, with each string as its sequence of characters.
pub type DiffuseView = Option<(Seq<char>, Seq<char>, Seq<char>)>;

/// How far a material file has been read: the materials that are complete, in the
/// order in which their names first came, and the one that the last `newmtl` line
/// opened, if any.
pub struct Reading {
    pub done: Seq<(Seq<char>, DiffuseView)>,
    pub open: Option<(Seq<char>, DiffuseView)>,
}

/// The name of the open material of a reading.
pub open spec fn open_name(state: Reading) -> Seq<char> {
    match state.open {
        Some(material) => material.0,
        None => Seq::empty(),
    }
}

/// The materials of a reading once the open one is complete too.
pub open spec fn closed(state: Reading) -> Seq<(Seq<char>, DiffuseView)> {
    match state.open {
        Some(material) => inserted(state.done, material),
        None => state.done,
    }
}

/// The reading after one more line, or nothing if the line is malformed.
///
/// The line is trimmed and cut into words at every single space. `newmtl` with a
/// name completes the open material and opens one of that name, without colour.
/// `Kd` with three more words that spell real numbers gives the open material its
/// colour; it is malformed where no material is open. Lines of any other kind
/// change nothing.
pub open spec fn step(state: Reading, line: Seq<char>) -> Option<Reading> {
    let words = split(trim(line), ' ');
    if words[0] == "newmtl"@ {
        if words.len() < 2 {
            None
        } else {
            Some(Reading { done: closed(state), open: Some((words[1], None)) })
        }
    } else if words[0] == "Kd"@ {
        if words.len() < 4 || state.open is None || !is_number(words[1]) || !is_number(words[2])
            || !is_number(words[3]) {
            None
        } else {
            Some(
                Reading {
                    done: state.done,
                    open: Some((open_name(state), Some((words[1], words[2], words[3])))),
                },
            )
        }
    } else {
        Some(state)
    }
}

/// The reading after the first `n` of `lines`, or nothing if one of them is
/// malformed.
pub open spec fn read(lines: Seq<Seq<char>>, n: int) -> Option<Reading>
    decreases n,
{
    if n <= 0 {
        Some(Reading { done: Seq::empty(), open: None })
    } else {
        match read(lines, n - 1) {
            Some(state) => step(state, lines[n - 1]),
            None => None,
        }
    }
}

spec fn open_view(open: Option<(String, Diffuse)>) -> Option<(Seq<char>, DiffuseView)> {
    match open {
        Some(material) => Some((material.0@, material.1.deep_view())),
        None => None,
    }
}

/// Reads a material file line by line. A material defined twice keeps its place
/// and takes its later definition; reading stops at the first malformed line.
pub fn parse(obj: &str) -> (parsed: Result<NameMap<Diffuse>, ParseError>)
    ensures
        match parsed {
            Ok(materials) => {
                &&& read(split(obj@, '\n'), split(obj@, '\n').len() as int) is Some
                &&& materials.listing() == closed(
                    read(split(obj@, '\n'), split(obj@, '\n').len() as int)->0,
                )
            },
            Err(e) => {
                &&& e.line < split(obj@, '\n').len()
                &&& read(split(obj@, '\n'), e.line as int) is Some
                &&& read(split(obj@, '\n'), e.line + 1) is None
            },
        },
{
    let text = chars_of(obj);
    let rows = split_spans(&text, 0, text.len(), '\n');
    let ghost lines = split(obj@, '\n');
    proof {
        assert(text@.subrange(0, text@.len() as int) =~= obj@);
        assert(lines == cut(text@, rows@));
    }
    let mut done: NameMap<Diffuse> = NameMap::new();
    let mut open: Option<(String, Diffuse)> = None;
    let mut i: usize = 0;
    while i < rows.len()
        invariant
            i <= rows@.len(),
            lines == split(obj@, '\n'),
            lines == cut(text@, rows@),
            lines.len() == rows@.len(),
            forall|k: int|
                0 <= k < rows@.len() ==> (#[trigger] rows@[k]).0 <= rows@[k].1 <= text@.len(),
            read(lines, i as int) == Some(Reading { done: done.listing(), open: open_view(open) }),
        decreases rows@.len() - i,
    {
        let row = rows[i];
        let ghost line = text@.subrange(row.0 as int, row.1 as int);
        let ghost state = Reading { done: done.listing(), open: open_view(open) };
        let (a, b) = trim_span(&text, row.0, row.1);
        let spans = split_spans(&text, a, b, ' ');
        let ghost words = split(trim(line), ' ');
        proof {
            assert(lines[i as int] == line);
            assert(words == cut(text@, spans@));
            assert(words.len() == spans@.len());
            assert forall|k: int| 0 <= k < spans@.len() implies words[k] == text@.subrange(
                spans@[k].0 as int,
                spans@[k].1 as int,
            ) by {}
            assert(read(lines, i + 1) == step(state, line));
        }
        let n = spans.len();
        let kind = spans[0];
        if span_is(&text, kind.0, kind.1, "newmtl") {
            if n < 2 {
                return Err(ParseError { line: i });
            }
            match open {
                Some(material) => {
                    done.insert(material.0, material.1);
                },
                None => {},
            }
            open = Some((string_of(&text, spans[1].0, spans[1].1), None));
        } else if span_is(&text, kind.0, kind.1, "Kd") {
            if n < 4 || !is_number_at(&text, spans[1].0, spans[1].1) || !is_number_at(
                &text,
                spans[2].0,
                spans[2].1,
            ) || !is_number_at(&text, spans[3].0, spans[3].1) {
                return Err(ParseError { line: i });
            }
            match open {
                Some(material) => {
                    let red = string_of(&text, spans[1].0, spans[1].1);
                    let green = string_of(&text, spans[2].0, spans[2].1);
                    let blue = string_of(&text, spans[3].0, spans[3].1);
                    open = Some((material.0, Some((red, green, blue))));
                },
                None => {
                    return Err(ParseError { line: i });
                },
            }
        }
        i += 1;
    }
    match open {
        Some(material) => {
            done.insert(material.0, material.1);
        },
        None => {},
    }
    Ok(done)
}

} // verus!
