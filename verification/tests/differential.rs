use std::collections::HashMap;

use raytracer::mtl_parser::Diffuse;
use raytracer::obj_parser::parse_face_vertex;
use raytracer::obj_parser::parse_line;
use raytracer::obj_parser::FaceVertex;
use raytracer::obj_parser::LineType;

/// A corner as the standard library reads it.
fn corner_by_std(segment: &str) -> Option<FaceVertex> {
    let nums: Vec<&str> = segment.trim().split("/").collect();
    let vertex = nums.get(0)?.parse::<usize>().ok()?;
    let texture = nums.get(1)?.parse::<usize>().ok();
    let normal = nums.get(2)?.parse::<usize>().ok();
    Some(FaceVertex(vertex.checked_sub(1)?, texture, normal))
}

fn number_by_std(word: &str) -> Option<String> {
    word.parse::<f32>().ok().map(|_| String::from(word))
}

/// A line as the standard library reads it.
fn line_by_std(line: &str) -> Option<LineType> {
    let segments: Vec<&str> = line.trim().split(" ").collect();
    let word = |i: usize| segments.get(i).map(|s| String::from(*s));
    let number = |i: usize| segments.get(i).and_then(|s| number_by_std(s));
    let corner = |i: usize| segments.get(i).and_then(|s| corner_by_std(s));
    Some(match segments[0] {
        "#" => LineType::Comment(word(1)?),
        "o" => LineType::Object(word(1)?),
        "v" => LineType::Vertex(number(1)?, number(2)?, number(3)?),
        "vn" => LineType::VertexNormal(number(1)?, number(2)?, number(3)?),
        "vt" => LineType::VertexTexture(number(1)?, number(2)?),
        "f" => LineType::Face(corner(1)?, corner(2)?, corner(3)?),
        "usemtl" => LineType::UseMaterial(word(1)?),
        "mtllib" => LineType::MTLib(word(1)?),
        _ => LineType::Unknown,
    })
}

/// The materials of a file as the standard library reads them, by name.
fn materials_by_std(text: &str) -> Option<HashMap<String, Diffuse>> {
    let mut materials = HashMap::new();
    let mut open: Option<(String, Diffuse)> = None;
    for line in text.split("\n") {
        let segments: Vec<&str> = line.trim().split(" ").collect();
        match segments[0] {
            "newmtl" => {
                let name = String::from(*segments.get(1)?);
                if let Some((done, diffuse)) = open.take() {
                    materials.insert(done, diffuse);
                }
                open = Some((name, None));
            }
            "Kd" => {
                let red = number_by_std(segments.get(1)?)?;
                let green = number_by_std(segments.get(2)?)?;
                let blue = number_by_std(segments.get(3)?)?;
                open.as_mut()?.1 = Some((red, green, blue));
            }
            _ => (),
        }
    }
    if let Some((done, diffuse)) = open.take() {
        materials.insert(done, diffuse);
    }
    Some(materials)
}

fn all_strings(alphabet: &[char], longest: usize, mut visit: impl FnMut(&str)) {
    let mut current: Vec<String> = vec![String::new()];
    visit("");
    for _ in 0..longest {
        let mut next = Vec::new();
        for s in &current {
            for c in alphabet {
                let mut t = s.clone();
                t.push(*c);
                visit(&t);
                next.push(t);
            }
        }
        current = next;
    }
}

/// Strings made of the given pieces, chosen by a fixed sequence of numbers.
fn sample_strings(pieces: &[&str], count: usize, longest: usize, mut visit: impl FnMut(&str)) {
    let mut state: u64 = 0x2545_F491_4F6C_DD1D;
    let mut draw = move |bound: usize| {
        state ^= state << 13;
        state ^= state >> 7;
        state ^= state << 17;
        (state % bound as u64) as usize
    };
    for _ in 0..count {
        let length = draw(longest + 1);
        let mut s = String::new();
        for _ in 0..length {
            s.push_str(pieces[draw(pieces.len())]);
        }
        visit(&s);
    }
}

#[test]
fn corners_agree_with_the_standard_library() {
    all_strings(&['1', '0', '9', '/', '+', '-', ' ', 'x', '\t'], 5, |s| {
        assert_eq!(parse_face_vertex(s), corner_by_std(s), "{:?}", s);
    });
}

#[test]
fn short_lines_agree_with_the_standard_library() {
    all_strings(&['v', 'f', 'n', 't', '#', 'o', ' ', '1', '/', '.', 'e'], 4, |s| {
        assert_eq!(parse_line(s), line_by_std(s), "{:?}", s);
    });
}

#[test]
fn long_lines_agree_with_the_standard_library() {
    let pieces = [
        "v", "vn", "vt", "f", "#", "o", "usemtl", "mtllib", " ", " ", " ", "  ", "\t", "\r", "1", "2", "0", "10", "1/1/1",
        "2//3", "/", "1/2", "0/1/1", "+1/x/y", "1.5", "-2e3", ".5", "inf", "nan", "1e", "bark", "tree.mtl", "é", "\u{a0}",
    ];
    sample_strings(&pieces, 40_000, 9, |s| {
        assert_eq!(parse_line(s), line_by_std(s), "{:?}", s);
    });
}

#[test]
fn files_agree_with_the_standard_library() {
    let pieces = ["v 1 2 3", "v 1 2", "f 1/1/1 2/2/2 3/3/3", "f 1 2 3", "o a", "#", "# c", "", " ", "usemtl m", "s off", "\n", "\n", "\r\n"];
    sample_strings(&pieces, 20_000, 8, |s| {
        let lines: Vec<Option<LineType>> = s.split("\n").map(line_by_std).collect();
        let expected = match lines.iter().position(|l| l.is_none()) {
            Some(line) => Err(raytracer::obj_parser::ParseError { line }),
            None => Ok(lines.into_iter().map(|l| l.unwrap()).collect::<Vec<LineType>>()),
        };
        assert_eq!(raytracer::obj_parser::parse(s), expected, "{:?}", s);
    });
}

#[test]
fn materials_agree_with_the_standard_library() {
    let pieces = [
        "newmtl", "Kd", " ", " ", " ", "\n", "\n", "\n", "a", "b", "c", "1", "0.5", "1e2", "x", "Ns", "\r", "\t", "  ", "#",
    ];
    sample_strings(&pieces, 40_000, 14, |s| {
        let expected = materials_by_std(s);
        let found = raytracer::mtl_parser::parse(s);
        match (&expected, &found) {
            (Some(map), Ok(library)) => {
                assert_eq!(library.len(), map.len(), "{:?}", s);
                for (name, diffuse) in library.entries() {
                    assert_eq!(map.get(name), Some(diffuse), "{:?}", s);
                    assert_eq!(library.get(name), Some(diffuse), "{:?}", s);
                }
            }
            (None, Err(_)) => (),
            _ => panic!("{:?}: {:?} against {:?}", s, expected, found.as_ref().map(|l| l.entries().clone())),
        }
    });
}
