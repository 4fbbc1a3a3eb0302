use raytracer::mtl_parser::parse;
use raytracer::mtl_parser::Diffuse;
use raytracer::obj_parser::ParseError;

fn color(r: &str, g: &str, b: &str) -> Diffuse {
    Some((String::from(r), String::from(g), String::from(b)))
}

fn listing(text: &str) -> Vec<(String, Diffuse)> {
    parse(text).ok().unwrap().entries().clone()
}

#[test]
fn materials_with_their_colors() {
    let text = "# two materials\nnewmtl bark\nKd 0.4 0.2 0.1\nNs 10\n\nnewmtl leaf\nKd 0 1 0\n";
    assert_eq!(
        listing(text),
        vec![(String::from("bark"), color("0.4", "0.2", "0.1")), (String::from("leaf"), color("0", "1", "0"))]
    );
}

#[test]
fn material_without_color() {
    assert_eq!(listing("newmtl plain"), vec![(String::from("plain"), None)]);
    assert_eq!(listing(""), Vec::new());
    assert_eq!(listing("illum 2\n"), Vec::new());
}

#[test]
fn later_color_replaces_earlier() {
    assert_eq!(listing("newmtl a\nKd 1 1 1\nKd 0 0 0"), vec![(String::from("a"), color("0", "0", "0"))]);
}

#[test]
fn later_material_replaces_earlier_of_the_same_name() {
    let text = "newmtl a\nKd 1 1 1\nnewmtl b\nnewmtl a\nKd 2 2 2\n";
    assert_eq!(listing(text), vec![(String::from("a"), color("2", "2", "2")), (String::from("b"), None)]);
    let lib = parse(text).ok().unwrap();
    assert_eq!(lib.len(), 2);
    assert_eq!(lib.get(&String::from("a")), Some(&color("2", "2", "2")));
    assert_eq!(lib.get(&String::from("b")), Some(&None));
    assert_eq!(lib.get(&String::from("c")), None);
}

#[test]
fn color_before_any_material_is_malformed() {
    assert_eq!(parse("Kd 1 1 1\nnewmtl a").err(), Some(ParseError { line: 0 }));
    assert_eq!(parse("# c\n\nKd 1 1 1").err(), Some(ParseError { line: 2 }));
}

#[test]
fn short_lines_are_malformed() {
    assert_eq!(parse("newmtl a\nKd 1 1").err(), Some(ParseError { line: 1 }));
    assert_eq!(parse("newmtl").err(), Some(ParseError { line: 0 }));
    assert_eq!(parse("newmtl a\nnewmtl\nKd").err(), Some(ParseError { line: 1 }));
}

#[test]
fn colors_must_spell_numbers() {
    assert_eq!(parse("newmtl a\nKd 1 1 one").err(), Some(ParseError { line: 1 }));
    assert_eq!(parse("newmtl a\nKd  1 1 1").err(), Some(ParseError { line: 1 }));
    assert_eq!(listing("newmtl a\nKd 1e0 .5 5. 7"), vec![(String::from("a"), color("1e0", ".5", "5."))]);
}
