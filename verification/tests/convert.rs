//! End-to-end tests of the converter: parsing, emission, error reporting.
use oudia_to_kdl::convert;
use oudia_to_kdl::parse::parse_oud2;
use oudia_to_kdl::tree::Structure;
use oudia_to_kdl::tree::Value;
use oudia_to_kdl::OuDiaSecondParser;

fn parsed_kdl(out: &str) -> kdl::KdlDocument {
    out.parse().expect("output must be valid KDL")
}

#[test]
fn readme_example_tree() {
    let input = "Rosen.\nRosenName=Tokaido\nEki.\nEkimei=Tokyo,Shinagawa \n.\n.";
    let root = parse_oud2(input).unwrap();
    let expected = Structure::Struct(
        "file".to_string(),
        vec![Structure::Struct(
            "Rosen".to_string(),
            vec![
                Structure::Pair(
                    "RosenName".to_string(),
                    Value::Single("Tokaido".to_string()),
                ),
                Structure::Struct(
                    "Eki".to_string(),
                    vec![Structure::Pair(
                        "Ekimei".to_string(),
                        Value::List(vec!["Tokyo".to_string(), "Shinagawa".to_string()]),
                    )],
                ),
            ],
        )],
    );
    assert_eq!(root, expected);
}

#[test]
fn readme_example_output_structure() {
    let input = "Rosen.\nRosenName=Tokaido\nEki.\nEkimei=Tokyo,Shinagawa \n.\n.";
    let out = convert(input).unwrap();
    let doc = parsed_kdl(&out);
    assert_eq!(doc.nodes().len(), 1);
    let file = &doc.nodes()[0];
    assert_eq!(file.name().value(), "file");
    let file_children = file.children().expect("root has children");
    assert_eq!(file_children.nodes().len(), 1);
    let rosen = &file_children.nodes()[0];
    assert_eq!(rosen.name().value(), "Rosen");
    let rosen_children = rosen.children().expect("Rosen has children");
    assert_eq!(rosen_children.nodes().len(), 2);
    let rosen_name = &rosen_children.nodes()[0];
    assert_eq!(rosen_name.name().value(), "RosenName");
    assert_eq!(rosen_name.entries().len(), 1);
    assert_eq!(rosen_name.entries()[0].value().as_string(), Some("Tokaido"));
    assert!(rosen_name.children().is_none());
    let eki = &rosen_children.nodes()[1];
    assert_eq!(eki.name().value(), "Eki");
    let eki_children = eki.children().expect("Eki has children");
    assert_eq!(eki_children.nodes().len(), 1);
    let ekimei = &eki_children.nodes()[0];
    assert_eq!(ekimei.name().value(), "Ekimei");
    assert_eq!(ekimei.entries().len(), 2);
    assert_eq!(ekimei.entries()[0].value().as_string(), Some("Tokyo"));
    assert_eq!(ekimei.entries()[1].value().as_string(), Some("Shinagawa"));
}

#[test]
fn two_top_level_blocks_single_root() {
    let input = "A.\nx=1\n.\nB.\ny=2\n.";
    let out = convert(input).unwrap();
    let doc = parsed_kdl(&out);
    assert_eq!(doc.nodes().len(), 1);
    let file = &doc.nodes()[0];
    assert_eq!(file.name().value(), "file");
    let children = file.children().expect("root has children");
    assert_eq!(children.nodes().len(), 2);
    assert_eq!(children.nodes()[0].name().value(), "A");
    assert_eq!(children.nodes()[1].name().value(), "B");
}

#[test]
fn sibling_order_is_kept() {
    let input = "T.\nc=3\na=1\nb=2\n.";
    let out = convert(input).unwrap();
    let doc = parsed_kdl(&out);
    let t = &doc.nodes()[0].children().unwrap().nodes()[0];
    let names: Vec<&str> = t
        .children()
        .unwrap()
        .nodes()
        .iter()
        .map(|n| n.name().value())
        .collect();
    assert_eq!(names, vec!["c", "a", "b"]);
}

#[test]
fn list_arity_three_values() {
    let input = "K=a, b ,c";
    let out = convert(input).unwrap();
    let doc = parsed_kdl(&out);
    let k = &doc.nodes()[0].children().unwrap().nodes()[0];
    assert_eq!(k.name().value(), "K");
    assert_eq!(k.entries().len(), 3);
    assert_eq!(k.entries()[0].value().as_string(), Some("a"));
    assert_eq!(k.entries()[1].value().as_string(), Some("b"));
    assert_eq!(k.entries()[2].value().as_string(), Some("c"));
}

#[test]
fn single_value_one_attribute() {
    let input = " Key = some value with spaces  ";
    let root = parse_oud2(input).unwrap();
    let expected = Structure::Struct(
        "file".to_string(),
        vec![Structure::Pair(
            "Key".to_string(),
            Value::Single("some value with spaces".to_string()),
        )],
    );
    assert_eq!(root, expected);
    let out = convert(input).unwrap();
    let doc = parsed_kdl(&out);
    let k = &doc.nodes()[0].children().unwrap().nodes()[0];
    assert_eq!(k.entries().len(), 1);
    assert_eq!(
        k.entries()[0].value().as_string(),
        Some("some value with spaces")
    );
}

#[test]
fn parser_facade_agrees() {
    let input = "A.\nx=1\n.";
    let a = OuDiaSecondParser::parse(input).unwrap();
    let b = parse_oud2(input).unwrap();
    assert_eq!(a, b);
}

#[test]
fn nesting_depth_three() {
    let input = "A.\nB.\nC.\nk=v\n.\n.\n.";
    let out = convert(input).unwrap();
    let doc = parsed_kdl(&out);
    let a = &doc.nodes()[0].children().unwrap().nodes()[0];
    let b = &a.children().unwrap().nodes()[0];
    let c = &b.children().unwrap().nodes()[0];
    let k = &c.children().unwrap().nodes()[0];
    assert_eq!(k.name().value(), "k");
    assert_eq!(k.entries()[0].value().as_string(), Some("v"));
}

#[test]
fn empty_block_has_no_children() {
    let input = "A.\n.";
    let out = convert(input).unwrap();
    let doc = parsed_kdl(&out);
    let a = &doc.nodes()[0].children().unwrap().nodes()[0];
    assert_eq!(a.name().value(), "A");
    assert!(a.children().is_none());
    assert_eq!(a.entries().len(), 0);
}

#[test]
fn unclosed_block_fails() {
    let input = "Rosen.\nRosenName=x";
    let err = convert(input).unwrap_err();
    assert!(err.contains("never closed"), "message was: {}", err);
    assert!(err.contains("line 1"), "message was: {}", err);
}

#[test]
fn missing_value_fails() {
    let input = "key=";
    let err = convert(input).unwrap_err();
    assert!(err.contains("missing value"), "message was: {}", err);
    assert!(err.contains("line 1"), "message was: {}", err);
}

#[test]
fn empty_list_element_fails() {
    let err = convert("key=a,,b").unwrap_err();
    assert!(err.contains("missing value"), "message was: {}", err);
}

#[test]
fn trailing_comma_fails() {
    assert!(convert("key=a,").is_err());
}

#[test]
fn unmatched_close_fails() {
    let input = "A.\nx=1\n.\n.";
    let err = convert(input).unwrap_err();
    assert!(err.contains("unmatched close marker"), "message was: {}", err);
    assert!(err.contains("line 4"), "message was: {}", err);
}

#[test]
fn missing_key_fails() {
    let err = convert("=v").unwrap_err();
    assert!(err.contains("missing key"), "message was: {}", err);
}

#[test]
fn bare_word_line_fails() {
    let err = convert("justtext").unwrap_err();
    assert!(err.contains("expected a block marker"), "message was: {}", err);
}

#[test]
fn empty_input_fails() {
    let err = convert("").unwrap_err();
    assert!(err.contains("at least one block or pair"), "message was: {}", err);
}

#[test]
fn blank_lines_are_skipped() {
    let input = "\nA.\n\nx=1\n\n.\n\n";
    let root = parse_oud2(input).unwrap();
    let expected = Structure::Struct(
        "file".to_string(),
        vec![Structure::Struct(
            "A".to_string(),
            vec![Structure::Pair("x".to_string(), Value::Single("1".to_string()))],
        )],
    );
    assert_eq!(root, expected);
}

#[test]
fn crlf_line_ends_accepted() {
    let input = "A.\r\nx=1\r\n.\r\n";
    let root = parse_oud2(input).unwrap();
    let expected = Structure::Struct(
        "file".to_string(),
        vec![Structure::Struct(
            "A".to_string(),
            vec![Structure::Pair("x".to_string(), Value::Single("1".to_string()))],
        )],
    );
    assert_eq!(root, expected);
}

#[test]
fn value_with_special_characters_round_trips() {
    let input = "k=a value \"with quotes\" and {braces}";
    let out = convert(input).unwrap();
    let doc = parsed_kdl(&out);
    let k = &doc.nodes()[0].children().unwrap().nodes()[0];
    assert_eq!(
        k.entries()[0].value().as_string(),
        Some("a value \"with quotes\" and {braces}")
    );
}

#[test]
fn output_is_not_the_input() {
    let input = "A.\nx=1\n.";
    let out = convert(input).unwrap();
    assert_ne!(out, input);
    assert!(out.contains('{'), "output was: {}", out);
    assert!(out.contains("\"1\"") || out.contains("x \"1\""), "output was: {}", out);
}
