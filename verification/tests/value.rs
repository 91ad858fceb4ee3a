use format_galaxy::indent::{
    lines_with_indent, parse_multiple_trees, parse_one_root, parse_single_tree, StrTree,
};
use format_galaxy::value::{Value, ValueReader, ValueWriter};

fn leaf(s: &str) -> StrTree {
    StrTree::new(s.to_string(), vec![])
}

fn node(s: &str, children: Vec<StrTree>) -> StrTree {
    StrTree::new(s.to_string(), children)
}

#[test]
fn test_str_tree() {
    let s = "a\n  b\n  c\n    d\n      e\n  f";
    let exp = node(
        "a",
        vec![leaf("b"), node("c", vec![node("d", vec![leaf("e")])]), leaf("f")],
    );
    let res = parse_single_tree(s).unwrap();
    assert_eq!(exp, res)
}

fn measured(lines: Vec<(usize, &str)>) -> Vec<(usize, String)> {
    lines.into_iter().map(|(i, s)| (i, s.to_string())).collect()
}

#[test]
fn test_parse_one_root_empty() {
    let lines: Vec<(usize, String)> = vec![];
    let mut pos: usize = 0;
    assert!(parse_one_root(&lines, &mut pos).is_err());
}

#[test]
fn test_parse_one_root_regular() {
    let lines = measured(vec![(0, "a"), (1, "b"), (1, "c"), (2, "d"), (3, "e"), (1, "f")]);
    let exp = node(
        "a",
        vec![leaf("b"), node("c", vec![node("d", vec![leaf("e")])]), leaf("f")],
    );
    let mut pos: usize = 0;
    assert_eq!(parse_one_root(&lines, &mut pos), Ok(exp));
    assert_eq!(pos, lines.len());
}

#[test]
fn test_parse_two_roots_regular() {
    let lines = measured(vec![(0, "a"), (1, "b"), (2, "c"), (0, "d"), (1, "e"), (2, "f")]);
    let exp1 = node("a", vec![node("b", vec![leaf("c")])]);
    let exp2 = node("d", vec![node("e", vec![leaf("f")])]);
    let mut pos: usize = 0;
    assert_eq!(parse_one_root(&lines, &mut pos), Ok(exp1));
    assert_eq!(parse_one_root(&lines, &mut pos), Ok(exp2));
    assert_eq!(pos, lines.len());
}

#[test]
fn test_non_zero_start_indent() {
    let lines = measured(vec![(1, "a"), (2, "b"), (2, "c")]);
    let exp = node("a", vec![leaf("b"), leaf("c")]);
    let mut pos: usize = 0;
    assert_eq!(parse_one_root(&lines, &mut pos), Ok(exp));
    assert_eq!(pos, lines.len());
}

#[test]
fn test_skipping_indent_levels() {
    let lines = measured(vec![(1, "a"), (4, "b"), (9, "c"), (9, "d"), (4, "e")]);
    let exp = node("a", vec![node("b", vec![leaf("c"), leaf("d")]), leaf("e")]);
    let mut pos: usize = 0;
    assert_eq!(parse_one_root(&lines, &mut pos), Ok(exp));
    assert_eq!(pos, lines.len());
}

#[test]
fn test_dedent_to_unknown_level() {
    let lines = measured(vec![(1, "a"), (4, "b"), (3, "c")]);
    let mut pos: usize = 0;
    assert!(parse_one_root(&lines, &mut pos).is_err());
}

#[test]
fn test_dedent_to_unknown_level_below_initial() {
    // whether this case matters is open; the test pins the behaviour down.
    let lines = measured(vec![(1, "a"), (4, "b"), (0, "c")]);
    let mut pos: usize = 0;
    assert!(parse_one_root(&lines, &mut pos).is_err());
}

#[test]
fn test_parse_single_tree() {
    let res = parse_single_tree("abc\n def");
    let exp = node("abc", vec![leaf("def")]);
    assert_eq!(res, Ok(exp));
}

#[test]
fn test_parse_single_tree_additional_lines() {
    let res = parse_single_tree("abc\n def\nadditional");
    assert!(res.is_err());
}

#[test]
fn test_parse_multiple_trees() {
    let res = parse_multiple_trees("abc\n def\nxyz\n    foo");
    let exp = vec![node("abc", vec![leaf("def")]), node("xyz", vec![leaf("foo")])];
    assert_eq!(res, Ok(exp));
}

#[test]
fn lines_with_indent_measures_leading_spaces() {
    let lines = lines_with_indent("a\n  b\n    c");
    assert_eq!(
        lines,
        vec![(0, "a".to_string()), (2, "b".to_string()), (4, "c".to_string())]
    );
    assert_eq!(lines_with_indent(""), vec![]);
}

#[test]
fn writer_and_reader_round_trip() {
    let mut w = ValueWriter::default();
    w.write_u8(7);
    w.write_u64(0x0102030405060708);
    w.write_str("héllo");
    let mut r = ValueReader::from_reader(w.v);
    assert_eq!(r.read_u8(), Ok(7));
    assert_eq!(r.read_u64(), Ok(0x0102030405060708));
    assert_eq!(r.read_string().unwrap(), "héllo");
    assert!(r.read_u8().is_err());
}

#[test]
fn reader_rejects_truncated_records() {
    let mut r = ValueReader::from_reader(vec![1, 2, 3]);
    assert!(r.read_u64().is_err());
    let mut r2 = ValueReader::from_reader(vec![9, 0, 0, 0, 0, 0, 0, 0]);
    assert!(r2.read_string().is_err());
}

#[test]
fn deserialize_rejects_bad_bytes() {
    assert!(Value::deserialize(&[]).is_err());
    assert!(Value::deserialize(&[6]).is_err());
    assert!(Value::deserialize(&[1, 2]).is_err());
    assert!(Value::deserialize(&[3, 1, 0, 0, 0, 0, 0, 0, 0, 0xff]).is_err());
}

#[test]
fn bracketed_parse_round_trip() {
    let values = vec![
        Value::Null,
        Value::Number(42),
        Value::String("a \"quoted\" line\nand a tab\t".to_string()),
        Value::Array(vec![Value::Bool(true), Value::Array(vec![]), Value::Number(7)]),
        Value::Object(vec![
            ("a".to_string(), Value::Number(1)),
            ("b".to_string(), Value::Object(vec![])),
        ]),
    ];
    for val in &values {
        let s = val.pretty_print();
        let val2 = Value::parse(&s).unwrap();
        assert_eq!(val, &val2);
    }
    assert_eq!(
        Value::parse("{\"a\": 1, \"b\": [2, 3]}").unwrap(),
        Value::Object(vec![
            ("a".to_string(), Value::Number(1)),
            (
                "b".to_string(),
                Value::Array(vec![Value::Number(2), Value::Number(3)])
            ),
        ])
    );
}

#[test]
fn bracketed_parse_errors_carry_diagnostics() {
    let err = Value::parse("xyz 1").unwrap_err();
    assert!(err.contains("Unexpected"));
    assert!(Value::parse("[1, 2").is_err());
    assert!(Value::parse("[1] 2").is_err());
    let too_large = Value::parse("99999999999999999999999999").unwrap_err();
    assert!(too_large.contains("Integer literal too large"));
}

#[test]
fn pretty_print_renders_commas_and_indentation() {
    let v = Value::Array(vec![Value::Number(1), Value::Number(2)]);
    assert_eq!(v.pretty_print(), "[\n  1,\n  2,\n]");
    let o = Value::Object(vec![("k".to_string(), Value::Null)]);
    assert_eq!(o.pretty_print(), "{\n  \"k\": null,\n}");
}
