use format_galaxy::byte_sequence::ByteSequenceFormat;
use format_galaxy::guest::GalaxyFormat;
use format_galaxy::json_like_indent::JsonLikeIndentFormat;
use format_galaxy::test_client::TestClientFormat;
use format_galaxy::value::Value;
use format_galaxy::wasm_text::WasmTextFormat;

#[test]
fn test_client_test_impl() {
    assert_eq!(TestClientFormat::present(&[1, 2, 3]), Ok("1,2,3".to_string()));
    assert!(TestClientFormat::present(&[]).is_err());
    assert_eq!(TestClientFormat::store("1,2,3"), Ok(vec![1, 2, 3]));
}

#[test]
fn byte_sequence_test_impl() {
    assert_eq!(ByteSequenceFormat::present(&[1, 2, 3]), Ok("1,2,3".to_string()));
    assert_eq!(ByteSequenceFormat::present(&[]), Ok("".to_string()));
    assert_eq!(ByteSequenceFormat::store("1,2,3"), Ok(vec![1, 2, 3]));
}

#[test]
fn byte_sequence_store_rejections() {
    assert!(ByteSequenceFormat::store("").is_err());
    assert!(ByteSequenceFormat::store("1,,3").is_err());
    assert!(ByteSequenceFormat::store("256").is_err());
    assert!(ByteSequenceFormat::store("1,x").is_err());
    assert_eq!(ByteSequenceFormat::store("007"), Ok(vec![7]));
    assert_eq!(ByteSequenceFormat::store("255"), Ok(vec![255]));
    assert_eq!(TestClientFormat::store("1,x"), Err("I don't store this!".to_string()));
}

fn sample_values() -> Vec<Value> {
    vec![
        Value::Null,
        Value::Bool(true),
        Value::Bool(false),
        Value::Number(u64::MIN),
        Value::Number(u64::MAX),
        Value::String("Hello World!\nöäü€❤".to_string()),
        Value::Array(vec![]),
        Value::Array(vec![Value::String("Nested!".to_string())]),
        Value::Array(vec![Value::Number(1000)]),
        Value::Object(vec![
            ("Foo".to_string(), Value::Null),
            ("❤Bar❤".to_string(), Value::Number(5000)),
            (
                "DeepNested".to_string(),
                Value::Object(vec![("bool".to_string(), Value::Bool(false))]),
            ),
            (
                "DeepNested2".to_string(),
                Value::Array(vec![Value::Number(1), Value::Number(2), Value::Number(3)]),
            ),
        ]),
    ]
}

#[test]
fn json_like_indent_test() {
    let values = sample_values();

    // serialize / deserialize
    for val in &values {
        let bytes = val.serialize();
        let val2 = Value::deserialize(bytes.as_slice()).expect("round trip yielded err");
        assert_eq!(val, &val2);
    }

    let exp_strings = vec![
        "null",
        "true",
        "false",
        "0",
        "18446744073709551615",
        "\"Hello World!\\nöäü€❤\"",
        "[]",
        "[]\n  \"Nested!\"",
        "[]\n  1000",
        "{}\n  \"Foo\": null\n  \"❤Bar❤\": 5000\n  \"DeepNested\": {}\n    \"bool\": false\n  \"DeepNested2\": []\n    1\n    2\n    3",
    ];

    // pretty_print
    for (val, exp) in values.iter().zip(exp_strings.into_iter()) {
        let s = val.pretty_print_2();
        assert_eq!(&s, exp);
    }

    // parse
    for val in &values {
        let s = val.pretty_print_2();
        let val2 = Value::parse_indented(&s).expect("parsing led to error!");
        assert_eq!(val, &val2);
    }
}

#[test]
fn json_like_indent_present_and_store() {
    for val in &sample_values() {
        let bytes = val.serialize();
        let text = JsonLikeIndentFormat::present(&bytes).unwrap();
        assert_eq!(text, val.pretty_print_2());
        let back = JsonLikeIndentFormat::store(&text).unwrap();
        assert_eq!(back, bytes);
    }
    assert!(JsonLikeIndentFormat::present(&[9, 9, 9]).is_err());
    assert!(JsonLikeIndentFormat::store("{}\nbroken").is_err());
}

#[test]
fn wasm_text_round_trip() {
    let binary = WasmTextFormat::store("(module)").unwrap();
    assert_eq!(binary, vec![0x00, 0x61, 0x73, 0x6D, 0x01, 0x00, 0x00, 0x00]);
    let text = WasmTextFormat::present(&binary).unwrap();
    assert!(text.contains("module"));
    assert!(WasmTextFormat::store("(nonsense").is_err());
    assert!(WasmTextFormat::present(&[1, 2, 3]).is_err());
}
