use browser_ext::json::value::Json;

fn parse(text: &str) -> Json {
    Json::parse(text).unwrap()
}

fn string(text: &str) -> Json {
    Json::String(text.to_string())
}

#[test]
fn json_scalars_are_read() {
    assert_eq!(parse("null"), Json::Null);
    assert_eq!(parse(" true "), Json::Bool(true));
    assert_eq!(parse("18446744073709551615"), Json::Unsigned(u64::MAX));
    assert_eq!(parse("-9223372036854775808"), Json::Signed(i64::MIN));
    assert_eq!(parse("\"a\\n\\u00e9\""), string("a\né"));
}

#[test]
fn json_arrays_and_objects_are_read() {
    assert_eq!(parse("[1, [], {}]"), Json::Array(vec![
        Json::Unsigned(1),
        Json::Array(vec![]),
        Json::Object(vec![]),
    ]));
    assert_eq!(parse("{\"b\": 1, \"a\": [null]}"), Json::Object(vec![
        ("a".to_string(), Json::Array(vec![Json::Null])),
        ("b".to_string(), Json::Unsigned(1)),
    ]));
}

#[test]
fn json_keeps_the_later_of_two_members() {
    let read = parse("{\"a\": 1, \"a\": 2}");
    assert_eq!(read.get("a"), Some(&Json::Unsigned(2)));
    let built = Json::Object(vec![
        ("a".to_string(), Json::Unsigned(1)),
        ("b".to_string(), Json::Unsigned(3)),
        ("a".to_string(), Json::Unsigned(2)),
    ]);
    assert_eq!(built.get("a"), Some(&Json::Unsigned(2)));
    assert_eq!(built.into_text(), "{\"a\":2,\"b\":3}");
    let built = Json::Array(vec![Json::Object(vec![
        ("k".to_string(), Json::Null),
        ("k".to_string(), Json::Bool(true)),
        ("k".to_string(), Json::Bool(false)),
    ])]);
    assert_eq!(built.into_bytes(), b"[{\"k\":false}]".to_vec());
}

#[test]
fn json_errors_are_told() {
    assert_eq!(Json::parse("{"), Err("EOF while parsing an object at line 1 column 1".to_string()));
    assert!(Json::parse("").is_err());
    assert!(Json::parse("1 2").is_err());
    assert!(Json::parse_bytes(b"\"\xff\"").is_err());
}

#[test]
fn json_bytes_are_read() {
    assert_eq!(Json::parse_bytes(b"[true]"), Ok(Json::Array(vec![Json::Bool(true)])));
}

#[test]
fn json_scalars_are_written() {
    assert_eq!(Json::Null.into_text(), "null");
    assert_eq!(Json::Bool(true).into_text(), "true");
    assert_eq!(Json::Bool(false).into_text(), "false");
    assert_eq!(Json::Unsigned(u64::MAX).into_text(), "18446744073709551615");
    assert_eq!(Json::Signed(i64::MIN).into_text(), "-9223372036854775808");
    assert_eq!(Json::Signed(5).into_text(), "5");
}

#[test]
fn json_text_fills_one_line() {
    let text = Json::Array(vec![string("a\nb\r\u{2028}"), Json::Object(vec![])]).into_text();
    assert_eq!(text, "[\"a\\nb\\r\u{2028}\",{}]");
    assert!(!text.contains('\n'));
}

#[test]
fn json_pretty_text_is_indented() {
    let json = Json::Object(vec![("a".to_string(), Json::Array(vec![Json::Unsigned(1)]))]);
    assert_eq!(json.into_pretty_text(), "{\n  \"a\": [\n    1\n  ]\n}");
}

#[test]
fn json_text_is_read_back() {
    let build = || Json::Object(vec![
        ("id".to_string(), Json::Unsigned(7)),
        ("list".to_string(), Json::Array(vec![string("\"\\\u{1}é😀"), Json::Null, Json::Bool(false)])),
        ("n".to_string(), Json::Signed(-7)),
    ]);
    assert_eq!(Json::parse(&build().into_text()), Ok(build()));
    assert_eq!(Json::parse(&build().into_pretty_text()), Ok(build()));
    assert_eq!(Json::parse_bytes(&build().into_bytes()), Ok(build()));
}

#[test]
fn json_bytes_are_the_text() {
    let build = || Json::Array(vec![string("é"), Json::Unsigned(1)]);
    assert_eq!(build().into_bytes(), build().into_text().into_bytes());
}

fn nested(levels: usize) -> Json {
    let mut json = Json::Null;
    for _ in 0..levels {
        json = Json::Array(vec![json]);
    }
    json
}

#[test]
fn json_is_read_back_up_to_a_depth() {
    assert_eq!(Json::parse(&nested(127).into_text()), Ok(nested(127)));
    assert!(Json::parse(&nested(128).into_text()).is_err());
    assert_eq!(Json::parse_bytes(&nested(127).into_bytes()), Ok(nested(127)));
    assert!(Json::parse_bytes(&nested(128).into_bytes()).is_err());
    assert_eq!(Json::parse(&(nested(127).into_pretty_text() + "\n")), Ok(nested(127)));
}

#[test]
fn json_floats_are_kept() {
    let json = parse("[1.5, -0.0, 1e300]");
    assert_eq!(json.into_text(), "[1.5,-0.0,1e+300]");
    let json = parse("1.0");
    assert_eq!(json.as_u64(), None);
    assert_eq!(json.as_str(), None);
    assert_eq!(json.get("a"), None);
    assert_eq!(json.take("a"), Json::Null);
    assert_eq!(parse("2.5").into_array(), None);
}

#[test]
fn json_members_are_found() {
    let json = parse("{\"id\": 3, \"title\": \"x\"}");
    assert_eq!(json.get("id").unwrap().as_u64(), Some(3));
    assert_eq!(json.get("title").unwrap().as_str(), Some("x"));
    assert_eq!(json.get("url"), None);
    assert_eq!(json.take("title"), string("x"));
    assert_eq!(parse("[1]").get("id"), None);
    assert_eq!(parse("[1]").take("id"), Json::Null);
    assert_eq!(parse("{}").take("id"), Json::Null);
}

#[test]
fn json_members_are_pulled_out() {
    let (id, rest) = parse("{\"id\": 3, \"n\": 4}").pull("id");
    assert_eq!(id, Json::Unsigned(3));
    assert_eq!(rest.get("n"), Some(&Json::Unsigned(4)));
    let (none, rest) = rest.pull("x");
    assert_eq!(none, Json::Null);
    assert_eq!(rest.take("n"), Json::Unsigned(4));
    let (later, rest) = Json::Object(vec![
        ("a".to_string(), Json::Unsigned(1)),
        ("b".to_string(), Json::Unsigned(3)),
        ("a".to_string(), Json::Unsigned(2)),
    ]).pull("a");
    assert_eq!(later, Json::Unsigned(2));
    assert_eq!(rest.get("a"), None);
    assert_eq!(rest.into_text(), "{\"b\":3}");
    let (none, rest) = Json::Bool(true).pull("x");
    assert_eq!((none, rest), (Json::Null, Json::Bool(true)));
}

#[test]
fn json_unsigned_numbers() {
    assert_eq!(Json::Unsigned(u64::MAX).as_u64(), Some(u64::MAX));
    assert_eq!(Json::Signed(4).as_u64(), Some(4));
    assert_eq!(Json::Signed(-4).as_u64(), None);
    assert_eq!(string("4").as_u64(), None);
}

#[test]
fn json_floats_are_read_back_unless_rounded() {
    for text in ["1.5", "-0.25", "1e+300", "0.1"] {
        assert_eq!(parse(text).into_text(), text);
    }
    assert_eq!(parse("8.383658838626808e-78").into_text(), "8.383658838626807e-78");
}
