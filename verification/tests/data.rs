use greppy::certificate::Status;
use greppy::data::{
    json_value_span, parse_path, plan_data_set, yaml_scalar_span, DataError, DataPlan, Lookup,
    PathError, Seg,
};

fn replaced(content: &[u8], path: &str, value: &str, ext: &str) -> (String, String) {
    match plan_data_set(content, path, value, ext).unwrap() {
        DataPlan::Replace { start, end, text } => {
            (String::from_utf8(content[start..end].to_vec()).unwrap(), text)
        }
        other => panic!("expected a replacement, got {other:?}"),
    }
}

#[test]
fn json_set_preserves_formatting() {
    let content = b"{\n  \"server\": {\n    \"port\": 9000,\n    \"host\": \"x\"\n  }\n}\n";
    let (old, new) = replaced(content, "$.server.port", "8080", "json");
    assert_eq!(old, "9000");
    assert_eq!(new, "8080");
}

#[test]
fn json_missing_path_refuses() {
    let plan = plan_data_set(b"{\"a\": 1}\n", "$.b", "2", "json").unwrap();
    assert!(matches!(plan, DataPlan::Refuse { status: Status::NotFound, matches: 0 }));
}

#[test]
fn json_array_index() {
    let (old, new) = replaced(b"{\"items\": [1, 2, 3]}\n", "$.items[1]", "99", "json");
    assert_eq!(old, "2");
    assert_eq!(new, "99");
}

#[test]
fn ensure_is_idempotent() {
    let plan = plan_data_set(b"{\"port\": 8080}\n", "$.port", "8080", "json").unwrap();
    assert!(matches!(plan, DataPlan::Refuse { status: Status::AlreadySatisfied, matches: 1 }));
}

#[test]
fn toml_goes_through_the_document_model() {
    let plan = plan_data_set(b"[package]\nname = \"x\"\n", "$.package.version", "\"0.2.0\"", "TOML")
        .unwrap();
    match plan {
        DataPlan::Toml(segs) => assert_eq!(
            segs,
            vec![Seg::Key("package".into()), Seg::Key("version".into())]
        ),
        other => panic!("{other:?}"),
    }
}

#[test]
fn yaml_scalar_set() {
    let (old, new) = replaced(b"server:\n  port: 9000\n  host: x\n", "$.server.port", "8080", "yaml");
    assert_eq!(old, "9000");
    assert_eq!(new, "8080");
    let (old, new) = replaced(b"name: old\n", "$.name", "\"new\"", "yml");
    assert_eq!(old, "old");
    assert_eq!(new, "new");
}

#[test]
fn yaml_refuses_block_scalars_and_sequences() {
    assert_eq!(yaml_scalar_span(b"a: |\n  text\n", &[Seg::Key("a".into())]), None);
    assert_eq!(yaml_scalar_span(b"a:\n  - 1\n", &[Seg::Key("a".into()), Seg::Index(0)]), None);
    assert_eq!(yaml_scalar_span(b"# a: 1\na: 2\n", &[Seg::Key("a".into())]), Some((10, 11)));
}

#[test]
fn json_spans_of_nested_values() {
    let doc = br#"{"a": {"b": [10, {"c": "x\"y"}]}, "d": true}"#;
    let segs = parse_path("$.a.b[1].c").unwrap();
    let Lookup::Span(s, e) = json_value_span(doc, &segs) else { panic!("no span") };
    assert_eq!(&doc[s..e], br#""x\"y""#);
    let segs = parse_path("$.d").unwrap();
    let Lookup::Span(s, e) = json_value_span(doc, &segs) else { panic!("no span") };
    assert_eq!(&doc[s..e], b"true");
    assert_eq!(json_value_span(&[0xff, b'{', b'}'], &segs), Lookup::Missing);
}

#[test]
fn paths_parse_into_steps() {
    assert_eq!(
        parse_path("$.a.b[2].c").unwrap(),
        vec![
            Seg::Key("a".into()),
            Seg::Key("b".into()),
            Seg::Index(2),
            Seg::Key("c".into())
        ]
    );
    assert_eq!(parse_path("x[0][1]").unwrap(), vec![Seg::Key("x".into()), Seg::Index(0), Seg::Index(1)]);
    assert_eq!(parse_path("$"), Err(PathError::EmptyPath));
    assert_eq!(parse_path("a[1"), Err(PathError::UnclosedIndex));
    assert_eq!(parse_path("a[x]"), Err(PathError::NonNumericIndex));
}

#[test]
fn invalid_requests_are_refused() {
    assert_eq!(
        plan_data_set(b"{}", "$.a", "{oops", "json").unwrap_err(),
        DataError::InvalidValueJson
    );
    assert_eq!(
        plan_data_set(b"{}", "$", "1", "json").unwrap_err(),
        DataError::Path(PathError::EmptyPath)
    );
    assert!(matches!(
        plan_data_set(b"x", "$.a", "1", "ini").unwrap(),
        DataPlan::Refuse { status: Status::NotFound, matches: 0 }
    ));
}

#[test]
fn repeated_json_key_is_ambiguous() {
    let plan = plan_data_set(b"{\"port\": 1, \"port\": 2}\n", "$.port", "3", "json").unwrap();
    assert!(matches!(plan, DataPlan::Refuse { status: Status::Ambiguous, matches: 2 }));
    assert_eq!(Status::Ambiguous.exit_code(), 11);
    let segs = parse_path("$.a.b").unwrap();
    assert_eq!(json_value_span(b"{\"a\": {\"b\": 1}, \"a\": 2}", &segs), Lookup::Ambiguous(2));
}

#[test]
fn yaml_deeper_indentation_and_trailing_comment() {
    let content = b"# heading\nserver:\n    port: 9000  # keep this comment\n    host: x\n";
    let (old, new) = replaced(content, "$.server.port", "8080", "yaml");
    assert_eq!(old, "9000");
    assert_eq!(new, "8080");
    let (old, _) = replaced(content, "$.server.host", "\"y\"", "yaml");
    assert_eq!(old, "x");
    assert_eq!(yaml_scalar_span(b"a: # nothing\n", &[Seg::Key("a".into())]), None);
}
