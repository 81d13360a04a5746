use greppy::changes::{
    render_text, CallsiteImpact, FileSummary, UnknownImpact,
    absent_symbol_reason, changed_statuses, compare_definitions, definition_snapshot,
    fallback_signature, is_reported_row, is_test_node, lines_of, normalize_space, source_like,
    source_span, split_nul, std_extension_of, summarize_files, test_path, ChangedFile,
    DefinitionChangeKind, DefinitionSnapshot, FileStatus, ParsedSnapshot,
};

fn def(label: &str, qname: &str, body: &str, sig: &str) -> DefinitionSnapshot {
    DefinitionSnapshot {
        label: label.into(),
        name: qname.rsplit("::").next().unwrap().into(),
        qualified_name: qname.into(),
        start_line: 1,
        end_line: 3,
        signature: sig.into(),
        body: body.into(),
    }
}

#[test]
fn nul_fields_drop_empty_ones() {
    let f = split_nul(b"M\0a.rs\0\0A\0b\0");
    assert_eq!(f, vec![b"M".to_vec(), b"a.rs".to_vec(), b"A".to_vec(), b"b".to_vec()]);
    assert!(split_nul(b"").is_empty());
}

#[test]
fn name_status_and_untracked_merge_in_path_order() {
    let diff = b"M\0src\\lib.rs\0D\0old.rs\0A\0added.rs\0M\0old.rs\0X";
    let untracked = b"new.rs\0added.rs\0";
    let t = changed_statuses(diff, Some(untracked));
    let got: Vec<(&str, FileStatus)> = t.iter().map(|(p, s)| (p.as_str(), *s)).collect();
    assert_eq!(
        got,
        vec![
            ("added.rs", FileStatus::Added),
            ("new.rs", FileStatus::Added),
            ("old.rs", FileStatus::Modified),
            ("src/lib.rs", FileStatus::Modified),
        ]
    );
    let t2 = changed_statuses(b"D\0gone.rs\0", None);
    assert_eq!(t2.len(), 1);
    assert_eq!(t2[0].1, FileStatus::Deleted);
    assert!(!FileStatus::Added.has_before());
    assert!(!FileStatus::Deleted.has_after());
    assert_eq!(FileStatus::Modified.marker(), 'M');
    assert_eq!(FileStatus::Deleted.as_str(), "deleted");
}

#[test]
fn lines_follow_str_lines() {
    assert_eq!(lines_of("a\r\nb\n"), vec!["a".to_string(), "b".to_string()]);
    assert_eq!(lines_of("a\nb\r"), vec!["a".to_string(), "b\r".to_string()]);
    assert!(lines_of("").is_empty());
}

#[test]
fn source_span_takes_line_range() {
    let src = "one\ntwo\nthree\nfour\n";
    assert_eq!(source_span(src, 2, 3), "two\nthree");
    assert_eq!(source_span(src, 3, 99), "three\nfour");
    assert_eq!(source_span(src, 0, 2), "");
    assert_eq!(source_span(src, 3, 2), "");
    assert_eq!(source_span(src, 9, 12), "");
}

#[test]
fn whitespace_is_normalized() {
    assert_eq!(normalize_space("  fn   a(x:\ti32)  "), "fn a(x: i32)");
    assert_eq!(normalize_space(" \n "), "");
}

#[test]
fn fallback_signatures() {
    assert_eq!(fallback_signature("fn foo(x: i32) -> i32 {\n    x\n}"), "fn foo(x: i32) -> i32");
    assert_eq!(fallback_signature("def run(self,\n        arg):\n    pass"), "def run(self, arg)");
    assert_eq!(fallback_signature("const X: u8 = 1;"), "const X: u8 = 1;");
    assert_eq!(fallback_signature(""), "");
}

#[test]
fn structural_rows_are_not_definitions() {
    assert!(!is_reported_row("File", "a.rs"));
    assert!(!is_reported_row("Module", "crate::a::__file__"));
    assert!(is_reported_row("Module", "crate::a"));
    assert!(is_reported_row("Function", "crate::a::f"));
}

#[test]
fn definition_snapshot_uses_parser_signature_or_fallback() {
    let bytes = b"// header\nfn f(a: u8) {\n    a;\n}\n";
    let d = definition_snapshot("Function".into(), "f".into(), "m::f".into(), 2, 4, None, bytes);
    assert_eq!(d.body, "fn f(a: u8) {\n    a;\n}");
    assert_eq!(d.signature, "fn f(a: u8)");
    let d2 = definition_snapshot("Function".into(), "f".into(), "m::f".into(), 2, 4, Some("  fn  f(a:u8) "), bytes);
    assert_eq!(d2.signature, "fn f(a:u8)");
    let d3 = definition_snapshot("Function".into(), "f".into(), "m::f".into(), 2, 4, Some("   "), bytes);
    assert_eq!(d3.signature, "fn f(a: u8)");
}

#[test]
fn definitions_compare_in_report_order() {
    let before = vec![
        def("Function", "m::b", "b1", "fn b()"),
        def("Function", "m::a", "a1", "fn a()"),
        def("Function", "m::gone", "g", "fn gone()"),
        def("Function", "m::same", "s", "fn same()"),
    ];
    let after = vec![
        def("Function", "m::a", "a2", "fn a(x: u8)"),
        def("Function", "m::b", "b2", "fn b()"),
        def("Function", "m::new", "n", "fn new()"),
        def("Function", "m::same", "s", "fn same()"),
    ];
    let changes = compare_definitions(&before, &after);
    let got: Vec<(DefinitionChangeKind, &str, bool)> =
        changes.iter().map(|c| (c.kind, c.qualified_name.as_str(), c.signature_changed)).collect();
    assert_eq!(
        got,
        vec![
            (DefinitionChangeKind::Modified, "m::a", true),
            (DefinitionChangeKind::Modified, "m::b", false),
            (DefinitionChangeKind::Added, "m::new", false),
            (DefinitionChangeKind::Deleted, "m::gone", false),
        ]
    );
    assert_eq!(changes[3].before_span, Some((1, 3)));
    assert_eq!(changes[3].after_span, None);
    assert_eq!(changes[0].before_signature.as_deref(), Some("fn a()"));
    assert_eq!(DefinitionChangeKind::Added.as_str(), "added");
}

#[test]
fn summaries_mark_parser_indexed_files() {
    let changed = vec![
        ChangedFile { path: "a.rs".into(), status: FileStatus::Modified, before: None, after: None },
        ChangedFile { path: "b.rs".into(), status: FileStatus::Added, before: None, after: None },
    ];
    let before = ParsedSnapshot {
        definitions: vec![("a.rs".into(), vec![def("Function", "m::f", "x", "fn f()")])],
        indexed_paths: vec!["a.rs".into()],
    };
    let after = ParsedSnapshot {
        definitions: vec![
            ("a.rs".into(), vec![def("Function", "m::f", "y", "fn f()")]),
            ("b.rs".into(), vec![def("Module", "b::__file__", "", "")]),
        ],
        indexed_paths: vec!["a.rs".into(), "b.rs".into()],
    };
    let s = summarize_files(&changed, &before, &after);
    assert!(s[0].parser_indexed);
    assert_eq!(s[0].definitions.len(), 1);
    assert_eq!(s[0].definitions[0].kind, DefinitionChangeKind::Modified);
    assert!(!s[1].parser_indexed);
    assert_eq!(s[1].definitions.len(), 1);
    assert_eq!(s[1].definitions[0].kind, DefinitionChangeKind::Added);
}

#[test]
fn test_and_source_paths() {
    assert!(test_path("crates/x/tests/it.rs"));
    assert!(test_path("src/Test/x.py"));
    assert!(test_path("pkg/test_util.py"));
    assert!(test_path("pkg/util_test.go"));
    assert!(!test_path("src/lib.rs"));
    assert!(!test_path("src/contest/x.rs"));
    assert!(source_like("src/lib.RS"));
    assert!(source_like("a/b.tsx"));
    assert!(!source_like("README.md"));
    assert!(!source_like(".rs"));
    assert!(!source_like("Makefile"));
    assert_eq!(std_extension_of("a/b.tar.gz"), "gz");
    assert_eq!(std_extension_of("a/.bashrc"), "");
    assert_eq!(std_extension_of("dir/file."), "");
    assert!(is_test_node("TEST", "src/a.rs", "f"));
    assert!(is_test_node("Function", "src/a.rs", "test_f"));
    assert!(is_test_node("Function", "src/a.rs", "f_test"));
    assert!(!is_test_node("Function", "src/a.rs", "f"));
    assert_eq!(
        absent_symbol_reason("m::f"),
        "changed symbol m::f is absent from the workspace graph"
    );
}

#[test]
fn changes_text_report() {
    let before = vec![def("Function", "m::f", "x", "fn f()")];
    let after = vec![DefinitionSnapshot { start_line: 4, end_line: 9, ..def("Function", "m::f", "y", "fn f(a: u8)") }];
    let files = vec![
        FileSummary {
            path: "src/a.rs".into(),
            status: FileStatus::Modified,
            parser_indexed: true,
            definitions: compare_definitions(&before, &after),
        },
        FileSummary { path: "README.md".into(), status: FileStatus::Added, parser_indexed: false, definitions: vec![] },
    ];
    let calls = vec![CallsiteImpact { changed_symbol: "m::f".into(), caller: "m::g".into(), file: "src/b.rs".into(), line: -3 }];
    let unknown = vec![UnknownImpact { path: "x.py".into(), reason: "why".into() }];
    let lines = render_text("HEAD", "0123456789abcdef", &files, &calls, &[], &unknown);
    assert_eq!(lines[0], "changes: HEAD (0123456789ab) -> working tree");
    assert_eq!(lines[1], "");
    assert_eq!(lines[2], "M src/a.rs");
    assert_eq!(lines[3], "  modified m::f [Function] lines 4-9");
    assert_eq!(lines[4], "    signature: fn f() -> fn f(a: u8)");
    assert_eq!(lines[6], "A README.md");
    assert_eq!(lines[7], "  unindexed or no parser-backed definitions");
    assert_eq!(lines[9], "callsite impact (direct callers):");
    assert_eq!(lines[10], "  m::f <- m::g src/b.rs:-3");
    assert_eq!(lines[13], "  known_impacted:");
    assert_eq!(lines[14], "    (none known)");
    assert_eq!(lines[16], "    x.py: why");
    let empty = render_text("main", "abc", &[], &[], &[], &[]);
    assert_eq!(empty[1], "(no changes)");
}
