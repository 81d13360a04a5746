use greppy::map::{
    build_commands, language_for_path, language_summaries, large_subtrees, listed,
    module_summaries, relative_display, render_text, source_path, suggestions, test_roots,
    BuildFiles, ModuleSummary, SourceFile,
};

fn file(p: &str) -> SourceFile {
    SourceFile { rel_path: p.to_string(), language: language_for_path(p) }
}

#[test]
fn languages_by_extension() {
    assert_eq!(language_for_path("src/lib.RS"), Some("rust"));
    assert_eq!(language_for_path("a/b.pyi"), Some("python"));
    assert_eq!(language_for_path("x.tar.zsh"), Some("shell"));
    assert_eq!(language_for_path("Makefile"), None);
    assert_eq!(language_for_path("dir.d/README"), None);
    assert_eq!(language_for_path("q.sql"), Some("sql"));
}

#[test]
fn scope_paths() {
    assert_eq!(source_path(".", "Cargo.toml"), "Cargo.toml");
    assert_eq!(source_path("crates/a", "Cargo.toml"), "crates/a/Cargo.toml");
    assert_eq!(relative_display("/ws", "/ws/crates/a"), "crates/a");
    assert_eq!(relative_display("/ws", "/ws"), ".");
    assert_eq!(relative_display("/ws", "/other"), ".");
    assert_eq!(relative_display("/ws", "/wsx/a"), ".");
}

#[test]
fn language_summaries_most_files_first() {
    let files = vec![file("a.rs"), file("b.rs"), file("c.py"), file("d.go"), file("README.md")];
    let indexed = vec!["a.rs".to_string(), "c.py".to_string()];
    let s = language_summaries(&files, &indexed);
    let got: Vec<(&str, usize, usize)> = s.iter().map(|l| (l.language.as_str(), l.files, l.indexed_files)).collect();
    assert_eq!(got, vec![("rust", 2, 1), ("go", 1, 0), ("python", 1, 1)]);
}

#[test]
fn test_roots_are_directories() {
    let files = vec![file("tests/a.rs"), file("crates/x/tests/b.rs"), file("spec"), file("src/Test/c.py")];
    assert_eq!(
        test_roots(&files),
        vec!["crates/x/tests".to_string(), "src/Test".to_string(), "tests".to_string()]
    );
}

#[test]
fn modules_and_subtrees() {
    let files = vec![file("src/a.rs"), file("src/b/c.rs"), file("vendor/x.c"), file("top.rs"), file("vendor/y.c"), file("vendor/z.c")];
    let mods = module_summaries(".", &["src".to_string(), "vendor".to_string()], &files);
    assert_eq!(mods[0].path, "src");
    assert_eq!(mods[0].files, 2);
    assert!(!mods[0].collapsed);
    assert!(mods[1].collapsed);
    let subs = large_subtrees(".", &files);
    let got: Vec<(&str, usize, bool)> = subs.iter().map(|m| (m.path.as_str(), m.files, m.collapsed)).collect();
    assert_eq!(got, vec![("vendor", 3, true), ("src", 2, false)]);
    let nested = large_subtrees("src", &files);
    assert_eq!(nested.len(), 1);
    assert_eq!(nested[0].path, "src/b");
}

#[test]
fn suggestions_fall_back() {
    let mods = vec![
        ModuleSummary { path: "app".into(), files: 3, collapsed: false },
        ModuleSummary { path: "vendor".into(), files: 9, collapsed: true },
    ];
    assert_eq!(suggestions(".", &mods), vec!["greppy map app/".to_string(), "greppy map src/".to_string()]);
    let many = vec![
        ModuleSummary { path: "a".into(), files: 1, collapsed: false },
        ModuleSummary { path: "b".into(), files: 5, collapsed: false },
        ModuleSummary { path: "c".into(), files: 5, collapsed: false },
        ModuleSummary { path: "d".into(), files: 2, collapsed: false },
    ];
    assert_eq!(
        suggestions(".", &many),
        vec!["greppy map b/".to_string(), "greppy map c/".to_string(), "greppy map d/".to_string()]
    );
    assert_eq!(suggestions("x", &[]), vec!["greppy map x/src/".to_string(), "greppy map x/tests/".to_string()]);
}

#[test]
fn build_commands_from_project_files() {
    let present = BuildFiles {
        cargo_toml: true,
        go_mod: false,
        pytest_ini: false,
        pyproject_toml: true,
        tox_ini: false,
        package_json: true,
    };
    let scripts = vec!["build".to_string(), "test".to_string(), "test:unit".to_string()];
    let cmds = build_commands(".", &present, &scripts, Some(("Makefile", "all:\ntest :\n\tgo test\ncheckout:\n")));
    let got: Vec<(&str, &str)> = cmds.iter().map(|c| (c.command.as_str(), c.source.as_str())).collect();
    assert_eq!(
        got,
        vec![
            ("cargo test", "Cargo.toml"),
            ("make test", "Makefile"),
            ("npm run test:unit", "package.json"),
            ("npm test", "package.json"),
            ("pytest", "pyproject.toml"),
        ]
    );
    assert!(listed("sub", &[file("sub/Cargo.toml")], "Cargo.toml"));
    assert!(!listed(".", &[file("sub/Cargo.toml")], "Cargo.toml"));
}

#[test]
fn map_text_layout() {
    let files = vec![file("src/a.rs")];
    let langs = language_summaries(&files, &[]);
    let mods = vec![ModuleSummary { path: "src".into(), files: 1, collapsed: false }];
    let lines = render_text("/ws", ".", &langs, &mods, &[], &[], &[], &["greppy map src/".to_string()]);
    assert_eq!(lines[0], "project: /ws");
    assert_eq!(lines[1], "scope: .");
    assert_eq!(lines[4], "  rust             1 files  indexed: no");
    assert_eq!(lines[7], format!("  {:<28} {:>5} files", "src", 1));
    assert_eq!(lines[10], "  (none detected)");
    assert_eq!(lines.last().unwrap(), "try: greppy map src/");
    assert!(lines.len() <= 60);
}
