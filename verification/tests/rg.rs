use greppy::rg::{is_rg_style, translate_to_grep, type_globs};

fn os(args: &[&str]) -> Vec<String> {
    args.iter().map(|s| s.to_string()).collect()
}

#[test]
fn detects_rg_only_flags() {
    assert!(is_rg_style(&os(&["--smart-case", "foo"])));
    assert!(is_rg_style(&os(&["-S", "foo"])));
    assert!(is_rg_style(&os(&["-tpy", "foo"])));
    assert!(is_rg_style(&os(&["--glob=*.rs", "foo"])));
    assert!(is_rg_style(&os(&["-g", "!target", "foo"])));
    assert!(is_rg_style(&os(&["--files"])));
}

#[test]
fn leaves_grep_invocations_alone() {
    assert!(!is_rg_style(&os(&["-Rn", "foo", "."])));
    // BSD grep's combined recursive+follow cluster stays grep.
    assert!(!is_rg_style(&os(&["-RS", "foo", "."])));
    assert!(!is_rg_style(&os(&["-s", "foo", "f.txt"])));
    assert!(!is_rg_style(&os(&["--include=*.rs", "-r", "foo", "."])));
    // Everything after `--` is positional, never a flag.
    assert!(!is_rg_style(&os(&["-n", "foo", "--", "--smart-case"])));
}

#[test]
fn smart_case_lowercase_pattern_becomes_insensitive() {
    let out = translate_to_grep(&os(&["--smart-case", "beta"]), false).unwrap();
    assert_eq!(out, ["-E", "-i", "-e", "beta", "-r", "--", "."]);
}

#[test]
fn smart_case_uppercase_pattern_stays_sensitive() {
    let out = translate_to_grep(&os(&["-S", "Beta"]), false).unwrap();
    assert_eq!(out, ["-E", "-e", "Beta", "-r", "--", "."]);
}

#[test]
fn type_selector_maps_to_includes() {
    let out = translate_to_grep(&os(&["-trust", "foo", "src"]), false).unwrap();
    assert_eq!(out, ["-E", "--include=*.rs", "-e", "foo", "-r", "--", "src"]);
}

#[test]
fn negated_glob_maps_to_excludes() {
    let s = translate_to_grep(&os(&["-g", "!target", "foo"]), false).unwrap();
    assert!(s.contains(&"--exclude=target".to_string()));
    assert!(s.contains(&"--exclude-dir=target".to_string()));
}

#[test]
fn path_shaped_glob_refuses() {
    let err = translate_to_grep(&os(&["-g", "src/**/*.rs", "foo"]), false).unwrap_err();
    assert!(err.contains("--glob"), "{err}");
}

#[test]
fn files_flag_refuses_with_find_hint() {
    let err = translate_to_grep(&os(&["--files"]), false).unwrap_err();
    assert!(err.contains("find PATH -type f"), "{err}");
}

#[test]
fn replace_refuses_with_edit_hint() {
    let err = translate_to_grep(&os(&["foo", "-r", "bar"]), false).unwrap_err();
    assert!(err.contains("greppy edit regex-cas"), "{err}");
}

#[test]
fn cluster_with_attached_context_value() {
    let out = translate_to_grep(&os(&["-inA3", "foo", "src"]), false).unwrap();
    assert_eq!(out, ["-E", "-i", "-n", "-A", "3", "-e", "foo", "-r", "--", "src"]);
}

#[test]
fn fixed_strings_switches_engine() {
    let out = translate_to_grep(&os(&["-F", "a.b(c)", "src"]), false).unwrap();
    assert_eq!(out[0], "-F");
}

#[test]
fn stdin_mode_omits_recursion_and_path() {
    let out = translate_to_grep(&os(&["--smart-case", "beta"]), true).unwrap();
    assert_eq!(out, ["-E", "-i", "-e", "beta"]);
}

#[test]
fn follow_uses_capital_r() {
    let out = translate_to_grep(&os(&["-L", "foo", "src"]), false).unwrap();
    assert!(out.contains(&"-R".to_string()));
}

#[test]
fn dashes_split_pattern_and_paths() {
    let out = translate_to_grep(&os(&["-n", "--", "-weird", "dir"]), false).unwrap();
    assert_eq!(out, ["-E", "-n", "-e", "-weird", "-r", "--", "dir"]);
}

#[test]
fn unknown_long_flag_refuses_loudly() {
    let err = translate_to_grep(&os(&["--frobnicate", "foo"]), false).unwrap_err();
    assert!(err.contains("--frobnicate"), "{err}");
}

#[test]
fn missing_pattern_refuses() {
    let err = translate_to_grep(&os(&["--smart-case"]), false).unwrap_err();
    assert!(err.contains("without a pattern"), "{err}");
}

#[test]
fn explicit_regexp_makes_first_positional_a_path() {
    let out = translate_to_grep(&os(&["-e", "foo", "src"]), false).unwrap();
    assert_eq!(out, ["-E", "-e", "foo", "-r", "--", "src"]);
}

#[test]
fn long_flags_with_attached_values() {
    let out = translate_to_grep(&os(&["--max-count=3", "--type=py", "--color", "never", "x"]), false)
        .unwrap();
    assert_eq!(
        out,
        ["-E", "-m", "3", "--include=*.py", "--include=*.pyi", "--color=never", "-e", "x", "-r", "--", "."]
    );
    let err = translate_to_grep(&os(&["--max-count"]), false).unwrap_err();
    assert_eq!(err, "greppy: ripgrep flag '--max-count' is missing its value");
}

#[test]
fn pcre_engine_and_dropped_flags() {
    let out = translate_to_grep(&os(&["--engine", "pcre2", "--hidden", "--sort", "path", "x"]), false)
        .unwrap();
    assert_eq!(out, ["-P", "-e", "x", "-r", "--", "."]);
}

#[test]
fn unknown_type_and_short_refusals() {
    let err = translate_to_grep(&os(&["-T", "nosuch", "x"]), false).unwrap_err();
    assert!(err.contains("--type-not nosuch"), "{err}");
    let err = translate_to_grep(&os(&["-U", "x"]), false).unwrap_err();
    assert!(err.contains("-U (--multiline)"), "{err}");
    let err = translate_to_grep(&os(&["-K", "x"]), false).unwrap_err();
    assert!(err.starts_with("greppy: ripgrep flag '-K' has no grep translation"), "{err}");
}

#[test]
fn type_table_lookups() {
    assert_eq!(type_globs("make"), Some("Makefile makefile GNUmakefile *.mk"));
    assert_eq!(type_globs("nosuch"), None);
}
