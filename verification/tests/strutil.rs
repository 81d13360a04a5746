use greppy::strutil::{
    contains, ends_with, path_base, path_dir, path_ext, path_join, path_join_n, split, starts_with,
    strip_ext,
};

#[test]
fn path_join_basic() {
    assert_eq!(path_join("a", "b"), "a/b");
    assert_eq!(path_join("a/b", "c"), "a/b/c");
}

#[test]
fn path_join_strips_slashes() {
    assert_eq!(path_join("a/", "b"), "a/b");
    assert_eq!(path_join("a", "/b"), "a/b");
    assert_eq!(path_join("a///", "///b"), "a/b");
}

#[test]
fn path_join_empty_components() {
    assert_eq!(path_join("", "b"), "b");
    assert_eq!(path_join("a", ""), "a");
    assert_eq!(path_join("", ""), "");
}

#[test]
fn path_join_all_slashes_base() {
    assert_eq!(path_join("///", "b"), "b");
    assert_eq!(path_join("a", "///"), "a");
}

#[test]
fn path_join_n_folds() {
    assert_eq!(path_join_n(&["a", "b", "c"]), "a/b/c");
    assert_eq!(path_join_n(&["a/", "/b/", "/c"]), "a/b/c");
    assert_eq!(path_join_n(&["solo"]), "solo");
    assert_eq!(path_join_n(&Vec::<&str>::new()), "");
}

#[test]
fn ext_basic() {
    assert_eq!(path_ext("file.rs"), "rs");
    assert_eq!(path_ext("a/b/file.tar.gz"), "gz");
    assert_eq!(path_ext("noext"), "");
}

#[test]
fn ext_dot_before_slash_is_none() {
    assert_eq!(path_ext("a.b/c"), "");
    assert_eq!(path_ext("a.b/c.d"), "d");
}

#[test]
fn ext_trailing_dot() {
    assert_eq!(path_ext("file."), "");
}

#[test]
fn base_basic() {
    assert_eq!(path_base("a/b/c.rs"), "c.rs");
    assert_eq!(path_base("noslash"), "noslash");
    assert_eq!(path_base("/abs/path"), "path");
}

#[test]
fn base_trailing_slash() {
    assert_eq!(path_base("a/b/"), "");
}

#[test]
fn dir_basic() {
    assert_eq!(path_dir("a/b/c.rs"), "a/b");
    assert_eq!(path_dir("noslash"), ".");
    assert_eq!(path_dir("/abs"), "");
    assert_eq!(path_dir("a/b/"), "a/b");
}

#[test]
fn strip_ext_basic() {
    assert_eq!(strip_ext("file.rs"), "file");
    assert_eq!(strip_ext("a/b/file.tar.gz"), "a/b/file.tar");
    assert_eq!(strip_ext("noext"), "noext");
}

#[test]
fn strip_ext_dot_before_slash_unchanged() {
    assert_eq!(strip_ext("a.b/c"), "a.b/c");
}

#[test]
fn substring_helpers() {
    assert!(starts_with("foobar", "foo"));
    assert!(!starts_with("foobar", "bar"));
    assert!(ends_with("foobar", "bar"));
    assert!(!ends_with("foobar", "foo"));
    assert!(contains("foobar", "oob"));
    assert!(!contains("foobar", "xyz"));
    assert!(contains("foobar", ""));
    assert!(contains("", ""));
}

#[test]
fn split_basic() {
    assert_eq!(split("a,b,c", ','), vec!["a", "b", "c"]);
    assert_eq!(split("single", ','), vec!["single"]);
}

#[test]
fn split_preserves_empty_fields() {
    assert_eq!(split("a,,b", ','), vec!["a", "", "b"]);
    assert_eq!(split(",a", ','), vec!["", "a"]);
    assert_eq!(split("a,", ','), vec!["a", ""]);
    assert_eq!(split("", ','), vec![""]);
    assert_eq!(split(",", ','), vec!["", ""]);
}

#[test]
fn doc_examples_hold() {
    assert_eq!(path_join("a/", "/b"), "a/b");
    assert_eq!(path_ext("a/b.rs"), "rs");
    assert_eq!(path_ext(".gitignore"), "gitignore");
    assert_eq!(strip_ext("a/b.rs"), "a/b");
    assert_eq!(path_base("a/b/"), "");
}

#[test]
fn stem_dot_and_ext_rebuild_the_path() {
    for p in ["a/b/file.tar.gz", "file.", ".gitignore", "x.y/z.w"] {
        assert_eq!(format!("{}.{}", strip_ext(p), path_ext(p)), p);
    }
    assert_eq!(strip_ext("a.b/c"), "a.b/c");
    assert_eq!(path_ext("a.b/c"), "");
}

#[test]
fn dir_slash_and_base_rebuild_the_path() {
    for p in ["a/b/c.rs", "/abs", "a/b/", "x/ü/ñ"] {
        assert_eq!(format!("{}/{}", path_dir(p), path_base(p)), p);
    }
}

#[test]
fn split_rejoins_and_counts_fields() {
    for s in ["a,,b", ",", "", "ä,ö,ü,"] {
        let fields = split(s, ',');
        assert_eq!(fields.join(","), s);
        assert_eq!(fields.len(), s.matches(',').count() + 1);
    }
}

#[test]
fn non_ascii_paths_are_character_exact() {
    assert_eq!(path_ext("dír/fïle.ñx"), "ñx");
    assert_eq!(path_join("α/", "/β"), "α/β");
    assert!(contains("naïve", "ïv"));
}
