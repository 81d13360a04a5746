use greppy::spans::definition_end_idx;

fn idx(src: &str) -> usize {
    let lines: Vec<&str> = src.lines().collect();
    definition_end_idx(&lines, 0)
}

#[test]
fn balances_simple_block() {
    assert_eq!(idx("fn f() {\n    body();\n}\nfn g() {}"), 2);
}

#[test]
fn semicolon_item_ends_on_its_line() {
    assert_eq!(idx("type A = B;\nfn f() {}"), 0);
}

#[test]
fn brace_in_string_is_ignored() {
    assert_eq!(idx("fn f() {\n    let s = \"}\";\n    done();\n}"), 3);
}

#[test]
fn brace_in_line_comment_is_ignored() {
    assert_eq!(idx("fn f() {\n    // } not the end\n    done();\n}"), 3);
}

#[test]
fn unclosed_block_stops_at_window_end() {
    let mut lines = vec!["fn f() {"];
    lines.extend(std::iter::repeat("    x();").take(1000));
    assert_eq!(definition_end_idx(&lines, 0), 400);
    assert_eq!(definition_end_idx(&lines, 10), 10);
}

#[test]
fn no_block_and_no_semicolon_returns_start() {
    let lines = vec!["fn f()", "where T: X"];
    assert_eq!(definition_end_idx(&lines, 0), 0);
    assert_eq!(definition_end_idx(&lines, 5), 5);
    assert_eq!(definition_end_idx(&[], 0), 0);
}

#[test]
fn escaped_quote_stays_inside_literal() {
    assert_eq!(idx("fn f() {\n  let s = \"\\\"}\";\n}"), 2);
    assert_eq!(idx("fn f() { let c = '}'; }"), 0);
}

#[test]
fn nested_blocks_balance() {
    assert_eq!(idx("impl A {\n  fn f() {\n  }\n}\nx"), 3);
}
