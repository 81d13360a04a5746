use greppy::query_cache::{
    normalize_query_text, query_cache_max_bytes, query_cache_removals, QUERY_CACHE_DB_FILE,
};

#[test]
fn normalize_collapses_whitespace() {
    assert_eq!(
        normalize_query_text("  reverse   linked\t\nlist "),
        "reverse linked list"
    );
    assert_eq!(normalize_query_text(""), "");
    assert_eq!(normalize_query_text("   "), "");
    assert_eq!(normalize_query_text("Foo"), "Foo");
}

#[test]
fn normalize_is_idempotent_on_examples() {
    let once = normalize_query_text("\u{3000}a\u{a0}\u{a0}b  c\r\n");
    assert_eq!(once, "a b c");
    assert_eq!(normalize_query_text(&once), once);
}

#[test]
fn normalize_keeps_case() {
    assert_ne!(normalize_query_text("Foo"), normalize_query_text("foo"));
}

#[test]
fn cache_file_name() {
    assert_eq!(QUERY_CACHE_DB_FILE, "query_cache.db");
}

#[test]
fn max_bytes_saturates() {
    assert_eq!(query_cache_max_bytes(2), 2 * 1024 * 1024);
    assert_eq!(query_cache_max_bytes(i64::MAX), i64::MAX);
    assert_eq!(query_cache_max_bytes(-1), -1024 * 1024);
}

#[test]
fn removals_within_limits_are_zero() {
    assert_eq!(query_cache_removals(10_000, 100, 1000), 0);
    assert_eq!(query_cache_removals(5, 5_000, 0), 0);
}

#[test]
fn removals_over_entry_cap_trim_to_8000() {
    assert_eq!(query_cache_removals(10_001, 100, 1_000_000), 2_001);
}

#[test]
fn removals_over_byte_budget_keep_eighty_percent_share() {
    // 100 rows in 2000 bytes, budget 1000: 80% of budget = 800 bytes, 40 rows.
    assert_eq!(query_cache_removals(100, 2_000, 1_000), 60);
    // Never below one row.
    assert_eq!(query_cache_removals(3, 1_000_000, 1), 2);
}
