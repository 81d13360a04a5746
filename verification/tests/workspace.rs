use greppy::cpu_features::CpuFeatures;
use greppy::workspace::{
    dir_mode_default, parent_path, path_ancestors, project_identity, should_evict,
    store_cache_root, store_path, store_ttl_secs, workspace_hash, writer_lock_name, LockError,
    STORE_TTL_DAYS_DEFAULT,
};
use sha2::Digest;

fn sha_hex(bytes: &[u8]) -> String {
    sha2::Sha256::digest(bytes).iter().map(|b| format!("{b:02x}")).collect()
}

#[test]
fn workspace_hash_is_deterministic_and_changes_with_path() {
    let a = workspace_hash("/tmp/ws-a");
    assert_eq!(a, workspace_hash("/tmp/ws-a"));
    assert_eq!(a.len(), 16);
    assert_eq!(a, sha_hex(b"/tmp/ws-a")[..16]);
    assert_ne!(a, workspace_hash("/tmp/ws-b"));
}

#[test]
fn store_path_is_store_dir_plus_graph_db() {
    assert_eq!(store_path("/data/greppy/abc"), "/data/greppy/abc/graph.db");
    assert_eq!(store_path("/data/greppy/abc/"), "/data/greppy/abc/graph.db");
}

#[test]
fn parents_follow_path_parent() {
    assert_eq!(parent_path("/a/b").as_deref(), Some("/a"));
    assert_eq!(parent_path("/a").as_deref(), Some("/"));
    assert_eq!(parent_path("/"), None);
    assert_eq!(parent_path(""), None);
    assert_eq!(parent_path("a").as_deref(), Some(""));
    assert_eq!(parent_path("a/b/").as_deref(), Some("a"));
    assert_eq!(store_cache_root("/data/greppy/0123456789abcdef").as_deref(), Some("/data/greppy"));
    assert_eq!(path_ancestors("/a/b"), vec!["/a/b".to_string(), "/a".to_string(), "/".to_string()]);
    assert_eq!(path_ancestors("a/b"), vec!["a/b".to_string(), "a".to_string()]);
}

#[test]
fn project_identity_names() {
    assert_eq!(project_identity("/home/u/repo/sub", Some("/home/u/repo")), "repo");
    assert_eq!(project_identity("/home/u/loose", None), "loose");
    assert_eq!(project_identity("/", None), "default");
}

#[test]
fn ttl_from_environment() {
    assert_eq!(store_ttl_secs(None), STORE_TTL_DAYS_DEFAULT * 86400);
    assert_eq!(store_ttl_secs(Some(" 0 ")), 0);
    assert_eq!(store_ttl_secs(Some("3")), 3 * 86400);
    assert_eq!(store_ttl_secs(Some("soon")), 14 * 86400);
    assert_eq!(store_ttl_secs(Some("18446744073709551615")), u64::MAX);
    assert_eq!(dir_mode_default(), 0o700);
}

#[test]
fn eviction_decisions() {
    assert!(!should_evict(0, false, Some((1_000_000, 0))));
    assert!(!should_evict(100, true, Some((1_000, 0))));
    assert!(!should_evict(100, false, None));
    assert!(!should_evict(100, false, Some((100, 0))));
    assert!(should_evict(100, false, Some((100, 1))));
    assert!(should_evict(100, false, Some((101, 0))));
}

#[test]
fn writer_lock_names() {
    assert_eq!(
        writer_lock_name("/data/greppy/0123456789abcdef/graph.db", "/elsewhere"),
        "workspace-0123456789abcdef.writer"
    );
    let h = workspace_hash("/canon/store");
    assert_eq!(writer_lock_name("/x/store/graph.db", "/canon/store"), format!("workspace-{h}.writer"));
    let e = LockError::Held { path: "/locks/w.writer".into() };
    assert_eq!(e.message(), "lock held by another writer; path: /locks/w.writer");
}

#[test]
fn cpu_features_default_to_none() {
    let f = CpuFeatures::default();
    assert_eq!(f, CpuFeatures::none());
    assert!(!f.avx2 && !f.neon);
}

#[test]
fn cpu_feature_queries_read_the_detected_record() {
    let mut f = CpuFeatures::none();
    f.avx2 = true;
    f.i8mm = true;
    assert!(f.has_avx2() && f.has_i8mm());
    assert!(!f.has_avx_vnni() && !f.has_fma() && !f.has_dotprod());
}
