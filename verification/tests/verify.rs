use greppy::testrun::CommandRun;
use greppy::verify::{
    cache_key, decode_cache, display_exit, early_infrastructure_report, encode_cache,
    first_output_line, ls_files_record_path, report_header, workspace_digest, TrackedEntry,
};
use sha2::Digest;

fn sha_hex(bytes: &[u8]) -> String {
    sha2::Sha256::digest(bytes).iter().map(|b| format!("{b:02x}")).collect()
}

fn run(exit: Option<i32>, out: &[u8], err: &[u8]) -> CommandRun {
    CommandRun { exit_code: exit, stdout: out.to_vec(), stderr: err.to_vec(), timed_out: false, spawn_error: None }
}

#[test]
fn cache_round_trips() {
    for r in [run(Some(0), b"ok\n", b""), run(Some(-3), b"", b"boom"), run(None, b"x", b"y")] {
        let bytes = encode_cache(&r).unwrap();
        assert!(bytes.starts_with(b"greppy-verify-cache-v1\0"));
        let back = decode_cache(&bytes).unwrap();
        assert_eq!(back.exit_code, r.exit_code);
        assert_eq!(back.stdout, r.stdout);
        assert_eq!(back.stderr, r.stderr);
    }
    let mut timed = run(Some(0), b"", b"");
    timed.timed_out = true;
    assert!(encode_cache(&timed).is_none());
    assert!(decode_cache(b"greppy-verify-cache-v0\0aaaaaaaaaaaaaaa").is_none());
    let bytes = encode_cache(&run(Some(1), b"abc", b"de")).unwrap();
    assert!(decode_cache(&bytes[..bytes.len() - 1]).is_none());
    let mut longer = bytes.clone();
    longer.extend_from_slice(b"trailing");
    assert_eq!(decode_cache(&longer).unwrap().stderr, b"de".to_vec());
}

#[test]
fn cache_key_hashes_revision_command_and_mirrors() {
    let key = cache_key("abc", &["cargo".to_string(), "test".to_string()], &["target".to_string()]);
    assert_eq!(key, sha_hex(b"abc\0cargo\0test\0target\0"));
}

#[test]
fn workspace_digest_frames_records() {
    let records = vec![b"100644 h 0\ta.txt".to_vec(), b"100644 h 0\tgone".to_vec()];
    let entries = vec![TrackedEntry::File(b"one".to_vec()), TrackedEntry::Missing];
    let mut input = Vec::new();
    input.extend_from_slice(&(records[0].len() as u64).to_le_bytes());
    input.extend_from_slice(&records[0]);
    input.extend_from_slice(b"file\0one");
    input.extend_from_slice(&(records[1].len() as u64).to_le_bytes());
    input.extend_from_slice(&records[1]);
    input.extend_from_slice(b"missing\0");
    assert_eq!(workspace_digest(&records, &entries), sha_hex(&input));
    let changed = vec![TrackedEntry::File(b"two".to_vec()), TrackedEntry::Missing];
    assert_ne!(workspace_digest(&records, &entries), workspace_digest(&records, &changed));
    assert_eq!(ls_files_record_path(b"100644 abc 0\tdir/a b.txt"), Some(b"dir/a b.txt".to_vec()));
    assert_eq!(ls_files_record_path(b"no tab"), None);
}

#[test]
fn report_lines() {
    assert_eq!(first_output_line(b"\n  fatal: not a git repository  \nmore", "x"), "fatal: not a git repository");
    assert_eq!(first_output_line(b"  \n", "fallback"), "fallback");
    assert_eq!(display_exit(None), "not-run");
    assert_eq!(display_exit(Some(-1)), "-1");
    let report = early_infrastructure_report(&vec!["pytest".to_string()], "HEAD", "workspace", "no  git\nhere");
    assert_eq!(report.exit_code, 22);
    assert_eq!(report.infrastructure_error[0].evidence_line, "no git here");
    let lines = report_header(&report);
    assert_eq!(
        lines[0],
        "verify: newly_failed=0 fixed=0 preexisting_failed=0 still_passing=0 not_run_in_after=0 infrastructure_error=1"
    );
    assert_eq!(lines[1], "framework: unknown | baseline=HEAD exit=not-run | after_exit=not-run");
    assert_eq!(lines[2], "workspace: before= after= unchanged=false");
}
