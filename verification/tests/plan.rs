use greppy::certificate::{PublishMode, Status};
use greppy::plan::{
    check_plan_schema, find_all, group_by_file, journal_failure_outcome, plan_file_ops,
    plan_publication, plan_publish_mode, plan_status, transaction_id, Plan, PlanAction,
    PlanError, PlanOperation, PlanPreconditions, PlanPublication, PlanPublish, PlanPublishMode,
    PlanSelector, PlanWorkspace, PublishOutcome, PLAN_SCHEMA, shadow_skips, operation_changed_ranges, operation_reports,
};
use greppy::txn::{apply_in_memory, outside_ranges_unchanged};
use sha2::Digest;

fn hex(bytes: &[u8]) -> String {
    bytes.iter().map(|b| format!("{b:02x}")).collect()
}

fn sha_hex(bytes: &[u8]) -> String {
    hex(&sha2::Sha256::digest(bytes))
}

fn text_op(id: &str, file: &str, old: &str, expect: usize, action: PlanAction) -> PlanOperation {
    PlanOperation {
        id: id.to_string(),
        file: file.to_string(),
        selector: PlanSelector::Text { old_text: old.to_string(), expect },
        action,
        preconditions: PlanPreconditions { file_sha256: None, target_sha256: None },
    }
}

fn replace(content: &str) -> PlanAction {
    PlanAction::Replace { content: content.to_string() }
}

#[test]
fn find_all_is_leftmost_non_overlapping() {
    assert_eq!(find_all(b"aaaa", b"aa"), vec![0, 2]);
    assert_eq!(find_all(b"abcabc", b"bc"), vec![1, 4]);
    assert_eq!(find_all(b"abc", b""), Vec::<usize>::new());
    assert_eq!(find_all(b"ab", b"abc"), Vec::<usize>::new());
}

#[test]
fn text_replace_plans_one_range() {
    let content = b"VALUE = 1\n";
    let sha = sha_hex(content);
    let ops = vec![text_op("op-a", "a.py", "VALUE = 1", 1, replace("VALUE = 2"))];
    let planned = plan_file_ops(content, &sha, &ops).unwrap();
    assert_eq!(planned.len(), 1);
    assert_eq!(planned[0].id, "op-a-0");
    assert_eq!(planned[0].range, (0, 9));
    assert_eq!(planned[0].replacement, b"VALUE = 2".to_vec());
}

#[test]
fn ambiguous_selector_refuses_the_file() {
    let content = b"VALUE = 1\nVALUE = 1\n";
    let sha = sha_hex(content);
    let ops = vec![text_op("op-a", "a.py", "VALUE = 1", 1, replace("VALUE = 2"))];
    assert_eq!(plan_file_ops(content, &sha, &ops).unwrap_err(), Status::Ambiguous);
}

#[test]
fn expected_count_edits_every_occurrence() {
    let content = b"x = 1\nx = 1\n";
    let sha = sha_hex(content);
    let ops = vec![text_op("op", "a.py", "x = 1", 2, PlanAction::Delete)];
    let planned = plan_file_ops(content, &sha, &ops).unwrap();
    assert_eq!(planned.len(), 2);
    assert_eq!(planned[0].range, (0, 5));
    assert_eq!(planned[1].range, (6, 11));
    assert_eq!(planned[1].id, "op-1");
    assert!(planned[1].replacement.is_empty());
}

#[test]
fn missing_text_is_not_found() {
    let content = b"VALUE = 1\n";
    let sha = sha_hex(content);
    let ops = vec![text_op("op-a", "a.py", "LIMIT", 1, replace("x"))];
    assert_eq!(plan_file_ops(content, &sha, &ops).unwrap_err(), Status::NotFound);
}

#[test]
fn stale_file_hash_refuses() {
    let content = b"VALUE = 1\n";
    let mut op = text_op("op-a", "a.py", "VALUE = 1", 1, replace("VALUE = 2"));
    op.preconditions.file_sha256 = Some(sha_hex(b"something else"));
    let sha = sha_hex(content);
    assert_eq!(plan_file_ops(content, &sha, &[op]).unwrap_err(), Status::Stale);
}

#[test]
fn target_hash_is_checked_against_the_range() {
    let content = b"fn a() {}\nfn b() {}\n";
    let sha = sha_hex(content);
    let mut op = PlanOperation {
        id: "r".into(),
        file: "a.rs".into(),
        selector: PlanSelector::Resolved { byte_start: 10, byte_end: 19 },
        action: replace("fn c() {}"),
        preconditions: PlanPreconditions { file_sha256: Some(sha.clone()), target_sha256: Some(sha_hex(b"fn b() {}")) },
    };
    let planned = plan_file_ops(content, &sha, std::slice::from_ref(&op)).unwrap();
    assert_eq!(planned[0].range, (10, 19));
    op.preconditions.target_sha256 = Some(sha_hex(b"fn a() {}"));
    assert_eq!(plan_file_ops(content, &sha, &[op]).unwrap_err(), Status::Stale);
}

#[test]
fn insertions_go_on_their_own_lines() {
    let content = b"a\nb\n";
    let sha = sha_hex(content);
    let ops = vec![
        text_op("after", "f", "a", 1, PlanAction::InsertAfter { content: "x".into() }),
        text_op("before", "f", "b", 1, PlanAction::InsertBefore { content: "y\n".into() }),
    ];
    let planned = plan_file_ops(content, &sha, &ops).unwrap();
    assert_eq!(planned[0].range, (1, 1));
    assert_eq!(planned[0].replacement, b"\nx\n".to_vec());
    assert_eq!(planned[1].range, (2, 2));
    assert_eq!(planned[1].replacement, b"y\n\n".to_vec());
}

#[test]
fn operations_group_by_file_in_key_order() {
    let ops = vec![
        text_op("1", "b.py", "x", 1, PlanAction::Delete),
        text_op("2", "a.py", "x", 1, PlanAction::Delete),
        text_op("3", "b.py", "y", 1, PlanAction::Delete),
    ];
    let groups = group_by_file(&ops);
    assert_eq!(groups.len(), 2);
    assert_eq!(groups[0].0, "a.py");
    assert_eq!(groups[0].1, vec![1]);
    assert_eq!(groups[1].0, "b.py");
    assert_eq!(groups[1].1, vec![0, 2]);
}

#[test]
fn transaction_id_hashes_the_expected_hashes() {
    let hashes = vec!["h1".to_string(), "h2".to_string()];
    let full = sha_hex(b"h1:h2");
    assert_eq!(transaction_id(&hashes), format!("ge-{}", &full[..16]));
    let full_empty = sha_hex(b"");
    assert_eq!(transaction_id(&[]), format!("ge-{}", &full_empty[..16]));
}

#[test]
fn schema_is_checked() {
    let mut plan = Plan {
        schema_version: PLAN_SCHEMA.to_string(),
        workspace: PlanWorkspace { root: ".".into(), expect_git_head: None, require_unchanged_files: true },
        operations: vec![],
        validators: vec![],
        publish: PlanPublish { mode: PlanPublishMode::Journal },
    };
    assert!(check_plan_schema(&plan).is_ok());
    plan.schema_version = "greppy.edit-plan.v0".into();
    let err = check_plan_schema(&plan).unwrap_err();
    assert_eq!(err.message(), "unsupported plan schema: greppy.edit-plan.v0");
}

#[test]
fn publication_follows_mode_and_refusal() {
    assert_eq!(plan_publication(None, false, PlanPublishMode::Journal, 2), Ok(PlanPublication::Journal));
    assert_eq!(plan_publication(None, false, PlanPublishMode::Patch, 2), Ok(PlanPublication::Nothing));
    assert_eq!(plan_publication(None, true, PlanPublishMode::Journal, 2), Ok(PlanPublication::Nothing));
    assert_eq!(
        plan_publication(Some(Status::Ambiguous), false, PlanPublishMode::Journal, 2),
        Ok(PlanPublication::Nothing)
    );
    assert_eq!(plan_publication(None, false, PlanPublishMode::Atomic, 1), Ok(PlanPublication::Atomic));
    assert_eq!(
        plan_publication(None, false, PlanPublishMode::Atomic, 2),
        Err(PlanError::AtomicNeedsSingleFile)
    );
    assert_eq!(plan_publish_mode(PlanPublishMode::Journal, true), PublishMode::DryRun);
    assert_eq!(plan_publish_mode(PlanPublishMode::Patch, false), PublishMode::Patch);
}

#[test]
fn final_status_of_a_plan() {
    assert_eq!(plan_status(None, PublishOutcome::Published), (Status::Applied, true));
    assert_eq!(plan_status(None, PublishOutcome::NotAttempted), (Status::Applied, false));
    assert_eq!(plan_status(Some(Status::Ambiguous), PublishOutcome::NotAttempted), (Status::Ambiguous, false));
    assert_eq!(plan_status(None, PublishOutcome::Stale), (Status::Stale, false));
    assert_eq!(plan_status(None, PublishOutcome::Failed), (Status::PublishFailed, false));
    assert_eq!(
        journal_failure_outcome("stale plan: a.py changed since planning; nothing was written"),
        PublishOutcome::Stale
    );
    assert_eq!(journal_failure_outcome("write failed"), PublishOutcome::Failed);
}

#[test]
fn shadow_copy_leaves_out_repository_journal_and_lock() {
    assert!(shadow_skips(".git"));
    assert!(shadow_skips(".greppy-edit-journal"));
    assert!(shadow_skips(".greppy-edit.lock"));
    assert!(!shadow_skips("src"));
    assert!(!shadow_skips(".gitignore"));
}

fn resolved_op(id: &str, file: &str, start: usize, end: usize, action: PlanAction) -> PlanOperation {
    PlanOperation {
        id: id.to_string(),
        file: file.to_string(),
        selector: PlanSelector::Resolved { byte_start: start, byte_end: end },
        action,
        preconditions: PlanPreconditions { file_sha256: None, target_sha256: None },
    }
}

#[test]
fn grow_then_shrink_reports_original_offsets() {
    let content = b"alpha beta gamma\n";
    let sha = sha_hex(content);
    let ops = vec![
        resolved_op("grow-first", "offsets.txt", 0, 5, replace("ALPHA-LONG")),
        resolved_op("shrink-last", "offsets.txt", 11, 16, replace("G")),
    ];
    let planned = plan_file_ops(content, &sha, &ops).unwrap();
    let after = apply_in_memory(content, &planned).unwrap();
    assert_eq!(after, b"ALPHA-LONG beta G\n".to_vec());
    assert!(outside_ranges_unchanged(content, &after, &planned));
    assert!(!outside_ranges_unchanged(content, b"ALPHA-LONG beta G?", &planned));
    let changed: Vec<_> = ops.iter().map(|op| operation_changed_ranges(content, op)).collect();
    let reports = operation_reports(&ops, &changed);
    assert_eq!(reports.len(), 2);
    assert_eq!(reports[0].id, "grow-first");
    assert_eq!(reports[0].changed_byte_ranges, vec![(0, 5)]);
    assert_eq!(reports[1].changed_byte_ranges, vec![(11, 16)]);
}

#[test]
fn refused_plan_still_reports_every_operation_in_order() {
    let ops = vec![
        text_op("operation-1", "one.txt", "old", 1, replace("new")),
        text_op("operation-2", "two.txt", "old", 1, replace("new")),
        text_op("operation-3", "three.txt", "old", 1, replace("new")),
    ];
    let changed = vec![Some(vec![(6, 9)]), Some(vec![(6, 9)]), None];
    let reports = operation_reports(&ops, &changed);
    let ids: Vec<&str> = reports.iter().map(|r| r.id.as_str()).collect();
    assert_eq!(ids, vec!["operation-1", "operation-2", "operation-3"]);
    assert_eq!(reports[2].target_matches, 0);
    assert!(reports[2].changed_byte_ranges.is_empty());
    let insert = text_op("ins", "f", "b", 1, PlanAction::InsertAfter { content: "x".into() });
    assert_eq!(operation_changed_ranges(b"abc", &insert), Some(vec![(2, 2)]));
}
