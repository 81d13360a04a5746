use greppy::journal::{
    entry_recovery, journal_begin, journal_on_done, journal_on_failed, journal_on_live,
    journal_on_saved, lock_action, pre_image_name, recovery_plan, stale_message, EntryRecovery,
    FilePublication, Journal, JournalAction, JournalEntry, JournalPhase, LockAction, LockAttempt,
    RecoveryPlan,
};
use sha2::Digest;

fn sha_hex(bytes: &[u8]) -> String {
    sha2::Sha256::digest(bytes).iter().map(|b| format!("{b:02x}")).collect()
}

fn pubfile(rel: &str, old: &[u8], new: &[u8]) -> FilePublication {
    FilePublication { rel_path: rel.into(), expected_live_sha256: sha_hex(old), content: new.to_vec() }
}

fn crash_journal(committed: bool) -> Journal {
    Journal {
        schema_version: "greppy.edit-journal.v1".into(),
        transaction_id: "tx-crash".into(),
        committed,
        entries: vec![JournalEntry {
            rel_path: "a.txt".into(),
            pre_image_file: "pre-0000.bin".into(),
            pre_sha256: sha_hex(b"a1"),
            post_sha256: sha_hex(b"a2"),
        }],
    }
}

#[test]
fn pre_image_names_are_zero_padded() {
    assert_eq!(pre_image_name(0), "pre-0000.bin");
    assert_eq!(pre_image_name(7), "pre-0007.bin");
    assert_eq!(pre_image_name(1234), "pre-1234.bin");
    assert_eq!(pre_image_name(12345), "pre-12345.bin");
}

#[test]
fn lock_decisions() {
    assert_eq!(lock_action(0, LockAttempt::Created), LockAction::Acquired);
    assert_eq!(lock_action(0, LockAttempt::Exists(Some(5))), LockAction::Busy);
    assert_eq!(lock_action(0, LockAttempt::Exists(Some(601))), LockAction::RemoveStale { retry: true });
    assert_eq!(lock_action(1, LockAttempt::Exists(None)), LockAction::RemoveStale { retry: false });
    assert_eq!(lock_action(0, LockAttempt::Failed), LockAction::Failed);
}

#[test]
fn recover_restores_committed_journal_plan() {
    let j = crash_journal(true);
    assert_eq!(recovery_plan(&j, &[sha_hex(b"a2")]), RecoveryPlan::Restore(vec![0]));
    assert_eq!(recovery_plan(&j, &[sha_hex(b"a1")]), RecoveryPlan::Restore(vec![]));
}

#[test]
fn recover_refuses_foreign_edits_plan() {
    let j = crash_journal(true);
    assert_eq!(
        recovery_plan(&j, &[sha_hex(b"SOMEONE ELSE")]),
        RecoveryPlan::Refuse { restore: vec![], at: 0 }
    );
    assert_eq!(entry_recovery(&j.entries[0], ""), EntryRecovery::Refuse);
}

#[test]
fn uncommitted_journal_is_discarded() {
    assert_eq!(recovery_plan(&crash_journal(false), &[String::new()]), RecoveryPlan::Discard);
}

fn expect_finish_ok(a: JournalAction) {
    match a {
        JournalAction::Finish(Ok(id)) => assert!(id.starts_with("tx-")),
        other => panic!("expected success, got {other:?}"),
    }
}

#[test]
fn two_file_transaction_runs_every_step() {
    let files = vec![pubfile("a.txt", b"a1", b"a2"), pubfile("b.txt", b"b1", b"b2")];
    let (mut run, a) = journal_begin("tx-1", &files);
    assert!(matches!(a, JournalAction::ReadLive(0)));
    assert!(matches!(journal_on_live(&mut run, &files, b"a1"), JournalAction::ReadLive(1)));
    assert!(matches!(journal_on_live(&mut run, &files, b"b1"), JournalAction::CreateDir));
    match journal_on_done(&mut run, &files) {
        JournalAction::SavePreImage { index: 0, name } => assert_eq!(name, "pre-0000.bin"),
        other => panic!("unexpected {other:?}"),
    }
    match journal_on_saved(&mut run, &files, b"a1") {
        JournalAction::SavePreImage { index: 1, name } => assert_eq!(name, "pre-0001.bin"),
        other => panic!("unexpected {other:?}"),
    }
    match journal_on_saved(&mut run, &files, b"b1") {
        JournalAction::WriteJournal(j) => {
            assert!(!j.committed);
            assert_eq!(j.transaction_id, "tx-1");
            assert_eq!(j.entries.len(), 2);
            assert_eq!(j.entries[1].pre_sha256, sha_hex(b"b1"));
            assert_eq!(j.entries[1].post_sha256, sha_hex(b"b2"));
        }
        other => panic!("unexpected {other:?}"),
    }
    match journal_on_done(&mut run, &files) {
        JournalAction::WriteJournal(j) => assert!(j.committed),
        other => panic!("unexpected {other:?}"),
    }
    assert!(matches!(journal_on_done(&mut run, &files), JournalAction::Publish(0)));
    assert!(matches!(journal_on_done(&mut run, &files), JournalAction::Publish(1)));
    assert!(matches!(
        journal_on_done(&mut run, &files),
        JournalAction::RemoveJournal { best_effort: false }
    ));
    expect_finish_ok(journal_on_done(&mut run, &files));
    assert_eq!(run.phase, JournalPhase::Finished);
    assert_eq!(run.published, 2);
}

#[test]
fn stale_second_file_stops_before_writing() {
    let files = vec![pubfile("a.txt", b"a1", b"a2"), pubfile("b.txt", b"b1", b"b2")];
    let (mut run, _) = journal_begin("tx-2", &files);
    journal_on_live(&mut run, &files, b"a1");
    match journal_on_live(&mut run, &files, b"CHANGED") {
        JournalAction::Finish(Err(m)) => {
            assert_eq!(m, "stale plan: b.txt changed since planning; nothing was written");
            assert_eq!(m, stale_message("b.txt"));
        }
        other => panic!("unexpected {other:?}"),
    }
    assert_eq!(run.published, 0);
}

#[test]
fn failed_publication_rolls_back_published_files() {
    let files = vec![pubfile("a.txt", b"a1", b"a2"), pubfile("b.txt", b"b1", b"b2")];
    let (mut run, _) = journal_begin("tx-3", &files);
    journal_on_live(&mut run, &files, b"a1");
    journal_on_live(&mut run, &files, b"b1");
    journal_on_done(&mut run, &files);
    journal_on_saved(&mut run, &files, b"a1");
    journal_on_saved(&mut run, &files, b"b1");
    journal_on_done(&mut run, &files);
    journal_on_done(&mut run, &files);
    assert!(matches!(journal_on_done(&mut run, &files), JournalAction::Publish(1)));
    match journal_on_failed(&mut run, &files, "disk full".to_string()) {
        JournalAction::Restore { index: 0, name } => assert_eq!(name, "pre-0000.bin"),
        other => panic!("unexpected {other:?}"),
    }
    assert!(matches!(
        journal_on_done(&mut run, &files),
        JournalAction::RemoveJournal { best_effort: true }
    ));
    match journal_on_failed(&mut run, &files, "ignored".to_string()) {
        JournalAction::Finish(Err(m)) => assert_eq!(m, "disk full"),
        other => panic!("unexpected {other:?}"),
    }
}

#[test]
fn empty_transaction_writes_only_the_journal() {
    let files: Vec<FilePublication> = vec![];
    let (mut run, a) = journal_begin("tx-0", &files);
    assert!(matches!(a, JournalAction::CreateDir));
    assert!(matches!(journal_on_done(&mut run, &files), JournalAction::WriteJournal(_)));
    assert!(matches!(journal_on_done(&mut run, &files), JournalAction::WriteJournal(_)));
    assert!(matches!(journal_on_done(&mut run, &files), JournalAction::RemoveJournal { .. }));
    expect_finish_ok(journal_on_done(&mut run, &files));
}

#[test]
fn crash_midway_restores_only_published_files() {
    let entry = |i: usize, pre: &[u8], post: &[u8]| JournalEntry {
        rel_path: format!("f{i}.txt"),
        pre_image_file: pre_image_name(i),
        pre_sha256: sha_hex(pre),
        post_sha256: sha_hex(post),
    };
    let j = Journal {
        schema_version: "greppy.edit-journal.v1".into(),
        transaction_id: "tx-mid".into(),
        committed: true,
        entries: vec![entry(0, b"a1", b"a2"), entry(1, b"b1", b"b2"), entry(2, b"c1", b"c2")],
    };
    let live = [sha_hex(b"a2"), sha_hex(b"b2"), sha_hex(b"c1")];
    assert_eq!(recovery_plan(&j, &live), RecoveryPlan::Restore(vec![0, 1]));
}
