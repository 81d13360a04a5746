//! Logical all-or-nothing multi-file publication with a pre-image journal.
//!
//! Protocol: take the workspace lock; re-verify every input hash under the
//! lock; write the journal (per file the pre-image bytes and both hashes),
//! then mark it `committed`; publish every file atomically; remove the
//! journal on success, or roll back every already-published file from its
//! pre-image and remove the journal on failure. A crash between commit and
//! removal leaves a committed journal that recovery rolls back.
//!
//! The file system work is done by the caller; this module decides, step by
//! step, what is done next, and what recovery does with a journal found on
//! disk.

use vstd::prelude::*;
use crate::hash::sha256_hex;
use crate::hash::sha256_hex_spec;
use crate::testrun::digits_spec;
use crate::testrun::digits_string;
use vstd::string::*;

verus! {

broadcast use vstd::string::group_string_axioms;

/// The journal directory, relative to the workspace root.
pub const JOURNAL_DIR: &'static str = ".greppy-edit-journal";

/// The journal file inside the journal directory.
pub const JOURNAL_FILE: &'static str = "journal.json";

/// The workspace lock file, relative to the workspace root.
pub const LOCK_NAME: &'static str = ".greppy-edit.lock";

/// The schema identifier of a journal.
pub const JOURNAL_SCHEMA: &'static str = "greppy.edit-journal.v1";

/// A lock file older than this many seconds belongs to a crashed process.
pub const LOCK_STALE_AFTER_SECS: u64 = 600;

/// One file of a journal.
#[derive(Debug, Clone)]
pub struct JournalEntry {
    pub rel_path: String,
    pub pre_image_file: String,
    pub pre_sha256: String,
    pub post_sha256: String,
}

/// The journal of one transaction.
#[derive(Debug, Clone)]
pub struct Journal {
    pub schema_version: String,
    pub transaction_id: String,
    pub committed: bool,
    pub entries: Vec<JournalEntry>,
}

/// One planned file publication.
#[derive(Debug, Clone)]
pub struct FilePublication {
    pub rel_path: String,
    pub expected_live_sha256: String,
    pub content: Vec<u8>,
}

/// What recovery did.
#[derive(Debug, Clone, PartialEq, Eq)]
pub enum Recovery {
    NothingToRecover,
    RolledBack { transaction_id: String, files: usize },
    DiscardedUncommitted,
}

/// `d` left-padded with zeros to at least `w` characters.
pub open spec fn zero_pad(d: Seq<char>, w: nat) -> Seq<char> {
    if d.len() >= w {
        d
    } else {
        Seq::new((w - d.len()) as nat, |k: int| '0') + d
    }
}

/// The pre-image file name of the `i`-th file: `pre-0000.bin`, ...
pub open spec fn pre_image_name_spec(i: nat) -> Seq<char> {
    "pre-"@ + zero_pad(digits_spec(i), 4) + ".bin"@
}

/// The pre-image file name of the `i`-th file of a transaction.
pub fn pre_image_name(i: usize) -> (r: String)
    ensures
        r@ == pre_image_name_spec(i as nat),
{
    let d = digits_string(i as u64);
    let mut r = String::from_str("pre-");
    proof {
        reveal_strlit("pre-");
        reveal_strlit(".bin");
    }
    let n = d.as_str().unicode_len();
    if n < 4 {
        let mut k: usize = 0;
        while k < 4 - n
            invariant
                n < 4,
                k <= 4 - n,
                r@ == "pre-"@ + Seq::new(k as nat, |q: int| '0'),
            decreases 4 - n - k,
        {
            crate::text::push_char(&mut r, '0');
            assert(Seq::new((k + 1) as nat, |q: int| '0') =~= Seq::new(k as nat, |q: int| '0').push('0'));
            k = k + 1;
        }
    }
    r.append(d.as_str());
    r.append(".bin");
    proof {
        if n < 4 {
            assert(r@ =~= "pre-"@ + zero_pad(digits_spec(i as nat), 4) + ".bin"@);
        } else {
            assert(r@ =~= "pre-"@ + zero_pad(digits_spec(i as nat), 4) + ".bin"@);
        }
    }
    r
}

/// The journal entry of file `i`, from the bytes saved as its pre-image.
pub open spec fn entry_spec(i: nat, f: FilePublication, pre: Seq<u8>) -> (Seq<char>, Seq<char>, Seq<char>, Seq<char>) {
    (f.rel_path@, pre_image_name_spec(i), sha256_hex_spec(pre), sha256_hex_spec(f.content@))
}

/// An entry as plain values.
pub open spec fn entry_view(e: JournalEntry) -> (Seq<char>, Seq<char>, Seq<char>, Seq<char>) {
    (e.rel_path@, e.pre_image_file@, e.pre_sha256@, e.post_sha256@)
}

/// The journal entry of the `i`-th file, whose pre-image holds `pre`.
pub fn journal_entry(i: usize, f: &FilePublication, pre: &[u8]) -> (e: JournalEntry)
    ensures
        entry_view(e) == entry_spec(i as nat, *f, pre@),
{
    JournalEntry {
        rel_path: f.rel_path.clone(),
        pre_image_file: pre_image_name(i),
        pre_sha256: sha256_hex(pre),
        post_sha256: sha256_hex(f.content.as_slice()),
    }
}

/// A lock file whose age is unknown, or above ten minutes, is stale.
pub open spec fn lock_is_stale_spec(age_secs: Option<u64>) -> bool {
    match age_secs {
        Some(a) => a > LOCK_STALE_AFTER_SECS,
        None => true,
    }
}

/// How an attempt to create the lock file went.
#[derive(Debug, Clone, Copy, PartialEq, Eq, Structural)]
pub enum LockAttempt {
    /// The lock file was created.
    Created,
    /// A lock file exists; its age in seconds, if it could be read.
    Exists(Option<u64>),
    /// Creating the file failed otherwise.
    Failed,
}

/// What to do after an attempt to take the lock.
#[derive(Debug, Clone, Copy, PartialEq, Eq, Structural)]
pub enum LockAction {
    /// The lock is held.
    Acquired,
    /// Remove the stale lock file, then try again if `retry`, else give up.
    RemoveStale { retry: bool },
    /// Another transaction holds the lock.
    Busy,
    /// The lock file could not be created.
    Failed,
}

/// The number of attempts to take the lock.
pub const LOCK_ATTEMPTS: u32 = 2;

/// Decides on attempt `attempt` (from 0) to take the workspace lock: a
/// stale lock is removed and the attempt repeated, at most twice in all.
pub fn lock_action(attempt: u32, outcome: LockAttempt) -> (r: LockAction)
    ensures
        r == (match outcome {
            LockAttempt::Created => LockAction::Acquired,
            LockAttempt::Exists(age) => if lock_is_stale_spec(age) {
                LockAction::RemoveStale { retry: attempt + 1 < LOCK_ATTEMPTS }
            } else {
                LockAction::Busy
            },
            LockAttempt::Failed => LockAction::Failed,
        }),
{
    match outcome {
        LockAttempt::Created => LockAction::Acquired,
        LockAttempt::Exists(age) => {
            let stale = match age {
                Some(a) => a > LOCK_STALE_AFTER_SECS,
                None => true,
            };
            if stale {
                LockAction::RemoveStale { retry: attempt < LOCK_ATTEMPTS - 1 }
            } else {
                LockAction::Busy
            }
        },
        LockAttempt::Failed => LockAction::Failed,
    }
}

/// The message of a busy workspace lock.
pub fn lock_busy_message() -> (r: String)
    ensures
        r@ == "another greppy edit transaction holds the workspace lock"@,
{
    String::from_str("another greppy edit transaction holds the workspace lock")
}

/// The message when the lock could not be taken in two attempts.
pub fn lock_gave_up_message() -> (r: String)
    ensures
        r@ == "could not acquire workspace lock"@,
{
    String::from_str("could not acquire workspace lock")
}

/// The refusal of a file that changed since planning.
pub open spec fn stale_message_spec(rel_path: Seq<char>) -> Seq<char> {
    "stale plan: "@ + rel_path + " changed since planning; nothing was written"@
}

/// The refusal of a file that changed since planning.
pub fn stale_message(rel_path: &str) -> (r: String)
    ensures
        r@ == stale_message_spec(rel_path@),
{
    let mut m = String::from_str("stale plan: ");
    m.append(rel_path);
    m.append(" changed since planning; nothing was written");
    m
}

/// What recovery does with one entry of a committed journal, given the
/// live file's hash (empty when it cannot be read).
#[derive(Debug, Clone, Copy, PartialEq, Eq, Structural)]
pub enum EntryRecovery {
    /// The file still has its pre-image: it was never published.
    Skip,
    /// The file has the transaction's post-image: restore the pre-image.
    Restore,
    /// Someone else changed the file after the crash.
    Refuse,
}

/// The recovery of one entry.
pub open spec fn entry_recovery_spec(pre: Seq<char>, post: Seq<char>, live: Seq<char>) -> EntryRecovery {
    if live == pre {
        EntryRecovery::Skip
    } else if live == post {
        EntryRecovery::Restore
    } else {
        EntryRecovery::Refuse
    }
}

/// Decides the recovery of one journal entry from the live file's hash.
pub fn entry_recovery(entry: &JournalEntry, live_sha256: &str) -> (r: EntryRecovery)
    ensures
        r == entry_recovery_spec(entry.pre_sha256@, entry.post_sha256@, live_sha256@),
{
    if crate::text::str_eq(live_sha256, entry.pre_sha256.as_str()) {
        EntryRecovery::Skip
    } else if crate::text::str_eq(live_sha256, entry.post_sha256.as_str()) {
        EntryRecovery::Restore
    } else {
        EntryRecovery::Refuse
    }
}

/// What recovery does with a journal found on disk.
#[derive(Debug, Clone, PartialEq, Eq)]
pub enum RecoveryPlan {
    /// The journal was never committed: nothing was published; discard it.
    Discard,
    /// Restore the pre-images of these entries, in order, then remove the
    /// journal.
    Restore(Vec<usize>),
    /// Restore these entries, then refuse at entry `at`, whose file someone
    /// else changed.
    Refuse { restore: Vec<usize>, at: usize },
}

/// The entries among the first `n` that are restored, in order.
pub open spec fn restored_prefix(pre: Seq<Seq<char>>, post: Seq<Seq<char>>, live: Seq<Seq<char>>, n: int) -> Seq<int>
    decreases n,
{
    if n <= 0 {
        Seq::empty()
    } else if entry_recovery_spec(pre[n - 1], post[n - 1], live[n - 1]) == EntryRecovery::Restore {
        restored_prefix(pre, post, live, n - 1).push(n - 1)
    } else {
        restored_prefix(pre, post, live, n - 1)
    }
}

/// The first entry that recovery refuses, if any.
pub open spec fn first_refused(pre: Seq<Seq<char>>, post: Seq<Seq<char>>, live: Seq<Seq<char>>, from: int) -> Option<int>
    decreases pre.len() - from,
{
    if from < 0 || from >= pre.len() {
        None
    } else if entry_recovery_spec(pre[from], post[from], live[from]) == EntryRecovery::Refuse {
        Some(from)
    } else {
        first_refused(pre, post, live, from + 1)
    }
}

/// The pre-image hashes of a journal's entries.
pub open spec fn pre_hashes(es: Seq<JournalEntry>) -> Seq<Seq<char>> {
    Seq::new(es.len(), |i: int| es[i].pre_sha256@)
}

/// The post-image hashes of a journal's entries.
pub open spec fn post_hashes(es: Seq<JournalEntry>) -> Seq<Seq<char>> {
    Seq::new(es.len(), |i: int| es[i].post_sha256@)
}

/// The recovery of a journal: an uncommitted one is discarded; a committed
/// one restores, in order, every entry whose file carries the post-image,
/// up to the first file that carries neither image.
pub open spec fn recovery_plan_spec(committed: bool, pre: Seq<Seq<char>>, post: Seq<Seq<char>>, live: Seq<Seq<char>>) -> (bool, Seq<int>, Option<int>) {
    if !committed {
        (false, Seq::empty(), None)
    } else {
        match first_refused(pre, post, live, 0) {
            Some(at) => (true, restored_prefix(pre, post, live, at), Some(at)),
            None => (true, restored_prefix(pre, post, live, pre.len() as int), None),
        }
    }
}

/// The plan as plain values: whether it is committed, the restored entries
/// and the refused entry.
pub open spec fn recovery_plan_view(p: RecoveryPlan) -> (bool, Seq<int>, Option<int>) {
    match p {
        RecoveryPlan::Discard => (false, Seq::empty(), None),
        RecoveryPlan::Restore(v) => (true, Seq::new(v@.len(), |i: int| v@[i] as int), None),
        RecoveryPlan::Refuse { restore, at } => (true, Seq::new(restore@.len(), |i: int| restore@[i] as int), Some(at as int)),
    }
}

/// Decides what recovery does with a journal, given each entry's live file
/// hash (empty where the file cannot be read).
pub fn recovery_plan(journal: &Journal, live_sha256: &[String]) -> (r: RecoveryPlan)
    requires
        live_sha256@.len() == journal.entries@.len(),
    ensures
        recovery_plan_view(r) == recovery_plan_spec(
            journal.committed,
            pre_hashes(journal.entries@),
            post_hashes(journal.entries@),
            crate::rg::views(live_sha256@),
        ),
{
    if !journal.committed {
        return RecoveryPlan::Discard;
    }
    let ghost pre = pre_hashes(journal.entries@);
    let ghost post = post_hashes(journal.entries@);
    let ghost live = crate::rg::views(live_sha256@);
    let mut restore: Vec<usize> = Vec::new();
    let mut i: usize = 0;
    while i < journal.entries.len()
        invariant
            journal.committed,
            live_sha256@.len() == journal.entries@.len(),
            pre == pre_hashes(journal.entries@),
            post == post_hashes(journal.entries@),
            live == crate::rg::views(live_sha256@),
            i <= journal.entries@.len(),
            first_refused(pre, post, live, 0) == first_refused(pre, post, live, i as int),
            Seq::new(restore@.len(), |q: int| restore@[q] as int) == restored_prefix(pre, post, live, i as int),
        decreases journal.entries.len() - i,
    {
        let d = entry_recovery(&journal.entries[i], live_sha256[i].as_str());
        assert(d == entry_recovery_spec(pre[i as int], post[i as int], live[i as int]));
        match d {
            EntryRecovery::Refuse => {
                assert(first_refused(pre, post, live, i as int) == Some(i as int));
                return RecoveryPlan::Refuse { restore, at: i };
            },
            EntryRecovery::Restore => {
                let ghost before = restore@;
                restore.push(i);
                assert(Seq::new(restore@.len(), |q: int| restore@[q] as int) =~= Seq::new(
                    before.len(),
                    |q: int| before[q] as int,
                ).push(i as int));
            },
            EntryRecovery::Skip => {},
        }
        i = i + 1;
    }
    RecoveryPlan::Restore(restore)
}

/// The refusal of an entry whose file someone else changed after a crash.
pub fn foreign_edit_message(rel_path: &str) -> (r: String)
    ensures
        r@ == "recover: "@ + rel_path@ + " was modified after the crashed transaction; resolve manually"@,
{
    let mut m = String::from_str("recover: ");
    m.append(rel_path);
    m.append(" was modified after the crashed transaction; resolve manually");
    m
}

/// Recovery is idempotent: once a recovery has restored its entries (their
/// files now carry the pre-image), recovering the same journal again
/// restores and refuses nothing.
pub proof fn lemma_recovery_idempotent(pre: Seq<Seq<char>>, post: Seq<Seq<char>>, live: Seq<Seq<char>>, after: Seq<Seq<char>>)
    requires
        pre.len() == post.len() == live.len() == after.len(),
        first_refused(pre, post, live, 0) is None,
        forall|i: int|
            0 <= i < pre.len() ==> after[i] == if entry_recovery_spec(pre[i], post[i], live[i]) == EntryRecovery::Restore {
                pre[i]
            } else {
                live[i]
            },
    ensures
        recovery_plan_spec(true, pre, post, after) == (true, Seq::<int>::empty(), None::<int>),
{
    lemma_no_refusal_all(pre, post, live, 0);
    assert forall|i: int| 0 <= i < pre.len() implies entry_recovery_spec(pre[i], post[i], after[i])
        == EntryRecovery::Skip by {
        assert(entry_recovery_spec(pre[i], post[i], live[i]) != EntryRecovery::Refuse);
    }
    lemma_none_refused(pre, post, after, 0);
    lemma_none_restored(pre, post, after, pre.len() as int);
}

proof fn lemma_restored_members(pre: Seq<Seq<char>>, post: Seq<Seq<char>>, live: Seq<Seq<char>>, n: int)
    requires
        0 <= n <= pre.len(),
    ensures
        forall|i: int|
            restored_prefix(pre, post, live, n).contains(i) <==> (0 <= i < n && entry_recovery_spec(pre[i], post[i], live[i])
                == EntryRecovery::Restore),
    decreases n,
{
    if n > 0 {
        lemma_restored_members(pre, post, live, n - 1);
        let prev = restored_prefix(pre, post, live, n - 1);
        if entry_recovery_spec(pre[n - 1], post[n - 1], live[n - 1]) == EntryRecovery::Restore {
            let next = prev.push(n - 1);
            assert forall|i: int| next.contains(i) <==> (prev.contains(i) || i == n - 1) by {
                if next.contains(i) {
                    let k = choose|k: int| 0 <= k < next.len() && next[k] == i;
                    if k < prev.len() {
                        assert(prev[k] == i);
                    }
                }
                if prev.contains(i) {
                    let k = choose|k: int| 0 <= k < prev.len() && prev[k] == i;
                    assert(next[k] == i);
                }
                if i == n - 1 {
                    assert(next[prev.len() as int] == i);
                }
            }
        }
    }
}

/// Recovery after a crash restores consistency: when every file of a
/// committed journal carries either its pre-image or its post-image (the
/// crash left it unpublished or published, and nobody else touched it),
/// recovery refuses nothing, restores exactly the files that carry the
/// post-image, and afterwards every file carries its pre-image.
pub proof fn lemma_recovery_restores_pre_images(pre: Seq<Seq<char>>, post: Seq<Seq<char>>, live: Seq<Seq<char>>)
    requires
        pre.len() == post.len() == live.len(),
        forall|i: int| 0 <= i < pre.len() ==> live[i] == pre[i] || live[i] == post[i],
    ensures
        ({
            let (committed, restore, refused) = recovery_plan_spec(true, pre, post, live);
            &&& committed
            &&& refused is None
            &&& forall|i: int| 0 <= i < pre.len() ==> (restore.contains(i) <==> live[i] != pre[i])
            &&& forall|i: int| 0 <= i < pre.len() ==> (if restore.contains(i) { pre[i] } else { live[i] }) == pre[i]
        }),
{
    lemma_none_refused(pre, post, live, 0);
    lemma_restored_members(pre, post, live, pre.len() as int);
}

proof fn lemma_no_refusal_all(pre: Seq<Seq<char>>, post: Seq<Seq<char>>, live: Seq<Seq<char>>, from: int)
    requires
        0 <= from,
        first_refused(pre, post, live, from) is None,
    ensures
        forall|i: int| from <= i < pre.len() ==> entry_recovery_spec(pre[i], post[i], live[i]) != EntryRecovery::Refuse,
    decreases pre.len() - from,
{
    if from < pre.len() {
        lemma_no_refusal_all(pre, post, live, from + 1);
    }
}

proof fn lemma_none_refused(pre: Seq<Seq<char>>, post: Seq<Seq<char>>, live: Seq<Seq<char>>, from: int)
    requires
        0 <= from,
        forall|i: int| 0 <= i < pre.len() ==> entry_recovery_spec(pre[i], post[i], live[i]) != EntryRecovery::Refuse,
    ensures
        first_refused(pre, post, live, from) is None,
    decreases pre.len() - from,
{
    if from < pre.len() {
        lemma_none_refused(pre, post, live, from + 1);
    }
}

proof fn lemma_none_restored(pre: Seq<Seq<char>>, post: Seq<Seq<char>>, live: Seq<Seq<char>>, n: int)
    requires
        n <= pre.len(),
        forall|i: int| 0 <= i < pre.len() ==> entry_recovery_spec(pre[i], post[i], live[i]) == EntryRecovery::Skip,
    ensures
        restored_prefix(pre, post, live, n) == Seq::<int>::empty(),
    decreases n,
{
    if n > 0 {
        lemma_none_restored(pre, post, live, n - 1);
    }
}


/// Where a journal publication stands: what the caller was last asked to do.
#[derive(Debug, Clone, Copy, PartialEq, Eq, Structural)]
pub enum JournalPhase {
    /// Read file `i` under the lock and report its bytes.
    Checking(usize),
    /// Create the journal directory.
    CreatingDir,
    /// Copy file `i` to its pre-image and report the bytes copied.
    Saving(usize),
    /// Write the journal, not yet committed.
    WritingUncommitted,
    /// Write the journal marked committed.
    WritingCommitted,
    /// Publish file `i` atomically.
    Publishing(usize),
    /// Restore file `i` from its pre-image.
    RollingBack(usize),
    /// Remove the journal after a failed publication, ignoring errors.
    Aborting,
    /// Remove the journal after every file was published.
    Cleaning,
    /// Nothing is left to do.
    Finished,
}

/// What the caller does next.
#[derive(Debug)]
pub enum JournalAction {
    ReadLive(usize),
    CreateDir,
    SavePreImage { index: usize, name: String },
    WriteJournal(Journal),
    Publish(usize),
    Restore { index: usize, name: String },
    RemoveJournal { best_effort: bool },
    /// The transaction is over: `Ok` with the transaction id when every
    /// file was published, else the error's message.
    Finish(Result<String, String>),
}

/// A journal publication in progress.
pub struct JournalRun {
    pub transaction_id: String,
    pub phase: JournalPhase,
    pub entries: Vec<JournalEntry>,
    pub published: usize,
    pub failure: Option<String>,
    /// The live contents seen under the lock, file by file.
    pub checked: Ghost<Seq<Seq<u8>>>,
}

/// The live contents `checked` of the first files match their expected
/// hashes.
pub open spec fn checks_pass(checked: Seq<Seq<u8>>, files: Seq<FilePublication>) -> bool {
    checked.len() <= files.len() && forall|k: int|
        0 <= k < checked.len() ==> sha256_hex_spec(#[trigger] checked[k]) == files[k].expected_live_sha256@
}

/// Every file passed its compare-and-swap check under the lock.
pub open spec fn all_checked(checked: Seq<Seq<u8>>, files: Seq<FilePublication>) -> bool {
    checks_pass(checked, files) && checked.len() == files.len()
}

/// The first `n` journal entries are those of the first `n` files.
pub open spec fn entries_match(entries: Seq<JournalEntry>, files: Seq<FilePublication>, n: int) -> bool {
    entries.len() == n && n <= files.len() && forall|k: int|
        0 <= k < n ==> (#[trigger] entries[k]).rel_path@ == files[k].rel_path@ && entries[k].pre_image_file@
            == pre_image_name_spec(k as nat) && entries[k].post_sha256@ == sha256_hex_spec(files[k].content@)
}

impl JournalRun {
    /// The run is consistent with `files` and its phase.
    pub open spec fn wf(&self, files: Seq<FilePublication>) -> bool {
        let n = files.len() as int;
        let c = self.checked@;
        match self.phase {
            JournalPhase::Checking(i) => i < n && c.len() == i && checks_pass(c, files) && self.entries@.len()
                == 0 && self.published == 0,
            JournalPhase::CreatingDir => all_checked(c, files) && self.entries@.len() == 0 && self.published == 0,
            JournalPhase::Saving(i) => all_checked(c, files) && i < n && entries_match(self.entries@, files, i as int)
                && self.published == 0,
            JournalPhase::WritingUncommitted | JournalPhase::WritingCommitted => all_checked(c, files)
                && entries_match(self.entries@, files, n) && self.published == 0,
            JournalPhase::Publishing(i) => all_checked(c, files) && entries_match(self.entries@, files, n) && i < n
                && self.published == i,
            JournalPhase::RollingBack(j) => all_checked(c, files) && entries_match(self.entries@, files, n) && j
                < self.published <= n && self.failure is Some,
            JournalPhase::Aborting => all_checked(c, files) && entries_match(self.entries@, files, n)
                && self.published <= n && self.failure is Some,
            JournalPhase::Cleaning => all_checked(c, files) && entries_match(self.entries@, files, n)
                && self.published == n,
            JournalPhase::Finished => true,
        }
    }

    /// The journal as written in the given commit state.
    fn journal(&self, committed: bool) -> (j: Journal)
        ensures
            j.schema_version@ == JOURNAL_SCHEMA@,
            j.transaction_id@ == self.transaction_id@,
            j.committed == committed,
            j.entries@.len() == self.entries@.len(),
            forall|k: int| 0 <= k < j.entries@.len() ==> entry_view(#[trigger] j.entries@[k]) == entry_view(self.entries@[k]),
    {
        let mut entries: Vec<JournalEntry> = Vec::new();
        let mut k: usize = 0;
        while k < self.entries.len()
            invariant
                k <= self.entries@.len(),
                entries@.len() == k,
                forall|q: int| 0 <= q < k ==> entry_view(#[trigger] entries@[q]) == entry_view(self.entries@[q]),
            decreases self.entries.len() - k,
        {
            let e = &self.entries[k];
            entries.push(JournalEntry {
                rel_path: e.rel_path.clone(),
                pre_image_file: e.pre_image_file.clone(),
                pre_sha256: e.pre_sha256.clone(),
                post_sha256: e.post_sha256.clone(),
            });
            k = k + 1;
        }
        Journal {
            schema_version: String::from_str(JOURNAL_SCHEMA),
            transaction_id: self.transaction_id.clone(),
            committed,
            entries,
        }
    }
}

/// Starts publishing `files` as transaction `transaction_id`, once the
/// workspace lock is held: every live file is checked first.
pub fn journal_begin(transaction_id: &str, files: &[FilePublication]) -> (r: (JournalRun, JournalAction))
    ensures
        r.0.wf(files@),
        r.0.transaction_id@ == transaction_id@,
        files@.len() > 0 ==> r.0.phase == JournalPhase::Checking(0) && r.1 is ReadLive && r.1->ReadLive_0 == 0,
        files@.len() == 0 ==> r.0.phase == JournalPhase::CreatingDir && r.1 is CreateDir,
{
    let run = JournalRun {
        transaction_id: String::from_str(transaction_id),
        phase: if files.len() > 0 {
            JournalPhase::Checking(0)
        } else {
            JournalPhase::CreatingDir
        },
        entries: Vec::new(),
        published: 0,
        failure: None,
        checked: Ghost(Seq::empty()),
    };
    let a = if files.len() > 0 {
        JournalAction::ReadLive(0)
    } else {
        JournalAction::CreateDir
    };
    (run, a)
}

/// The live bytes of the file being checked: a file whose hash changed
/// since planning stops the transaction before anything is written;
/// otherwise the next file is read, or the journal directory created.
pub fn journal_on_live(run: &mut JournalRun, files: &[FilePublication], live: &[u8]) -> (a: JournalAction)
    requires
        old(run).wf(files@),
        old(run).phase is Checking,
    ensures
        final(run).wf(files@),
        final(run).transaction_id == old(run).transaction_id,
        ({
            let i = old(run).phase->Checking_0 as int;
            if sha256_hex_spec(live@) != files@[i].expected_live_sha256@ {
                &&& final(run).phase == JournalPhase::Finished
                &&& a is Finish && a->Finish_0 is Err
                &&& a->Finish_0->Err_0@ == stale_message_spec(files@[i].rel_path@)
            } else if i + 1 < files@.len() {
                &&& final(run).phase == JournalPhase::Checking((i + 1) as usize)
                &&& a is ReadLive && a->ReadLive_0 == i + 1
                &&& final(run).checked@ == old(run).checked@.push(live@)
            } else {
                &&& final(run).phase == JournalPhase::CreatingDir
                &&& a is CreateDir
                &&& all_checked(final(run).checked@, files@)
            }
        }),
{
    let i = match run.phase {
        JournalPhase::Checking(i) => i,
        _ => 0,
    };
    let h = sha256_hex(live);
    if !crate::text::str_eq(h.as_str(), files[i].expected_live_sha256.as_str()) {
        run.phase = JournalPhase::Finished;
        return JournalAction::Finish(Err(stale_message(files[i].rel_path.as_str())));
    }
    let ghost c0 = run.checked@;
    run.checked = Ghost(run.checked@.push(live@));
    assert(checks_pass(run.checked@, files@)) by {
        assert forall|k: int| 0 <= k < run.checked@.len() implies sha256_hex_spec(#[trigger] run.checked@[k])
            == files@[k].expected_live_sha256@ by {
            if k < c0.len() {
                assert(run.checked@[k] == c0[k]);
            }
        }
    }
    if i + 1 < files.len() {
        run.phase = JournalPhase::Checking(i + 1);
        JournalAction::ReadLive(i + 1)
    } else {
        run.phase = JournalPhase::CreatingDir;
        JournalAction::CreateDir
    }
}

/// The bytes saved as the pre-image of the file being saved: its journal
/// entry is recorded; then the next file is saved, or the uncommitted
/// journal written.
pub fn journal_on_saved(run: &mut JournalRun, files: &[FilePublication], pre: &[u8]) -> (a: JournalAction)
    requires
        old(run).wf(files@),
        old(run).phase is Saving,
    ensures
        final(run).wf(files@),
        final(run).transaction_id == old(run).transaction_id,
        final(run).entries@.len() == old(run).entries@.len() + 1,
        entry_view(final(run).entries@.last()) == entry_spec(old(run).phase->Saving_0 as nat, files@[old(run).phase->Saving_0 as int], pre@),
        ({
            let i = old(run).phase->Saving_0 as int;
            if i + 1 < files@.len() {
                &&& final(run).phase == JournalPhase::Saving((i + 1) as usize)
                &&& a is SavePreImage && a->SavePreImage_index == i + 1
                &&& a->SavePreImage_name@ == pre_image_name_spec((i + 1) as nat)
            } else {
                &&& final(run).phase == JournalPhase::WritingUncommitted
                &&& a is WriteJournal && !a->WriteJournal_0.committed
                &&& a->WriteJournal_0.transaction_id@ == old(run).transaction_id@
                &&& a->WriteJournal_0.entries@.len() == files@.len()
            }
        }),
{
    let i = match run.phase {
        JournalPhase::Saving(i) => i,
        _ => 0,
    };
    let e = journal_entry(i, &files[i], pre);
    let ghost e0 = run.entries@;
    run.entries.push(e);
    assert(entries_match(run.entries@, files@, i + 1)) by {
        assert forall|k: int| 0 <= k < i + 1 implies (#[trigger] run.entries@[k]).rel_path@ == files@[k].rel_path@
            && run.entries@[k].pre_image_file@ == pre_image_name_spec(k as nat) && run.entries@[k].post_sha256@
            == sha256_hex_spec(files@[k].content@) by {
            if k < i {
                assert(run.entries@[k] == e0[k]);
            }
        }
    }
    if i + 1 < files.len() {
        run.phase = JournalPhase::Saving(i + 1);
        JournalAction::SavePreImage { index: i + 1, name: pre_image_name(i + 1) }
    } else {
        run.phase = JournalPhase::WritingUncommitted;
        JournalAction::WriteJournal(run.journal(false))
    }
}

/// The requested step succeeded.
pub fn journal_on_done(run: &mut JournalRun, files: &[FilePublication]) -> (a: JournalAction)
    requires
        old(run).wf(files@),
        !(old(run).phase is Checking),
        !(old(run).phase is Saving),
        !(old(run).phase is Finished),
    ensures
        final(run).wf(files@),
        final(run).transaction_id == old(run).transaction_id,
        final(run).entries@ == old(run).entries@,
        match old(run).phase {
            JournalPhase::CreatingDir => if files@.len() > 0 {
                &&& final(run).phase == JournalPhase::Saving(0)
                &&& a is SavePreImage && a->SavePreImage_index == 0
                &&& a->SavePreImage_name@ == pre_image_name_spec(0)
            } else {
                &&& final(run).phase == JournalPhase::WritingUncommitted
                &&& a is WriteJournal && !a->WriteJournal_0.committed
                &&& a->WriteJournal_0.entries@.len() == 0
            },
            JournalPhase::WritingUncommitted => {
                &&& final(run).phase == JournalPhase::WritingCommitted
                &&& a is WriteJournal && a->WriteJournal_0.committed
                &&& a->WriteJournal_0.transaction_id@ == old(run).transaction_id@
                &&& a->WriteJournal_0.entries@.len() == files@.len()
                &&& forall|k: int| 0 <= k < files@.len() ==> entry_view(#[trigger] a->WriteJournal_0.entries@[k])
                    == entry_view(old(run).entries@[k])
            },
            JournalPhase::WritingCommitted => if files@.len() > 0 {
                &&& final(run).phase == JournalPhase::Publishing(0)
                &&& a is Publish && a->Publish_0 == 0
            } else {
                &&& final(run).phase == JournalPhase::Cleaning
                &&& a is RemoveJournal && !a->RemoveJournal_best_effort
            },
            JournalPhase::Publishing(i) => {
                &&& final(run).published == i + 1
                &&& if i + 1 < files@.len() {
                    &&& final(run).phase == JournalPhase::Publishing((i + 1) as usize)
                    &&& a is Publish && a->Publish_0 == i + 1
                } else {
                    &&& final(run).phase == JournalPhase::Cleaning
                    &&& a is RemoveJournal && !a->RemoveJournal_best_effort
                }
            },
            JournalPhase::RollingBack(j) => if j + 1 < old(run).published {
                &&& final(run).phase == JournalPhase::RollingBack((j + 1) as usize)
                &&& a is Restore && a->Restore_index == j + 1
                &&& a->Restore_name@ == pre_image_name_spec((j + 1) as nat)
            } else {
                &&& final(run).phase == JournalPhase::Aborting
                &&& a is RemoveJournal && a->RemoveJournal_best_effort
            },
            JournalPhase::Aborting => {
                &&& final(run).phase == JournalPhase::Finished
                &&& a is Finish && a->Finish_0 is Err
                &&& a->Finish_0->Err_0@ == old(run).failure->Some_0@
            },
            _ => {
                &&& final(run).phase == JournalPhase::Finished
                &&& a is Finish && a->Finish_0 is Ok
                &&& a->Finish_0->Ok_0@ == old(run).transaction_id@
            },
        },
{
    match run.phase {
        JournalPhase::CreatingDir => {
            if files.len() > 0 {
                run.phase = JournalPhase::Saving(0);
                JournalAction::SavePreImage { index: 0, name: pre_image_name(0) }
            } else {
                run.phase = JournalPhase::WritingUncommitted;
                JournalAction::WriteJournal(run.journal(false))
            }
        },
        JournalPhase::WritingUncommitted => {
            run.phase = JournalPhase::WritingCommitted;
            JournalAction::WriteJournal(run.journal(true))
        },
        JournalPhase::WritingCommitted => {
            if files.len() > 0 {
                run.phase = JournalPhase::Publishing(0);
                JournalAction::Publish(0)
            } else {
                run.phase = JournalPhase::Cleaning;
                JournalAction::RemoveJournal { best_effort: false }
            }
        },
        JournalPhase::Publishing(i) => {
            let n = files.len();
            assert(i < n);
            run.published = i + 1;
            if i + 1 < files.len() {
                run.phase = JournalPhase::Publishing(i + 1);
                JournalAction::Publish(i + 1)
            } else {
                run.phase = JournalPhase::Cleaning;
                JournalAction::RemoveJournal { best_effort: false }
            }
        },
        JournalPhase::RollingBack(j) => {
            if j + 1 < run.published {
                run.phase = JournalPhase::RollingBack(j + 1);
                JournalAction::Restore { index: j + 1, name: run.entries[j + 1].pre_image_file.clone() }
            } else {
                run.phase = JournalPhase::Aborting;
                JournalAction::RemoveJournal { best_effort: true }
            }
        },
        JournalPhase::Aborting => {
            run.phase = JournalPhase::Finished;
            let m = match &run.failure {
                Some(m) => m.clone(),
                None => String::new(),
            };
            JournalAction::Finish(Err(m))
        },
        _ => {
            run.phase = JournalPhase::Finished;
            JournalAction::Finish(Ok(run.transaction_id.clone()))
        },
    }
}

/// The requested step failed with `message`. A failed publication rolls
/// back every file already published, from its pre-image, and removes the
/// journal; a failure in removing it then is ignored. Any other failure
/// ends the transaction with its message.
pub fn journal_on_failed(run: &mut JournalRun, files: &[FilePublication], message: String) -> (a: JournalAction)
    requires
        old(run).wf(files@),
        !(old(run).phase is Finished),
    ensures
        final(run).wf(files@),
        final(run).transaction_id == old(run).transaction_id,
        final(run).published == old(run).published,
        match old(run).phase {
            JournalPhase::Publishing(i) => {
                &&& final(run).failure == Some(message)
                &&& if old(run).published > 0 {
                    &&& final(run).phase == JournalPhase::RollingBack(0)
                    &&& a is Restore && a->Restore_index == 0
                    &&& a->Restore_name@ == pre_image_name_spec(0)
                } else {
                    &&& final(run).phase == JournalPhase::Aborting
                    &&& a is RemoveJournal && a->RemoveJournal_best_effort
                }
            },
            JournalPhase::Aborting => {
                &&& final(run).phase == JournalPhase::Finished
                &&& a is Finish && a->Finish_0 is Err
                &&& a->Finish_0->Err_0@ == old(run).failure->Some_0@
            },
            _ => {
                &&& final(run).phase == JournalPhase::Finished
                &&& a is Finish && a->Finish_0 == Err::<String, String>(message)
            },
        },
{
    match run.phase {
        JournalPhase::Publishing(_) => {
            run.failure = Some(message);
            if run.published > 0 {
                run.phase = JournalPhase::RollingBack(0);
                JournalAction::Restore { index: 0, name: run.entries[0].pre_image_file.clone() }
            } else {
                run.phase = JournalPhase::Aborting;
                JournalAction::RemoveJournal { best_effort: true }
            }
        },
        JournalPhase::Aborting => {
            run.phase = JournalPhase::Finished;
            let m = match &run.failure {
                Some(m) => m.clone(),
                None => String::new(),
            };
            JournalAction::Finish(Err(m))
        },
        _ => {
            run.phase = JournalPhase::Finished;
            JournalAction::Finish(Err(message))
        },
    }
}

/// Nothing is written before every live file passed its check: in every
/// phase past checking, each file's live bytes under the lock hashed to the
/// hash it was planned against.
pub proof fn lemma_writes_follow_checks(run: JournalRun, files: Seq<FilePublication>)
    requires
        run.wf(files),
        !(run.phase is Checking),
        !(run.phase is Finished),
    ensures
        run.checked@.len() == files.len(),
        forall|k: int| 0 <= k < files.len() ==> sha256_hex_spec(#[trigger] run.checked@[k]) == files[k].expected_live_sha256@,
{
}

/// A rollback only restores files that were already published, from the
/// pre-image recorded for that very file.
pub proof fn lemma_rollback_restores_published(run: JournalRun, files: Seq<FilePublication>)
    requires
        run.wf(files),
        run.phase is RollingBack,
    ensures
        run.phase->RollingBack_0 < run.published <= files.len(),
        run.entries@[run.phase->RollingBack_0 as int].rel_path@ == files[run.phase->RollingBack_0 as int].rel_path@,
        run.entries@[run.phase->RollingBack_0 as int].pre_image_file@ == pre_image_name_spec(run.phase->RollingBack_0 as nat),
{
}

/// Whether the journal on disk is the committed one: once the run has gone
/// on to publish, roll back or clean up, the committed journal was written.
pub open spec fn committed_on_disk(phase: JournalPhase) -> bool {
    phase is Publishing || phase is RollingBack || phase is Aborting || phase is Cleaning
}

/// The hash each file carries after recovery: the pre-image for the entries
/// that recovery restores, the live hash for the rest.
pub open spec fn after_recovery(restore: Seq<int>, live: Seq<Seq<char>>, pre: Seq<Seq<char>>) -> Seq<Seq<char>> {
    Seq::new(live.len(), |i: int| if restore.contains(i) { pre[i] } else { live[i] })
}

/// A journal publication is all or nothing. Wherever the run stops before
/// it finishes, no file was published unless the committed journal is on
/// disk; and when each published file carries its pre-image or its
/// post-image and every other file its pre-image, recovery of the journal
/// on disk (committed or not) refuses nothing and leaves every file with
/// its pre-image.
pub proof fn lemma_publication_all_or_nothing(
    run: JournalRun,
    files: Seq<FilePublication>,
    committed: bool,
    live: Seq<Seq<char>>,
)
    requires
        run.wf(files),
        !(run.phase is Finished),
        committed_on_disk(run.phase) ==> committed,
        live.len() == run.entries@.len(),
        forall|i: int|
            0 <= i < live.len() ==> if i < run.published {
                live[i] == pre_hashes(run.entries@)[i] || live[i] == post_hashes(run.entries@)[i]
            } else {
                live[i] == pre_hashes(run.entries@)[i]
            },
    ensures
        !committed_on_disk(run.phase) ==> run.published == 0,
        ({
            let pre = pre_hashes(run.entries@);
            let post = post_hashes(run.entries@);
            let (c, restore, refused) = recovery_plan_spec(committed, pre, post, live);
            &&& refused is None
            &&& after_recovery(restore, live, pre) == pre
        }),
{
    let pre = pre_hashes(run.entries@);
    let post = post_hashes(run.entries@);
    if committed {
        lemma_recovery_restores_pre_images(pre, post, live);
        let (c, restore, refused) = recovery_plan_spec(committed, pre, post, live);
        assert(after_recovery(restore, live, pre) =~= pre);
    } else {
        let (c, restore, refused) = recovery_plan_spec(committed, pre, post, live);
        assert(run.published == 0);
        assert(after_recovery(restore, live, pre) =~= pre);
    }
}

} // verus!
