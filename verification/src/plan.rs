//! Edit plans (`greppy.edit-plan.v1`): several operations over several
//! files as one transaction. This module resolves each file's operations
//! against that file's bytes into planned byte-range replacements, or the
//! status that refuses the whole plan, and names the transaction.

use vstd::prelude::*;
use crate::certificate::PublishMode;
use crate::certificate::Status;
use crate::certificate::ValidatorReport;
use crate::hash::sha256_hex;
use crate::hash::sha256_hex_spec;
use crate::testrun::digits_spec;
use crate::testrun::insert_key;
use crate::testrun::insert_key_exec;
use crate::strutil::join_with;
use crate::strutil::occurs_at;
use vstd::string::*;

verus! {

broadcast use vstd::string::group_string_axioms;

/// The schema identifier of an edit plan.
pub const PLAN_SCHEMA: &'static str = "greppy.edit-plan.v1";

/// The workspace a plan applies to.
#[derive(Debug, Clone)]
pub struct PlanWorkspace {
    pub root: String,
    pub expect_git_head: Option<String>,
    pub require_unchanged_files: bool,
}

/// Where an operation applies.
#[derive(Debug, Clone)]
pub enum PlanSelector {
    /// A byte range resolved by the caller.
    Resolved { byte_start: usize, byte_end: usize },
    /// Exact text that must occur `expect` times; every occurrence is
    /// edited.
    Text { old_text: String, expect: usize },
}

/// What an operation does at its ranges.
#[derive(Debug, Clone)]
pub enum PlanAction {
    Replace { content: String },
    Delete,
    InsertAfter { content: String },
    InsertBefore { content: String },
}

/// Hashes the file and the target must still have.
#[derive(Debug, Clone)]
pub struct PlanPreconditions {
    pub file_sha256: Option<String>,
    pub target_sha256: Option<String>,
}

/// One operation of a plan.
#[derive(Debug, Clone)]
pub struct PlanOperation {
    pub id: String,
    pub file: String,
    pub selector: PlanSelector,
    pub action: PlanAction,
    pub preconditions: PlanPreconditions,
}

/// A command run to validate the edited workspace.
#[derive(Debug, Clone)]
pub struct PlanValidator {
    pub argv: Vec<String>,
    pub timeout_seconds: u64,
}

/// How a plan's result is published.
#[derive(Debug, Clone, Copy, PartialEq, Eq, Structural)]
pub enum PlanPublishMode {
    Atomic,
    Journal,
    Patch,
}

/// The publication settings of a plan.
#[derive(Debug, Clone)]
pub struct PlanPublish {
    pub mode: PlanPublishMode,
}

/// An edit plan.
#[derive(Debug, Clone)]
pub struct Plan {
    pub schema_version: String,
    pub workspace: PlanWorkspace,
    pub operations: Vec<PlanOperation>,
    pub validators: Vec<PlanValidator>,
    pub publish: PlanPublish,
}

/// The default of `require_unchanged_files`.
pub fn default_true() -> (r: bool)
    ensures
        r,
{
    true
}

/// The default number of expected text occurrences.
pub fn one() -> (r: usize)
    ensures
        r == 1,
{
    1
}

/// The default validator timeout in seconds.
pub fn default_timeout() -> (r: u64)
    ensures
        r == 60,
{
    60
}

/// `needle` occurs in `h` at `i`.
pub open spec fn bytes_at(h: Seq<u8>, needle: Seq<u8>, i: int) -> bool {
    0 <= i && i + needle.len() <= h.len() && h.subrange(i, i + needle.len()) == needle
}

/// The first occurrence of `needle` at or after `from`, or -1.
pub open spec fn next_occurrence(h: Seq<u8>, needle: Seq<u8>, from: int) -> int
    decreases h.len() + 1 - from,
{
    if from < 0 || from + needle.len() > h.len() {
        -1
    } else if bytes_at(h, needle, from) {
        from
    } else {
        next_occurrence(h, needle, from + 1)
    }
}

/// The leftmost non-overlapping occurrences of a non-empty `needle` from
/// `from` on.
pub open spec fn occurrences_from(h: Seq<u8>, needle: Seq<u8>, from: int) -> Seq<int>
    decreases h.len() - from,
{
    let k = next_occurrence(h, needle, from);
    if needle.len() == 0 || k < 0 {
        Seq::empty()
    } else {
        proof {
            lemma_next_occurrence(h, needle, from);
        }
        seq![k] + occurrences_from(h, needle, k + needle.len())
    }
}

/// The next occurrence lies at or after `from` and fits.
pub proof fn lemma_next_occurrence(h: Seq<u8>, needle: Seq<u8>, from: int)
    requires
        from >= 0,
    ensures
        next_occurrence(h, needle, from) >= 0 ==> from <= next_occurrence(h, needle, from)
            && bytes_at(h, needle, next_occurrence(h, needle, from)),
        next_occurrence(h, needle, from) < 0 ==> forall|i: int| from <= i ==> !bytes_at(h, needle, i),
    decreases h.len() + 1 - from,
{
    if from + needle.len() > h.len() {
        assert forall|i: int| from <= i implies !bytes_at(h, needle, i) by {}
    } else if !bytes_at(h, needle, from) {
        lemma_next_occurrence(h, needle, from + 1);
    }
}

fn matches_at(h: &[u8], needle: &[u8], i: usize) -> (r: bool)
    requires
        i + needle@.len() <= h@.len(),
    ensures
        r == bytes_at(h@, needle@, i as int),
{
    let hl = h.len();
    let mut k: usize = 0;
    while k < needle.len()
        invariant
            i + needle@.len() <= h@.len(),
            hl == h@.len(),
            k <= needle@.len(),
            forall|q: int| 0 <= q < k ==> h@[i + q] == needle@[q],
        decreases needle.len() - k,
    {
        if h[i + k] != needle[k] {
            assert(h@.subrange(i as int, i + needle@.len())[k as int] != needle@[k as int]);
            return false;
        }
        k = k + 1;
    }
    assert(h@.subrange(i as int, i + needle@.len()) =~= needle@);
    true
}

/// The leftmost non-overlapping occurrences of `needle` in `haystack`
/// (none for an empty needle).
pub fn find_all(haystack: &[u8], needle: &[u8]) -> (r: Vec<usize>)
    ensures
        r@.len() == occurrences_from(haystack@, needle@, 0).len(),
        forall|k: int| 0 <= k < r@.len() ==> r@[k] as int == occurrences_from(haystack@, needle@, 0)[k],
{
    let mut out: Vec<usize> = Vec::new();
    if needle.len() == 0 {
        return out;
    }
    let ghost h = haystack@;
    let ghost nd = needle@;
    let mut from: usize = 0;
    let mut i: usize = 0;
    if needle.len() > haystack.len() {
        proof {
            lemma_next_occurrence(h, nd, 0);
            assert(occurrences_from(h, nd, 0) =~= Seq::<int>::empty());
        }
        return out;
    }
    let hl = haystack.len();
    let last = hl - needle.len();
    while i <= last
        invariant
            last + nd.len() == h.len(),
            hl == h.len(),
            h == haystack@,
            nd == needle@,
            nd.len() > 0,
            from <= i,
            i <= h.len(),
            next_occurrence(h, nd, from as int) == next_occurrence(h, nd, i as int),
            occurrences_from(h, nd, 0).len() == out@.len() + occurrences_from(h, nd, from as int).len(),
            forall|k: int| 0 <= k < out@.len() ==> out@[k] as int == occurrences_from(h, nd, 0)[k],
            forall|k: int| 0 <= k < occurrences_from(h, nd, from as int).len() ==> occurrences_from(h, nd, 0)[out@.len() + k]
                == occurrences_from(h, nd, from as int)[k],
        decreases h.len() - i,
    {
        if matches_at(haystack, needle, i) {
            let ghost old_out = out@;
            let ghost rest = occurrences_from(h, nd, (i + nd.len()) as int);
            proof {
                lemma_next_occurrence(h, nd, i as int);
                assert(occurrences_from(h, nd, from as int) == seq![i as int] + rest);
            }
            out.push(i);
            proof {
                assert forall|k: int| 0 <= k < out@.len() implies out@[k] as int == occurrences_from(h, nd, 0)[k] by {
                    if k == old_out.len() {
                        assert(occurrences_from(h, nd, 0)[old_out.len() as int] == occurrences_from(h, nd, from as int)[0]);
                    }
                }
                assert forall|k: int| 0 <= k < rest.len() implies occurrences_from(h, nd, 0)[out@.len() + k] == rest[k] by {
                    assert(occurrences_from(h, nd, 0)[old_out.len() + (k + 1) as int] == occurrences_from(h, nd, from as int)[k + 1]);
                }
            }
            from = i + needle.len();
            i = from;
        } else {
            i = i + 1;
        }
    }
    proof {
        assert(next_occurrence(h, nd, i as int) == -1);
        assert(occurrences_from(h, nd, from as int) =~= Seq::<int>::empty());
    }
    out
}

/// A byte-range replacement planned for one file.
#[derive(Debug)]
pub struct PlannedOp {
    pub id: String,
    pub range: (usize, usize),
    pub replacement: Vec<u8>,
}

/// A planned replacement as plain values.
pub struct PlannedModel {
    pub id: Seq<char>,
    pub range: (int, int),
    pub replacement: Seq<u8>,
}

/// The model of a planned replacement.
pub open spec fn planned_model(p: PlannedOp) -> PlannedModel {
    PlannedModel { id: p.id@, range: (p.range.0 as int, p.range.1 as int), replacement: p.replacement@ }
}

/// The models of planned replacements.
pub open spec fn planned_models(v: Seq<PlannedOp>) -> Seq<PlannedModel> {
    Seq::new(v.len(), |i: int| planned_model(v[i]))
}

/// The text's UTF-8 bytes.
pub open spec fn utf8(s: Seq<char>) -> Seq<u8> {
    vstd::utf8::encode_utf8(s)
}

/// The ranges an operation's selector picks in `content`, or the status
/// that refuses the plan: exact text must occur exactly `expect` times
/// (none is not found, another count is ambiguous); a target hash must
/// match the single range.
pub open spec fn op_ranges(content: Seq<u8>, op: PlanOperation) -> Result<Seq<(int, int)>, Status> {
    let sel = match op.selector {
        PlanSelector::Resolved { byte_start, byte_end } => Ok(seq![(byte_start as int, byte_end as int)]),
        PlanSelector::Text { old_text, expect } => {
            let found = occurrences_from(content, utf8(old_text@), 0);
            if found.len() == 0 {
                Err(Status::NotFound)
            } else if found.len() != expect {
                Err(Status::Ambiguous)
            } else {
                Ok(Seq::new(found.len(), |k: int| (found[k], found[k] + utf8(old_text@).len())))
            }
        },
    };
    match sel {
        Err(s) => Err(s),
        Ok(ranges) => match op.preconditions.target_sha256 {
            Some(expected) => if ranges.len() == 1 && sha256_hex_spec(
                content.subrange(ranges[0].0, ranges[0].1),
            ) == expected@ {
                Ok(ranges)
            } else {
                Err(Status::Stale)
            },
            None => Ok(ranges),
        },
    }
}

/// The text ends with a line feed.
pub open spec fn ends_lf(s: Seq<char>) -> bool {
    s.len() > 0 && s.last() == '\n'
}

/// The replacement an action plans at one range: insertions go on their own
/// line after (or before) the range.
pub open spec fn action_op(id: Seq<char>, action: PlanAction, r: (int, int)) -> PlannedModel {
    match action {
        PlanAction::Replace { content } => PlannedModel { id, range: r, replacement: utf8(content@) },
        PlanAction::Delete => PlannedModel { id, range: r, replacement: Seq::empty() },
        PlanAction::InsertAfter { content } => PlannedModel {
            id,
            range: (r.1, r.1),
            replacement: seq![10u8] + utf8(content@) + (if ends_lf(content@) {
                Seq::empty()
            } else {
                seq![10u8]
            }),
        },
        PlanAction::InsertBefore { content } => PlannedModel {
            id,
            range: (r.0, r.0),
            replacement: utf8(content@) + (if ends_lf(content@) {
                Seq::empty()
            } else {
                seq![10u8]
            }) + seq![10u8],
        },
    }
}

/// The planned replacements of one operation over its ranges, named
/// `OPID-0`, `OPID-1`, ...
pub open spec fn op_planned(op: PlanOperation, ranges: Seq<(int, int)>) -> Seq<PlannedModel> {
    Seq::new(ranges.len(), |k: int| action_op(op.id@ + seq!['-'] + digits_spec(k as nat), op.action, ranges[k]))
}

/// The plan for one file's operations, in order, or the status of the first
/// refusal: a file hash that no longer matches is stale.
pub open spec fn file_plan_spec(content: Seq<u8>, file_sha256: Seq<char>, ops: Seq<PlanOperation>) -> Result<Seq<PlannedModel>, Status>
    decreases ops.len(),
{
    if ops.len() == 0 {
        Ok(Seq::empty())
    } else {
        match file_plan_spec(content, file_sha256, ops.drop_last()) {
            Err(s) => Err(s),
            Ok(done) => {
                let op = ops.last();
                if op.preconditions.file_sha256 is Some && op.preconditions.file_sha256->Some_0@
                    != file_sha256 {
                    Err(Status::Stale)
                } else {
                    match op_ranges(content, op) {
                        Err(s) => Err(s),
                        Ok(ranges) => Ok(done + op_planned(op, ranges)),
                    }
                }
            },
        }
    }
}

/// A resolved range that a target hash is checked against lies inside the
/// file.
pub open spec fn ranges_in_file(content_len: int, ops: Seq<PlanOperation>) -> bool {
    forall|i: int|
        0 <= i < ops.len() ==> match (#[trigger] ops[i]).selector {
            PlanSelector::Resolved { byte_start, byte_end } => ops[i].preconditions.target_sha256 is Some
                ==> byte_start <= byte_end <= content_len,
            _ => true,
        }
}

fn str_eq_string(a: &String, b: &String) -> (r: bool)
    ensures
        r == (a@ == b@),
{
    a.eq(b)
}

pub(crate) fn encode_str(s: &str) -> (r: Vec<u8>)
    ensures
        r@ == utf8(s@),
{
    let b = s.as_bytes();
    let mut out: Vec<u8> = Vec::new();
    let mut i: usize = 0;
    while i < b.len()
        invariant
            b@ == utf8(s@),
            i <= b@.len(),
            out@ == b@.take(i as int),
        decreases b.len() - i,
    {
        out.push(b[i]);
        assert(b@.take(i + 1) =~= b@.take(i as int).push(b@[i as int]));
        i = i + 1;
    }
    assert(b@.take(b@.len() as int) =~= b@);
    out
}

fn append_bytes(out: &mut Vec<u8>, b: &Vec<u8>)
    ensures
        final(out)@ == old(out)@ + b@,
{
    let ghost base = out@;
    let mut i: usize = 0;
    while i < b.len()
        invariant
            i <= b@.len(),
            out@ == base + b@.take(i as int),
        decreases b.len() - i,
    {
        out.push(b[i]);
        assert(b@.take(i + 1) =~= b@.take(i as int).push(b@[i as int]));
        i = i + 1;
    }
    assert(b@.take(b@.len() as int) =~= b@);
}

fn ends_with_lf(s: &String) -> (r: bool)
    ensures
        r == ends_lf(s@),
{
    let v = crate::text::chars_of(s.as_str());
    v.len() > 0 && v[v.len() - 1] == '\n'
}

fn plan_action(id: String, action: &PlanAction, r: (usize, usize)) -> (p: PlannedOp)
    ensures
        planned_model(p) == action_op(id@, *action, (r.0 as int, r.1 as int)),
{
    match action {
        PlanAction::Replace { content } => PlannedOp { id, range: r, replacement: encode_str(content.as_str()) },
        PlanAction::Delete => {
            let p = PlannedOp { id, range: r, replacement: Vec::new() };
            assert(p.replacement@ =~= Seq::<u8>::empty());
            p
        },
        PlanAction::InsertAfter { content } => {
            let mut b: Vec<u8> = Vec::new();
            b.push(10);
            append_bytes(&mut b, &encode_str(content.as_str()));
            let ghost mid = b@;
            if !ends_with_lf(content) {
                b.push(10);
            }
            proof {
                assert(b@ =~= seq![10u8] + utf8(content@) + (if ends_lf(content@) {
                    Seq::<u8>::empty()
                } else {
                    seq![10u8]
                }));
            }
            PlannedOp { id, range: (r.1, r.1), replacement: b }
        },
        PlanAction::InsertBefore { content } => {
            let mut b = encode_str(content.as_str());
            if !ends_with_lf(content) {
                b.push(10);
            }
            b.push(10);
            proof {
                assert(b@ =~= utf8(content@) + (if ends_lf(content@) {
                    Seq::<u8>::empty()
                } else {
                    seq![10u8]
                }) + seq![10u8]);
            }
            PlannedOp { id, range: (r.0, r.0), replacement: b }
        },
    }
}

fn op_ranges_exec(content: &[u8], op: &PlanOperation) -> (r: Result<Vec<(usize, usize)>, Status>)
    requires
        match op.selector {
            PlanSelector::Resolved { byte_start, byte_end } => op.preconditions.target_sha256 is Some
                ==> byte_start <= byte_end <= content@.len(),
            _ => true,
        },
    ensures
        match op_ranges(content@, *op) {
            Err(s) => r == Err::<Vec<(usize, usize)>, Status>(s),
            Ok(rs) => r is Ok && r->Ok_0@.len() == rs.len() && forall|k: int| 0 <= k < rs.len() ==> (#[trigger] r->Ok_0@[k]).0 == rs[k].0 && r->Ok_0@[k].1 == rs[k].1,
        },
{
    let hl = content.len();
    let ranges: Vec<(usize, usize)> = match &op.selector {
        PlanSelector::Resolved { byte_start, byte_end } => {
            let mut v = Vec::new();
            v.push((*byte_start, *byte_end));
            v
        },
        PlanSelector::Text { old_text, expect } => {
            let nb = old_text.as_str().as_bytes();
            let found = find_all(content, nb);
            if found.len() == 0 {
                return Err(Status::NotFound);
            }
            if found.len() != *expect {
                return Err(Status::Ambiguous);
            }
            let ghost occ = occurrences_from(content@, nb@, 0);
            let mut v: Vec<(usize, usize)> = Vec::new();
            let mut k: usize = 0;
            while k < found.len()
                invariant
                    occ == occurrences_from(content@, nb@, 0),
                    found@.len() == occ.len(),
                    forall|q: int| 0 <= q < found@.len() ==> found@[q] as int == occ[q],
                    hl == content@.len(),
                    k <= found@.len(),
                    v@.len() == k,
                    forall|q: int| 0 <= q < k ==> (#[trigger] v@[q]).0 == occ[q] && v@[q].1 == occ[q] + nb@.len(),
                decreases found.len() - k,
            {
                proof {
                    lemma_occurrence_fits(content@, nb@, 0, k as int);
                }
                let s = found[k];
                v.push((s, s + nb.len()));
                k = k + 1;
            }
            v
        },
    };
    match &op.preconditions.target_sha256 {
        Some(expected) => {
            if ranges.len() == 1 {
                let (a, b) = ranges[0];
                proof {
                    if op.selector is Text {
                        lemma_occurrence_fits(content@, utf8(op.selector->old_text@), 0, 0);
                    }
                }
                let h = sha256_hex(slice_range(content, a, b));
                if h.eq(expected) {
                    return Ok(ranges);
                }
            }
            Err(Status::Stale)
        },
        None => Ok(ranges),
    }
}

/// An occurrence lies inside the haystack.
pub proof fn lemma_occurrence_fits(h: Seq<u8>, needle: Seq<u8>, from: int, k: int)
    requires
        from >= 0,
        0 <= k < occurrences_from(h, needle, from).len(),
    ensures
        from <= occurrences_from(h, needle, from)[k],
        occurrences_from(h, needle, from)[k] + needle.len() <= h.len(),
    decreases h.len() - from,
{
    lemma_next_occurrence(h, needle, from);
    let n = next_occurrence(h, needle, from);
    if k > 0 {
        lemma_occurrence_fits(h, needle, n + needle.len(), k - 1);
    }
}

pub(crate) fn slice_range(b: &[u8], start: usize, end: usize) -> (r: &[u8])
    requires
        start <= end <= b@.len(),
    ensures
        r@ == b@.subrange(start as int, end as int),
{
    let (head, _) = b.split_at(end);
    let (_, tail) = head.split_at(start);
    assert(tail@ =~= b@.subrange(start as int, end as int));
    tail
}

/// Plans one file's operations against its bytes and hash, or returns the
/// status that refuses the whole plan.
pub fn plan_file_ops(content: &[u8], file_sha256: &String, ops: &[PlanOperation]) -> (r: Result<Vec<PlannedOp>, Status>)
    requires
        ranges_in_file(content@.len() as int, ops@),
    ensures
        match file_plan_spec(content@, file_sha256@, ops@) {
            Err(s) => r == Err::<Vec<PlannedOp>, Status>(s),
            Ok(ps) => r is Ok && planned_models(r->Ok_0@) == ps,
        },
{
    let mut out: Vec<PlannedOp> = Vec::new();
    let mut i: usize = 0;
    assert(ops@.take(0) =~= Seq::<PlanOperation>::empty());
    assert(planned_models(out@) =~= Seq::<PlannedModel>::empty());
    while i < ops.len()
        invariant
            i <= ops@.len(),
            ranges_in_file(content@.len() as int, ops@),
            file_plan_spec(content@, file_sha256@, ops@.take(i as int)) == Ok::<Seq<PlannedModel>, Status>(
                planned_models(out@),
            ),
        decreases ops.len() - i,
    {
        let op = &ops[i];
        assert(ops@.take(i + 1).drop_last() =~= ops@.take(i as int));
        assert(ops@.take(i + 1).last() == *op);
        match &op.preconditions.file_sha256 {
            Some(expected) => {
                if !str_eq_string(expected, file_sha256) {
                    proof {
                        lemma_file_plan_error_prefix(content@, file_sha256@, ops@, i + 1);
                    }
                    return Err(Status::Stale);
                }
            },
            None => {},
        }
        assert(match ops@[i as int].selector {
            PlanSelector::Resolved { byte_start, byte_end } => ops@[i as int].preconditions.target_sha256 is Some
                ==> byte_start <= byte_end <= content@.len(),
            _ => true,
        });
        let ranges = match op_ranges_exec(content, op) {
            Ok(r) => r,
            Err(s) => {
                proof {
                    lemma_file_plan_error_prefix(content@, file_sha256@, ops@, i + 1);
                }
                return Err(s);
            },
        };
        let ghost done = planned_models(out@);
        let ghost rs = op_ranges(content@, *op)->Ok_0;
        let mut k: usize = 0;
        while k < ranges.len()
            invariant
                rs == op_ranges(content@, *op)->Ok_0,
                ranges@.len() == rs.len(),
                forall|q: int| 0 <= q < rs.len() ==> (#[trigger] ranges@[q]).0 == rs[q].0 && ranges@[q].1 == rs[q].1,
                k <= ranges@.len(),
                planned_models(out@) == done + op_planned(*op, rs).take(k as int),
            decreases ranges.len() - k,
        {
            let mut id = op.id.clone();
            id.append("-");
            id.append(crate::testrun::digits_string(k as u64).as_str());
            proof {
                reveal_strlit("-");
                assert(id@ =~= op.id@ + seq!['-'] + digits_spec(k as nat));
                assert(rs[k as int] == (ranges@[k as int].0 as int, ranges@[k as int].1 as int));
            }
            let p = plan_action(id, &op.action, ranges[k]);
            assert(planned_model(p) == op_planned(*op, rs)[k as int]);
            let ghost before = planned_models(out@);
            out.push(p);
            proof {
                assert(planned_models(out@) =~= before.push(planned_model(p)));
                assert(op_planned(*op, rs).take(k + 1) =~= op_planned(*op, rs).take(k as int).push(
                    op_planned(*op, rs)[k as int],
                ));
            }
            k = k + 1;
        }
        assert(op_planned(*op, rs).take(rs.len() as int) =~= op_planned(*op, rs));
        i = i + 1;
    }
    assert(ops@.take(ops@.len() as int) =~= ops@);
    Ok(out)
}

/// Once an operation of a file is refused, the plan of the whole file is
/// refused with that status, whatever the later operations are.
pub proof fn lemma_file_plan_error_prefix(content: Seq<u8>, sha: Seq<char>, ops: Seq<PlanOperation>, j: int)
    requires
        0 <= j <= ops.len(),
        file_plan_spec(content, sha, ops.take(j)) is Err,
    ensures
        file_plan_spec(content, sha, ops) == file_plan_spec(content, sha, ops.take(j)),
    decreases ops.len(),
{
    if j == ops.len() {
        assert(ops.take(j) =~= ops);
    } else {
        assert(ops.drop_last().take(j) =~= ops.take(j));
        lemma_file_plan_error_prefix(content, sha, ops.drop_last(), j);
    }
}


/// Why a plan cannot run at all.
#[derive(Debug, Clone, PartialEq, Eq)]
pub enum PlanError {
    /// The plan names a schema other than `greppy.edit-plan.v1`.
    UnsupportedSchema(String),
    /// Atomic publication of a plan that touches more than one file.
    AtomicNeedsSingleFile,
}

impl PlanError {
    /// The error as a message.
    pub fn message(&self) -> (r: String)
        ensures
            r@ == match self {
                PlanError::UnsupportedSchema(v) => "unsupported plan schema: "@ + v@,
                PlanError::AtomicNeedsSingleFile => "publish mode atomic requires a single-file plan; use journal"@,
            },
    {
        match self {
            PlanError::UnsupportedSchema(v) => {
                let mut m = String::from_str("unsupported plan schema: ");
                m.append(v.as_str());
                m
            },
            PlanError::AtomicNeedsSingleFile => String::from_str(
                "publish mode atomic requires a single-file plan; use journal",
            ),
        }
    }
}

/// Accepts only plans of schema `greppy.edit-plan.v1`.
pub fn check_plan_schema(plan: &Plan) -> (r: Result<(), PlanError>)
    ensures
        r is Ok <==> plan.schema_version@ == PLAN_SCHEMA@,
        r is Err ==> r == Err::<(), PlanError>(PlanError::UnsupportedSchema(plan.schema_version)),
{
    if crate::text::str_eq(plan.schema_version.as_str(), PLAN_SCHEMA) {
        Ok(())
    } else {
        Err(PlanError::UnsupportedSchema(plan.schema_version.clone()))
    }
}

/// The files a plan touches, in key order, each once.
pub open spec fn op_files(ops: Seq<PlanOperation>) -> Seq<Seq<char>>
    decreases ops.len(),
{
    if ops.len() == 0 {
        Seq::empty()
    } else {
        insert_key(op_files(ops.drop_last()), ops.last().file@)
    }
}

/// The positions of the operations on file `f`, in plan order.
pub open spec fn ops_on_file(ops: Seq<PlanOperation>, f: Seq<char>) -> Seq<int>
    decreases ops.len(),
{
    if ops.len() == 0 {
        Seq::empty()
    } else if ops.last().file@ == f {
        ops_on_file(ops.drop_last(), f).push(ops.len() - 1)
    } else {
        ops_on_file(ops.drop_last(), f)
    }
}

/// Groups a plan's operations by file: the files in key order, each with
/// the positions of its operations in plan order.
pub fn group_by_file(ops: &[PlanOperation]) -> (r: Vec<(String, Vec<usize>)>)
    ensures
        r@.len() == op_files(ops@).len(),
        forall|k: int|
            0 <= k < r@.len() ==> (#[trigger] r@[k]).0@ == op_files(ops@)[k] && r@[k].1@.len() == ops_on_file(
                ops@,
                r@[k].0@,
            ).len() && forall|q: int| 0 <= q < r@[k].1@.len() ==> r@[k].1@[q] as int == ops_on_file(ops@, r@[k].0@)[q],
{
    let mut files: Vec<String> = Vec::new();
    let mut i: usize = 0;
    while i < ops.len()
        invariant
            i <= ops@.len(),
            crate::rg::views(files@) == op_files(ops@.take(i as int)),
        decreases ops.len() - i,
    {
        assert(ops@.take(i + 1).drop_last() =~= ops@.take(i as int));
        insert_key_exec(&mut files, ops[i].file.as_str());
        i = i + 1;
    }
    assert(ops@.take(ops@.len() as int) =~= ops@);
    let mut out: Vec<(String, Vec<usize>)> = Vec::new();
    let mut k: usize = 0;
    while k < files.len()
        invariant
            k <= files@.len(),
            crate::rg::views(files@) == op_files(ops@),
            out@.len() == k,
            forall|j: int|
                0 <= j < k ==> (#[trigger] out@[j]).0@ == op_files(ops@)[j] && out@[j].1@.len() == ops_on_file(
                    ops@,
                    out@[j].0@,
                ).len() && forall|q: int| 0 <= q < out@[j].1@.len() ==> out@[j].1@[q] as int == ops_on_file(ops@, out@[j].0@)[q],
        decreases files.len() - k,
    {
        let f = files[k].clone();
        assert(f@ == op_files(ops@)[k as int]);
        let mut idx: Vec<usize> = Vec::new();
        let mut i: usize = 0;
        while i < ops.len()
            invariant
                i <= ops@.len(),
                idx@.len() == ops_on_file(ops@.take(i as int), f@).len(),
                forall|q: int| 0 <= q < idx@.len() ==> idx@[q] as int == ops_on_file(ops@.take(i as int), f@)[q],
            decreases ops.len() - i,
        {
            assert(ops@.take(i + 1).drop_last() =~= ops@.take(i as int));
            if crate::text::str_eq(ops[i].file.as_str(), f.as_str()) {
                idx.push(i);
            }
            i = i + 1;
        }
        assert(ops@.take(ops@.len() as int) =~= ops@);
        out.push((f, idx));
        k = k + 1;
    }
    out
}

/// The text of the transaction id: `ge-` and the first 16 hex digits of the
/// SHA-256 of the files' expected hashes joined by `:`.
pub open spec fn transaction_id_spec(hashes: Seq<Seq<char>>) -> Seq<char> {
    "ge-"@ + sha256_hex_spec(utf8(join_with(hashes, ':'))).take(16)
}

/// The transaction id of a plan's publications, from the live hashes they
/// expect, in file order.
pub fn transaction_id(expected_live_sha256: &[String]) -> (r: String)
    ensures
        r@ == transaction_id_spec(crate::rg::views(expected_live_sha256@)),
{
    let ghost hs = crate::rg::views(expected_live_sha256@);
    let mut joined = String::new();
    let mut i: usize = 0;
    while i < expected_live_sha256.len()
        invariant
            i <= expected_live_sha256@.len(),
            hs == crate::rg::views(expected_live_sha256@),
            joined@ == join_with(hs.take(i as int), ':'),
        decreases expected_live_sha256.len() - i,
    {
        proof {
            assert(hs.take(i + 1).drop_last() =~= hs.take(i as int));
            assert(hs.take(i + 1).last() == expected_live_sha256@[i as int]@);
        }
        if i > 0 {
            crate::text::push_char(&mut joined, ':');
        } else {
            assert(hs.take(1) =~= seq![hs[0]]);
        }
        joined.append(expected_live_sha256[i].as_str());
        i = i + 1;
    }
    assert(hs.take(hs.len() as int) =~= hs);
    let h = sha256_hex(joined.as_str().as_bytes());
    let hc = crate::text::chars_of(h.as_str());
    let mut r = String::from_str("ge-");
    proof {
        reveal_strlit("ge-");
    }
    let mut k: usize = 0;
    while k < 16
        invariant
            k <= 16,
            hc@ == sha256_hex_spec(utf8(join_with(hs, ':'))),
            hc@.len() == 64,
            r@ == "ge-"@ + hc@.take(k as int),
        decreases 16 - k,
    {
        crate::text::push_char(&mut r, hc[k]);
        assert(hc@.take(k + 1) =~= hc@.take(k as int).push(hc@[k as int]));
        k = k + 1;
    }
    r
}

/// The publish mode a certificate reports: a dry run publishes nothing.
pub open spec fn plan_publish_mode_spec(mode: PlanPublishMode, dry_run: bool) -> PublishMode {
    if dry_run {
        PublishMode::DryRun
    } else {
        match mode {
            PlanPublishMode::Atomic => PublishMode::Atomic,
            PlanPublishMode::Journal => PublishMode::Journal,
            PlanPublishMode::Patch => PublishMode::Patch,
        }
    }
}

/// The publish mode a plan's certificate reports.
pub fn plan_publish_mode(mode: PlanPublishMode, dry_run: bool) -> (r: PublishMode)
    ensures
        r == plan_publish_mode_spec(mode, dry_run),
{
    if dry_run {
        PublishMode::DryRun
    } else {
        match mode {
            PlanPublishMode::Atomic => PublishMode::Atomic,
            PlanPublishMode::Journal => PublishMode::Journal,
            PlanPublishMode::Patch => PublishMode::Patch,
        }
    }
}

/// The publication a planned transaction goes on to.
#[derive(Debug, Clone, Copy, PartialEq, Eq, Structural)]
pub enum PlanPublication {
    /// Nothing is written: a refusal, a dry run or a patch.
    Nothing,
    /// The single file is written atomically.
    Atomic,
    /// All files are written through the journal.
    Journal,
}

/// What a transaction publishes once every file is planned: only an
/// applied, non-dry-run plan publishes, and atomic publication takes
/// exactly one file.
pub open spec fn plan_publication_spec(refusal: Option<Status>, dry_run: bool, mode: PlanPublishMode, files: nat) -> Result<PlanPublication, PlanError> {
    if refusal is Some || dry_run {
        Ok(PlanPublication::Nothing)
    } else {
        match mode {
            PlanPublishMode::Patch => Ok(PlanPublication::Nothing),
            PlanPublishMode::Atomic => if files == 1 {
                Ok(PlanPublication::Atomic)
            } else {
                Err(PlanError::AtomicNeedsSingleFile)
            },
            PlanPublishMode::Journal => Ok(PlanPublication::Journal),
        }
    }
}

/// Decides what a planned transaction publishes.
pub fn plan_publication(refusal: Option<Status>, dry_run: bool, mode: PlanPublishMode, files: usize) -> (r: Result<PlanPublication, PlanError>)
    ensures
        r == plan_publication_spec(refusal, dry_run, mode, files as nat),
{
    if refusal.is_some() || dry_run {
        return Ok(PlanPublication::Nothing);
    }
    match mode {
        PlanPublishMode::Patch => Ok(PlanPublication::Nothing),
        PlanPublishMode::Atomic => if files == 1 {
            Ok(PlanPublication::Atomic)
        } else {
            Err(PlanError::AtomicNeedsSingleFile)
        },
        PlanPublishMode::Journal => Ok(PlanPublication::Journal),
    }
}

/// How a publication ended.
#[derive(Debug, Clone, Copy, PartialEq, Eq, Structural)]
pub enum PublishOutcome {
    /// Nothing was attempted.
    NotAttempted,
    /// Every file was written.
    Published,
    /// A live file no longer had its expected hash.
    Stale,
    /// Writing failed otherwise.
    Failed,
}

/// The final status and whether anything was published: the first refusal
/// if any, else `applied` unless the publication failed (`stale` or
/// `publish-failed`).
pub open spec fn plan_status_spec(refusal: Option<Status>, outcome: PublishOutcome) -> (Status, bool) {
    match refusal {
        Some(s) => (s, false),
        None => match outcome {
            PublishOutcome::NotAttempted => (Status::Applied, false),
            PublishOutcome::Published => (Status::Applied, true),
            PublishOutcome::Stale => (Status::Stale, false),
            PublishOutcome::Failed => (Status::PublishFailed, false),
        },
    }
}

/// The final status of a transaction and whether it was published.
pub fn plan_status(refusal: Option<Status>, outcome: PublishOutcome) -> (r: (Status, bool))
    ensures
        r == plan_status_spec(refusal, outcome),
{
    match refusal {
        Some(s) => (s, false),
        None => match outcome {
            PublishOutcome::NotAttempted => (Status::Applied, false),
            PublishOutcome::Published => (Status::Applied, true),
            PublishOutcome::Stale => (Status::Stale, false),
            PublishOutcome::Failed => (Status::PublishFailed, false),
        },
    }
}

/// How a failed journal publication counts: an error whose message
/// mentions `stale` is a stale file, any other a failed publication.
pub fn journal_failure_outcome(message: &str) -> (r: PublishOutcome)
    ensures
        r == (if exists|i: int| occurs_at(message@, "stale"@, i) {
            PublishOutcome::Stale
        } else {
            PublishOutcome::Failed
        }),
{
    if crate::strutil::contains(message, "stale") {
        PublishOutcome::Stale
    } else {
        PublishOutcome::Failed
    }
}


/// A refused plan publishes nothing, and its certificate carries the
/// refusal's status.
pub proof fn lemma_refusal_publishes_nothing(refusal: Status, dry_run: bool, mode: PlanPublishMode, files: nat, outcome: PublishOutcome)
    ensures
        plan_publication_spec(Some(refusal), dry_run, mode, files) == Ok::<PlanPublication, PlanError>(
            PlanPublication::Nothing,
        ),
        plan_status_spec(Some(refusal), outcome) == (refusal, false),
{
}

/// A dry run publishes nothing and reports the `dry-run` mode; in any run
/// something is published only when the publication went through.
pub proof fn lemma_dry_run_publishes_nothing(refusal: Option<Status>, mode: PlanPublishMode, files: nat, outcome: PublishOutcome)
    ensures
        plan_publication_spec(refusal, true, mode, files) == Ok::<PlanPublication, PlanError>(
            PlanPublication::Nothing,
        ),
        plan_publish_mode_spec(mode, true) == PublishMode::DryRun,
        plan_status_spec(refusal, outcome).1 <==> (refusal is None && outcome == PublishOutcome::Published),
{
}

/// Every range an exact-text selector picks holds the old text, inside the
/// file.
pub proof fn lemma_text_ranges_hold_old_text(content: Seq<u8>, op: PlanOperation, k: int)
    requires
        op.selector is Text,
        op_ranges(content, op) is Ok,
        0 <= k < op_ranges(content, op)->Ok_0.len(),
    ensures
        ({
            let r = op_ranges(content, op)->Ok_0[k];
            &&& 0 <= r.0 <= r.1 <= content.len()
            &&& content.subrange(r.0, r.1) == utf8(op.selector->old_text@)
        }),
{
    let needle = utf8(op.selector->old_text@);
    let found = occurrences_from(content, needle, 0);
    lemma_occurrence_fits(content, needle, 0, k);
    lemma_occurrence_holds(content, needle, 0, k);
}

proof fn lemma_occurrence_holds(h: Seq<u8>, needle: Seq<u8>, from: int, k: int)
    requires
        from >= 0,
        0 <= k < occurrences_from(h, needle, from).len(),
    ensures
        bytes_at(h, needle, occurrences_from(h, needle, from)[k]),
    decreases h.len() - from,
{
    lemma_next_occurrence(h, needle, from);
    let n = next_occurrence(h, needle, from);
    if k > 0 {
        lemma_occurrence_holds(h, needle, n + needle.len(), k - 1);
    }
}


/// The byte ranges, in the file's original offsets, that an operation's
/// planned replacements change: one per selected range (an insertion
/// changes the empty range where it goes in); `None` when the operation is
/// refused.
pub open spec fn op_changed_spec(content: Seq<u8>, op: PlanOperation) -> Option<Seq<(int, int)>> {
    match op_ranges(content, op) {
        Err(_) => None,
        Ok(rs) => Some(Seq::new(rs.len(), |k: int| action_op(op.id@, op.action, rs[k]).range)),
    }
}

/// The byte ranges an operation changes in `content`, or `None` when it is
/// refused.
pub fn operation_changed_ranges(content: &[u8], op: &PlanOperation) -> (r: Option<Vec<(usize, usize)>>)
    requires
        match op.selector {
            PlanSelector::Resolved { byte_start, byte_end } => op.preconditions.target_sha256 is Some
                ==> byte_start <= byte_end <= content@.len(),
            _ => true,
        },
    ensures
        match op_changed_spec(content@, *op) {
            None => r is None,
            Some(cs) => r is Some && r->Some_0@.len() == cs.len() && forall|k: int|
                0 <= k < cs.len() ==> (#[trigger] r->Some_0@[k]).0 == cs[k].0 && r->Some_0@[k].1 == cs[k].1,
        },
{
    let ranges = match op_ranges_exec(content, op) {
        Ok(r) => r,
        Err(_) => return None,
    };
    let ghost rs = op_ranges(content@, *op)->Ok_0;
    let mut out: Vec<(usize, usize)> = Vec::new();
    let mut k: usize = 0;
    while k < ranges.len()
        invariant
            rs == op_ranges(content@, *op)->Ok_0,
            ranges@.len() == rs.len(),
            forall|q: int| 0 <= q < rs.len() ==> (#[trigger] ranges@[q]).0 == rs[q].0 && ranges@[q].1 == rs[q].1,
            k <= ranges@.len(),
            out@.len() == k,
            forall|q: int|
                0 <= q < k ==> (#[trigger] out@[q]).0 == action_op(op.id@, op.action, rs[q]).range.0 && out@[q].1
                    == action_op(op.id@, op.action, rs[q]).range.1,
        decreases ranges.len() - k,
    {
        let (a, b) = ranges[k];
        let c = match &op.action {
            PlanAction::InsertAfter { .. } => (b, b),
            PlanAction::InsertBefore { .. } => (a, a),
            _ => (a, b),
        };
        out.push(c);
        k = k + 1;
    }
    Some(out)
}

/// What a certificate reports of one plan operation.
#[derive(Debug)]
pub struct OperationReport {
    pub id: String,
    pub file: String,
    /// How many ranges the operation selected.
    pub target_matches: usize,
    /// The ranges it changes, in the file's original offsets.
    pub changed_byte_ranges: Vec<(usize, usize)>,
}

/// The reports of a plan's operations: one per operation, in plan order.
/// `changed[k]` holds the ranges operation `k` changes when its file was
/// planned, and `None` when the plan was refused before or at it; such an
/// operation reports no match and no change.
pub fn operation_reports(ops: &[PlanOperation], changed: &[Option<Vec<(usize, usize)>>]) -> (r: Vec<OperationReport>)
    requires
        changed@.len() == ops@.len(),
    ensures
        r@.len() == ops@.len(),
        forall|k: int|
            0 <= k < ops@.len() ==> {
                &&& (#[trigger] r@[k]).id@ == ops@[k].id@
                &&& r@[k].file@ == ops@[k].file@
                &&& match changed@[k] {
                    Some(v) => r@[k].changed_byte_ranges@ == v@ && r@[k].target_matches == v@.len(),
                    None => r@[k].changed_byte_ranges@.len() == 0 && r@[k].target_matches == 0,
                }
            },
{
    let mut out: Vec<OperationReport> = Vec::new();
    let mut k: usize = 0;
    while k < ops.len()
        invariant
            changed@.len() == ops@.len(),
            k <= ops@.len(),
            out@.len() == k,
            forall|q: int|
                0 <= q < k ==> {
                    &&& (#[trigger] out@[q]).id@ == ops@[q].id@
                    &&& out@[q].file@ == ops@[q].file@
                    &&& match changed@[q] {
                        Some(v) => out@[q].changed_byte_ranges@ == v@ && out@[q].target_matches == v@.len(),
                        None => out@[q].changed_byte_ranges@.len() == 0 && out@[q].target_matches == 0,
                    }
                },
        decreases ops.len() - k,
    {
        let mut ranges: Vec<(usize, usize)> = Vec::new();
        match &changed[k] {
            Some(v) => {
                let mut j: usize = 0;
                while j < v.len()
                    invariant
                        j <= v@.len(),
                        ranges@ == v@.take(j as int),
                    decreases v.len() - j,
                {
                    ranges.push(v[j]);
                    assert(v@.take(j + 1) =~= v@.take(j as int).push(v@[j as int]));
                    j = j + 1;
                }
                assert(v@.take(v@.len() as int) =~= v@);
            },
            None => {},
        }
        let n = ranges.len();
        out.push(OperationReport { id: ops[k].id.clone(), file: ops[k].file.clone(), target_matches: n, changed_byte_ranges: ranges });
        k = k + 1;
    }
    out
}

/// Whether the shadow copy of a workspace leaves out a directory entry of
/// this name: the repository, the journal and the workspace lock are never
/// copied.
pub fn shadow_skips(name: &str) -> (r: bool)
    ensures
        r == (name@ == ".git"@ || name@ == crate::journal::JOURNAL_DIR@ || name@ == crate::journal::LOCK_NAME@),
{
    crate::text::str_eq(name, ".git") || crate::text::str_eq(name, crate::journal::JOURNAL_DIR)
        || crate::text::str_eq(name, crate::journal::LOCK_NAME)
}

/// Every validator exited with 0 and none timed out.
pub open spec fn validators_passed_spec(reports: Seq<ValidatorReport>) -> bool {
    forall|i: int| 0 <= i < reports.len() ==> (#[trigger] reports[i]).exit_code == 0 && !reports[i].timed_out
}

/// Whether every validator passed: only then is a validated transaction
/// published.
pub fn validators_passed(reports: &[ValidatorReport]) -> (r: bool)
    ensures
        r == validators_passed_spec(reports@),
{
    let mut i: usize = 0;
    while i < reports.len()
        invariant
            i <= reports@.len(),
            forall|q: int| 0 <= q < i ==> (#[trigger] reports@[q]).exit_code == 0 && !reports@[q].timed_out,
        decreases reports.len() - i,
    {
        if reports[i].exit_code != 0 || reports[i].timed_out {
            return false;
        }
        i = i + 1;
    }
    true
}

/// The report of a validator run: the exit code (-1 when killed by a
/// signal or timed out) and whether it timed out.
pub fn validator_report(argv: &Vec<String>, exit_code: Option<i32>, timed_out: bool) -> (r: ValidatorReport)
    ensures
        crate::rg::views(r.argv@) == crate::rg::views(argv@),
        r.timed_out == timed_out,
        r.exit_code == if timed_out {
            -1i32
        } else {
            match exit_code {
                Some(c) => c,
                None => -1i32,
            }
        },
{
    let mut copy: Vec<String> = Vec::new();
    let mut i: usize = 0;
    while i < argv.len()
        invariant
            i <= argv@.len(),
            crate::rg::views(copy@) == crate::rg::views(argv@).take(i as int),
        decreases argv.len() - i,
    {
        let c = argv[i].clone();
        assert(c@ == argv@[i as int]@);
        crate::map::push_string(&mut copy, c);
        assert(crate::rg::views(copy@) =~= crate::rg::views(argv@).take(i + 1));
        i = i + 1;
    }
    assert(crate::rg::views(argv@).take(argv@.len() as int) =~= crate::rg::views(argv@));
    let code = if timed_out {
        -1
    } else {
        match exit_code {
            Some(c) => c,
            None => -1,
        }
    };
    ValidatorReport { argv: copy, exit_code: code, timed_out }
}

} // verus!
