//! Edit certificates: the machine-checkable result of every edit operation.
//!
//! Guarantee levels are named and reported separately; there is no scalar
//! confidence anywhere in these types.

use vstd::prelude::*;

verus! {

/// Schema identifier written into every certificate.
pub const CERTIFICATE_SCHEMA: &'static str = "greppy.edit-certificate.v1";

/// Outcome of an edit operation.
#[derive(Debug, Clone, Copy, PartialEq, Eq, Structural)]
pub enum Status {
    Applied,
    AlreadySatisfied,
    NotFound,
    Ambiguous,
    Stale,
    InvalidResult,
    ValidationFailed,
    PublishFailed,
}

/// The registered exit code of each status.
pub open spec fn status_exit_code(s: Status) -> i32 {
    match s {
        Status::Applied | Status::AlreadySatisfied => 0,
        Status::NotFound => 10,
        Status::Ambiguous => 11,
        Status::Stale => 12,
        Status::InvalidResult => 13,
        Status::ValidationFailed => 14,
        Status::PublishFailed => 16,
    }
}

/// The kebab-case wire name of each status.
pub open spec fn status_wire_name(s: Status) -> Seq<char> {
    match s {
        Status::Applied => "applied"@,
        Status::AlreadySatisfied => "already-satisfied"@,
        Status::NotFound => "not-found"@,
        Status::Ambiguous => "ambiguous"@,
        Status::Stale => "stale"@,
        Status::InvalidResult => "invalid-result"@,
        Status::ValidationFailed => "validation-failed"@,
        Status::PublishFailed => "publish-failed"@,
    }
}

impl Status {
    /// Binding exit-code mapping of the edit contract.
    pub fn exit_code(self) -> (code: i32)
        ensures
            code == status_exit_code(self),
    {
        match self {
            Status::Applied | Status::AlreadySatisfied => 0,
            Status::NotFound => 10,
            Status::Ambiguous => 11,
            Status::Stale => 12,
            Status::InvalidResult => 13,
            Status::ValidationFailed => 14,
            Status::PublishFailed => 16,
        }
    }

    /// The kebab-case name under which the status is serialized.
    pub fn wire_name(self) -> (name: &'static str)
        ensures
            name@ == status_wire_name(self),
    {
        match self {
            Status::Applied => "applied",
            Status::AlreadySatisfied => "already-satisfied",
            Status::NotFound => "not-found",
            Status::Ambiguous => "ambiguous",
            Status::Stale => "stale",
            Status::InvalidResult => "invalid-result",
            Status::ValidationFailed => "validation-failed",
            Status::PublishFailed => "publish-failed",
        }
    }
}

/// A success status exits 0, and a refusal never does: the exit code tells
/// success from refusal, and distinct refusals carry distinct codes.
pub proof fn lemma_exit_codes_separate_outcomes(a: Status, b: Status)
    ensures
        (status_exit_code(a) == 0) <==> (a == Status::Applied || a == Status::AlreadySatisfied),
        status_exit_code(a) != 0 && status_exit_code(a) == status_exit_code(b) ==> a == b,
{
}

/// Level at which a guarantee holds.
#[derive(Debug, Clone, Copy, PartialEq, Eq, Structural)]
pub enum Guarantee {
    Proved,
    NotApplicable,
    WaivedByFormatter,
    Failed,
}

/// The five named guarantees of one operation.
#[derive(Debug, Clone)]
pub struct Guarantees {
    pub addressed_range: Guarantee,
    pub no_clobber: Guarantee,
    pub byte_isolation: Guarantee,
    pub syntax: Guarantee,
    pub validators: Guarantee,
}

/// Engine that resolved a selector.
#[derive(Debug, Clone, Copy, PartialEq, Eq, Structural)]
pub enum SelectorEngine {
    Symbol,
    TreeSitter,
    Text,
    Regex,
    DataPath,
    Lsp,
}

/// Strength class of a selector.
#[derive(Debug, Clone, Copy, PartialEq, Eq, Structural)]
pub enum SelectorClass {
    Resolved,
    SyntaxTree,
    ExactText,
    RegexWeak,
    StructuredData,
    Semantic,
}

/// Parse-error counts before and after an edit.
#[derive(Debug, Clone)]
pub struct SyntaxDelta {
    pub errors_before: usize,
    pub errors_after: usize,
    pub new_errors: usize,
    pub new_missing_nodes: usize,
}

/// One named postcondition and whether it held.
#[derive(Debug, Clone)]
pub struct PostconditionResult {
    pub name: String,
    pub passed: bool,
    pub detail: Option<String>,
}

/// A candidate target reported with an ambiguous selector.
#[derive(Debug, Clone)]
pub struct Candidate {
    pub qualified_name: String,
    pub path: String,
    pub line: usize,
}

/// Report of one operation of a transaction.
#[derive(Debug, Clone)]
pub struct OperationReport {
    pub id: String,
    pub file: String,
    pub selector_engine: SelectorEngine,
    pub selector_class: SelectorClass,
    pub scope_matches: usize,
    pub target_matches: usize,
    pub file_sha256_before: String,
    pub file_sha256_after: Option<String>,
    pub target_sha256_before: String,
    pub target_sha256_after: Option<String>,
    pub outside_declared_ranges_unchanged: bool,
    pub changed_byte_ranges: Vec<(usize, usize)>,
    pub node_before: Option<String>,
    pub node_after: Option<String>,
    pub unified_diff: Option<String>,
    pub syntax: SyntaxDelta,
    pub postconditions_passed: bool,
    pub postconditions: Vec<PostconditionResult>,
    pub guarantees: Guarantees,
    pub formatter_expanded_change_scope: bool,
    pub store_refreshed: bool,
    pub candidates: Vec<Candidate>,
}

/// Outcome of one validator command.
#[derive(Debug, Clone)]
pub struct ValidatorReport {
    pub argv: Vec<String>,
    pub exit_code: i32,
    pub timed_out: bool,
}

/// The workspace a transaction ran in.
#[derive(Debug, Clone)]
pub struct WorkspaceReport {
    pub root: String,
    pub git_head_before: Option<String>,
    pub git_head_after: Option<String>,
}

/// How a transaction's result was published.
#[derive(Debug, Clone, Copy, PartialEq, Eq, Structural)]
pub enum PublishMode {
    Atomic,
    Journal,
    Patch,
    ShadowWorktree,
    DryRun,
}

/// The certificate of one transaction.
#[derive(Debug, Clone)]
pub struct Certificate {
    pub schema_version: String,
    pub status: Status,
    pub transaction_id: String,
    pub workspace: WorkspaceReport,
    pub operations: Vec<OperationReport>,
    pub validators: Vec<ValidatorReport>,
    pub published: bool,
    pub publish_mode: PublishMode,
}

impl Certificate {
    /// The exit code of the certificate's status.
    pub fn exit_code(&self) -> (code: i32)
        ensures
            code == status_exit_code(self.status),
    {
        self.status.exit_code()
    }
}

} // verus!
