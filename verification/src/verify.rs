//! The report of `greppy verify` and the byte formats around it: the cached
//! baseline run, its cache key, and the digest that attests the workspace
//! did not change while tests ran.

use vstd::prelude::*;
use crate::hash::sha256_hex;
use crate::hash::sha256_hex_spec;
use crate::testrun::CommandRun;
use crate::testrun::ReportCase;
use crate::testrun::lines_spec;
use crate::testrun::digits_spec;
use crate::text::utf8_lossy;
use crate::strutil::join_with;
use vstd::string::*;

verus! {

broadcast use vstd::string::group_string_axioms;

/// The first bytes of a cached baseline run.
pub open spec fn cache_magic() -> Seq<u8> {
    seq![103u8, 114, 101, 112, 112, 121, 45, 118, 101, 114, 105, 102, 121, 45, 99, 97, 99, 104, 101, 45, 118, 49, 0]
}

/// The largest output a cached run may hold, per stream.
pub const CACHE_MAX_BLOB: u64 = 268435456;

/// The little-endian bytes of `v`, `n` of them.
pub open spec fn le_bytes(v: nat, n: nat) -> Seq<u8>
    decreases n,
{
    if n == 0 {
        Seq::empty()
    } else {
        seq![(v % 256) as u8] + le_bytes(v / 256, (n - 1) as nat)
    }
}

/// The value of little-endian bytes.
pub open spec fn le_value(b: Seq<u8>) -> nat
    decreases b.len(),
{
    if b.len() == 0 {
        0
    } else {
        b[0] as nat + 256 * le_value(b.drop_first())
    }
}

/// The code stored for a run: its exit code, or `i32::MIN` for none.
pub open spec fn stored_code(exit_code: Option<i32>) -> i32 {
    match exit_code {
        Some(c) => c,
        None => i32::MIN,
    }
}

/// The two's-complement bits of an `i32`.
pub open spec fn i32_bits(v: i32) -> nat {
    if v >= 0 {
        v as nat
    } else {
        (v + 4294967296) as nat
    }
}

/// A cached run: the magic, the exit code (`i32::MIN` for none) as four
/// little-endian bytes, then standard output and standard error, each as
/// an eight-byte little-endian length and the bytes. Runs that timed out
/// or could not start are not cached.
pub open spec fn encode_cache_spec(exit_code: Option<i32>, stdout: Seq<u8>, stderr: Seq<u8>) -> Seq<u8> {
    cache_magic() + le_bytes(i32_bits(stored_code(exit_code)), 4) + le_bytes(stdout.len(), 8) + stdout + le_bytes(
        stderr.len(),
        8,
    ) + stderr
}

fn push_le(out: &mut Vec<u8>, v: u64, n: usize)
    requires
        n <= 8,
    ensures
        final(out)@ == old(out)@ + le_bytes(v as nat, n as nat),
    decreases n,
{
    if n > 0 {
        out.push((v % 256) as u8);
        let ghost mid = out@;
        push_le(out, v / 256, n - 1);
        assert(old(out)@ + le_bytes(v as nat, n as nat) =~= old(out)@.push((v % 256) as u8) + le_bytes(
            (v / 256) as nat,
            (n - 1) as nat,
        ));
    } else {
        assert(old(out)@ + le_bytes(v as nat, 0) =~= old(out)@);
    }
}

fn append_all(out: &mut Vec<u8>, b: &[u8])
    ensures
        final(out)@ == old(out)@ + b@,
{
    let mut i: usize = 0;
    while i < b.len()
        invariant
            i <= b@.len(),
            out@ == old(out)@ + b@.take(i as int),
        decreases b.len() - i,
    {
        out.push(b[i]);
        assert(b@.take(i + 1) =~= b@.take(i as int).push(b@[i as int]));
        i = i + 1;
    }
    assert(b@.take(b@.len() as int) =~= b@);
}

fn cache_magic_bytes() -> (r: Vec<u8>)
    ensures
        r@ == cache_magic(),
{
    let r: Vec<u8> = vec![103u8, 114, 101, 112, 112, 121, 45, 118, 101, 114, 105, 102, 121, 45, 99, 97, 99, 104, 101, 45, 118, 49, 0];
    assert(r@ =~= cache_magic());
    r
}

/// The cache file of a baseline run, or none for a run that timed out or
/// could not start.
pub fn encode_cache(run: &CommandRun) -> (r: Option<Vec<u8>>)
    ensures
        (run.timed_out || run.spawn_error is Some) ==> r is None,
        !(run.timed_out || run.spawn_error is Some) ==> (r matches Some(b) && b@ == encode_cache_spec(
            run.exit_code,
            run.stdout@,
            run.stderr@,
        )),
{
    if run.timed_out || run.spawn_error.is_some() {
        return None;
    }
    let mut out = cache_magic_bytes();
    let code: i32 = match run.exit_code {
        Some(c) => c,
        None => i32::MIN,
    };
    let bits: u64 = if code >= 0 {
        code as u64
    } else {
        (code as i64 + 4294967296i64) as u64
    };
    push_le(&mut out, bits, 4);
    push_le(&mut out, run.stdout.len() as u64, 8);
    append_all(&mut out, run.stdout.as_slice());
    push_le(&mut out, run.stderr.len() as u64, 8);
    append_all(&mut out, run.stderr.as_slice());
    Some(out)
}

/// The signed value of two's-complement bits.
pub open spec fn i32_of_bits(b: nat) -> int {
    if b < 2147483648 {
        b as int
    } else {
        b - 4294967296
    }
}

/// A cached run read back: the exit code and both outputs, or none when
/// the magic is wrong, a length is over 256 MiB, or the bytes run out.
/// Bytes after the second output are ignored.
pub open spec fn decode_cache_spec(b: Seq<u8>) -> Option<(Option<i32>, Seq<u8>, Seq<u8>)> {
    let m = cache_magic().len() as int;
    if b.len() < m + 4 + 8 || b.take(m) != cache_magic() {
        None
    } else {
        let code = i32_of_bits(le_value(b.subrange(m, m + 4)));
        let n1 = le_value(b.subrange(m + 4, m + 12));
        if n1 > CACHE_MAX_BLOB || m + 12 + n1 + 8 > b.len() {
            None
        } else {
            let o2 = m + 12 + n1;
            let n2 = le_value(b.subrange(o2, o2 + 8));
            if n2 > CACHE_MAX_BLOB || o2 + 8 + n2 > b.len() {
                None
            } else {
                Some(
                    (
                        if code == i32::MIN {
                            None
                        } else {
                            Some(code as i32)
                        },
                        b.subrange(m + 12, m + 12 + n1),
                        b.subrange(o2 + 8, o2 + 8 + n2),
                    ),
                )
            }
        }
    }
}

fn read_le(b: &[u8], at: usize, n: usize) -> (r: u64)
    requires
        at + n <= b@.len(),
        n <= 8,
    ensures
        r as nat == le_value(b@.subrange(at as int, at + n)),
    decreases n,
{
    if n == 0 {
        0
    } else {
        let len = b.len();
        assert(at < len);
        let rest = read_le(b, at + 1, n - 1);
        proof {
            assert(b@.subrange(at as int, at + n).drop_first() =~= b@.subrange(at + 1, at + n));
            lemma_le_value_bound(b@.subrange(at + 1, at + n));
            if n - 1 < 7 {
                vstd::arithmetic::power2::lemma_pow2_strictly_increases((8 * (n - 1)) as nat, 56);
            }
            vstd::arithmetic::power2::lemma2_to64_rest();
            assert(rest < 72057594037927936);
        }
        b[at] as u64 + 256 * rest
    }
}

proof fn lemma_le_value_bound(b: Seq<u8>)
    ensures
        le_value(b) < vstd::arithmetic::power2::pow2(8 * b.len()),
    decreases b.len(),
{
    vstd::arithmetic::power2::lemma2_to64();
    if b.len() > 0 {
        let t = b.drop_first();
        lemma_le_value_bound(t);
        let p = vstd::arithmetic::power2::pow2(8 * t.len());
        vstd::arithmetic::power2::lemma_pow2_adds(8, 8 * t.len());
        assert(8 * b.len() == 8 + 8 * t.len());
        let lv = le_value(t);
        assert(256 * lv <= 256 * (p - 1)) by (nonlinear_arith)
            requires
                lv <= p - 1,
        ;
    }
}

fn copy_range(b: &[u8], start: usize, end: usize) -> (r: Vec<u8>)
    requires
        start <= end <= b@.len(),
    ensures
        r@ == b@.subrange(start as int, end as int),
{
    let mut out: Vec<u8> = Vec::new();
    let mut i: usize = start;
    while i < end
        invariant
            start <= i <= end,
            end <= b@.len(),
            out@ == b@.subrange(start as int, i as int),
        decreases end - i,
    {
        out.push(b[i]);
        assert(b@.subrange(start as int, i + 1) =~= b@.subrange(start as int, i as int).push(b@[i as int]));
        i = i + 1;
    }
    out
}

/// Reads a cached baseline run back.
pub fn decode_cache(b: &[u8]) -> (r: Option<CommandRun>)
    ensures
        match decode_cache_spec(b@) {
            Some((code, out, err)) => r matches Some(run) && run.exit_code == code && run.stdout@ == out
                && run.stderr@ == err && !run.timed_out && run.spawn_error is None,
            None => r is None,
        },
{
    let magic = cache_magic_bytes();
    let m = magic.len();
    if b.len() < m + 12 {
        return None;
    }
    let mut i: usize = 0;
    while i < m
        invariant
            magic@ == cache_magic(),
            m == magic@.len(),
            m + 12 <= b@.len(),
            i <= m,
            b@.take(i as int) == cache_magic().take(i as int),
        decreases m - i,
    {
        if b[i] != magic[i] {
            assert(b@.take(m as int)[i as int] != cache_magic()[i as int]);
            return None;
        }
        assert(b@.take(i + 1) =~= b@.take(i as int).push(b@[i as int]));
        assert(cache_magic().take(i + 1) =~= cache_magic().take(i as int).push(cache_magic()[i as int]));
        i = i + 1;
    }
    assert(cache_magic().take(m as int) =~= cache_magic());
    let bits = read_le(b, m, 4);
    proof {
        lemma_le_value_bound(b@.subrange(m as int, m + 4));
        vstd::arithmetic::power2::lemma2_to64();
    }
    let code: i32 = if bits < 2147483648 {
        bits as i32
    } else {
        (bits as i64 - 4294967296i64) as i32
    };
    let n1 = read_le(b, m + 4, 8);
    if n1 > CACHE_MAX_BLOB || n1 as usize > b.len() - (m + 12) || b.len() - (m + 12) - (n1 as usize) < 8 {
        return None;
    }
    let o2 = m + 12 + n1 as usize;
    let n2 = read_le(b, o2, 8);
    if n2 > CACHE_MAX_BLOB || n2 as usize > b.len() - (o2 + 8) {
        return None;
    }
    let stdout = copy_range(b, m + 12, o2);
    let stderr = copy_range(b, o2 + 8, o2 + 8 + n2 as usize);
    Some(CommandRun {
        exit_code: if code == i32::MIN {
            None
        } else {
            Some(code)
        },
        stdout,
        stderr,
        timed_out: false,
        spawn_error: None,
    })
}

/// The bytes hashed for a baseline cache key: the revision, each argument
/// and each mirrored path, each followed by a NUL.
pub open spec fn cache_key_input(revision: Seq<char>, argv: Seq<Seq<char>>, mirrors: Seq<Seq<char>>) -> Seq<u8> {
    let enc = |s: Seq<char>| vstd::utf8::encode_utf8(s) + seq![0u8];
    enc(revision) + nul_terminated(argv) + nul_terminated(mirrors)
}

/// Each text's UTF-8 bytes followed by a NUL.
pub open spec fn nul_terminated(v: Seq<Seq<char>>) -> Seq<u8>
    decreases v.len(),
{
    if v.len() == 0 {
        Seq::empty()
    } else {
        nul_terminated(v.drop_last()) + vstd::utf8::encode_utf8(v.last()) + seq![0u8]
    }
}

fn push_nul_terminated(out: &mut Vec<u8>, s: &str)
    ensures
        final(out)@ == old(out)@ + vstd::utf8::encode_utf8(s@) + seq![0u8],
{
    append_all(out, s.as_bytes());
    out.push(0);
}

fn push_all_nul_terminated(out: &mut Vec<u8>, v: &[String])
    ensures
        final(out)@ == old(out)@ + nul_terminated(crate::rg::views(v@)),
{
    let ghost vs = crate::rg::views(v@);
    let mut i: usize = 0;
    assert(vs.take(0) =~= Seq::<Seq<char>>::empty());
    assert(old(out)@ + nul_terminated(vs.take(0)) =~= old(out)@);
    while i < v.len()
        invariant
            vs == crate::rg::views(v@),
            i <= v@.len(),
            out@ == old(out)@ + nul_terminated(vs.take(i as int)),
        decreases v.len() - i,
    {
        assert(vs.take(i + 1).drop_last() =~= vs.take(i as int));
        assert(vs.take(i + 1).last() == v@[i as int]@);
        push_nul_terminated(out, v[i].as_str());
        i = i + 1;
    }
    assert(vs.take(vs.len() as int) =~= vs);
}

/// The cache key of a baseline run: the SHA-256 of the revision, the test
/// command and the mirrored paths.
pub fn cache_key(revision: &str, argv: &[String], mirrors: &[String]) -> (r: String)
    ensures
        r@ == sha256_hex_spec(cache_key_input(revision@, crate::rg::views(argv@), crate::rg::views(mirrors@))),
{
    let mut input: Vec<u8> = Vec::new();
    push_nul_terminated(&mut input, revision);
    push_all_nul_terminated(&mut input, argv);
    push_all_nul_terminated(&mut input, mirrors);
    assert(input@ =~= cache_key_input(revision@, crate::rg::views(argv@), crate::rg::views(mirrors@)));
    sha256_hex(input.as_slice())
}

/// What a tracked path is in the working tree.
#[derive(Debug, Clone)]
pub enum TrackedEntry {
    /// A symbolic link and its target.
    Symlink(Vec<u8>),
    /// A regular file and its bytes.
    File(Vec<u8>),
    /// Something else.
    Other,
    /// Nothing.
    Missing,
}

/// The bytes hashed for one tracked path: the index record with its
/// length as eight little-endian bytes, then what the path is.
pub open spec fn digest_part(record: Seq<u8>, entry: TrackedEntry) -> Seq<u8> {
    le_bytes(record.len(), 8) + record + match entry {
        TrackedEntry::Symlink(t) => "symlink\0"@.map_values(|c: char| c as u8) + t@,
        TrackedEntry::File(b) => "file\0"@.map_values(|c: char| c as u8) + b@,
        TrackedEntry::Other => "other\0"@.map_values(|c: char| c as u8),
        TrackedEntry::Missing => "missing\0"@.map_values(|c: char| c as u8),
    }
}

/// The bytes hashed for all tracked paths, in index order.
pub open spec fn digest_input(records: Seq<Vec<u8>>, entries: Seq<TrackedEntry>) -> Seq<u8>
    decreases records.len(),
{
    if records.len() == 0 || entries.len() == 0 {
        Seq::empty()
    } else {
        digest_input(records.drop_last(), entries.drop_last()) + digest_part(records.last()@, entries.last())
    }
}

fn push_tag(out: &mut Vec<u8>, entry: &TrackedEntry)
    ensures
        final(out)@ == old(out)@ + match *entry {
            TrackedEntry::Symlink(t) => "symlink\0"@.map_values(|c: char| c as u8) + t@,
            TrackedEntry::File(b) => "file\0"@.map_values(|c: char| c as u8) + b@,
            TrackedEntry::Other => "other\0"@.map_values(|c: char| c as u8),
            TrackedEntry::Missing => "missing\0"@.map_values(|c: char| c as u8),
        },
{
    proof {
        reveal_strlit("symlink\0");
        reveal_strlit("file\0");
        reveal_strlit("other\0");
        reveal_strlit("missing\0");
    }
    match entry {
        TrackedEntry::Symlink(t) => {
            let tag: Vec<u8> = vec![115u8, 121, 109, 108, 105, 110, 107, 0];
            assert(tag@ =~= "symlink\0"@.map_values(|c: char| c as u8));
            append_all(out, tag.as_slice());
            append_all(out, t.as_slice());
        },
        TrackedEntry::File(b) => {
            let tag: Vec<u8> = vec![102u8, 105, 108, 101, 0];
            assert(tag@ =~= "file\0"@.map_values(|c: char| c as u8));
            append_all(out, tag.as_slice());
            append_all(out, b.as_slice());
        },
        TrackedEntry::Other => {
            let tag: Vec<u8> = vec![111u8, 116, 104, 101, 114, 0];
            assert(tag@ =~= "other\0"@.map_values(|c: char| c as u8));
            append_all(out, tag.as_slice());
        },
        TrackedEntry::Missing => {
            let tag: Vec<u8> = vec![109u8, 105, 115, 115, 105, 110, 103, 0];
            assert(tag@ =~= "missing\0"@.map_values(|c: char| c as u8));
            append_all(out, tag.as_slice());
        },
    }
    assert(final(out)@ =~= old(out)@ + match *entry {
        TrackedEntry::Symlink(t) => "symlink\0"@.map_values(|c: char| c as u8) + t@,
        TrackedEntry::File(b) => "file\0"@.map_values(|c: char| c as u8) + b@,
        TrackedEntry::Other => "other\0"@.map_values(|c: char| c as u8),
        TrackedEntry::Missing => "missing\0"@.map_values(|c: char| c as u8),
    });
}

/// The workspace digest: the SHA-256 of every tracked path's index record
/// and working-tree state.
pub fn workspace_digest(records: &[Vec<u8>], entries: &[TrackedEntry]) -> (r: String)
    requires
        records@.len() == entries@.len(),
    ensures
        r@ == sha256_hex_spec(digest_input(records@, entries@)),
{
    let mut input: Vec<u8> = Vec::new();
    let mut i: usize = 0;
    assert(records@.take(0) =~= Seq::<Vec<u8>>::empty());
    while i < records.len()
        invariant
            records@.len() == entries@.len(),
            i <= records@.len(),
            input@ == digest_input(records@.take(i as int), entries@.take(i as int)),
        decreases records.len() - i,
    {
        assert(records@.take(i + 1).drop_last() =~= records@.take(i as int));
        assert(entries@.take(i + 1).drop_last() =~= entries@.take(i as int));
        let ghost before = input@;
        push_le(&mut input, records[i].len() as u64, 8);
        append_all(&mut input, records[i].as_slice());
        push_tag(&mut input, &entries[i]);
        assert(input@ =~= before + digest_part(records@[i as int]@, entries@[i as int]));
        i = i + 1;
    }
    assert(records@.take(records@.len() as int) =~= records@);
    assert(entries@.take(entries@.len() as int) =~= entries@);
    sha256_hex(input.as_slice())
}

/// The path of a `git ls-files -s` record: what follows its first tab.
pub open spec fn record_path(record: Seq<u8>) -> Option<Seq<u8>> {
    if exists|i: int| 0 <= i < record.len() && record[i] == 9 {
        let i = choose|i: int| 0 <= i < record.len() && record[i] == 9 && forall|j: int| 0 <= j < i ==> record[j] != 9;
        Some(record.skip(i + 1))
    } else {
        None
    }
}

/// The path of a `git ls-files -s` record, if it has one.
pub fn ls_files_record_path(record: &[u8]) -> (r: Option<Vec<u8>>)
    ensures
        match r {
            Some(p) => exists|i: int|
                0 <= i < record@.len() && record@[i] == 9 && (forall|j: int| 0 <= j < i ==> record@[j] != 9)
                    && p@ == record@.skip(i + 1),
            None => forall|i: int| 0 <= i < record@.len() ==> record@[i] != 9,
        },
{
    let mut i: usize = 0;
    while i < record.len()
        invariant
            i <= record@.len(),
            forall|j: int| 0 <= j < i ==> record@[j] != 9,
        decreases record.len() - i,
    {
        if record[i] == 9 {
            let p = copy_range(record, i + 1, record.len());
            assert(p@ =~= record@.skip(i + 1));
            return Some(p);
        }
        i = i + 1;
    }
    None
}

/// The first non-empty trimmed line of a process's output, or `fallback`.
pub open spec fn first_output_line_spec(output: Seq<u8>, fallback: Seq<char>) -> Seq<char> {
    let ls = lines_spec(utf8_lossy(output));
    if ls.len() > 0 {
        ls[0]
    } else {
        fallback
    }
}

/// The first non-empty line of a process's output, trimmed, or
/// `fallback`.
pub fn first_output_line(output: &[u8], fallback: &str) -> (r: String)
    ensures
        r@ == first_output_line_spec(output@, fallback@),
{
    let text = crate::text::lossy_string(output);
    let ls = crate::testrun::clean_lines(text.as_str());
    if ls.len() > 0 {
        assert(crate::rg::views(ls@)[0] == ls@[0]@);
        ls[0].clone()
    } else {
        String::from_str(fallback)
    }
}

/// The full report of a verification.
#[derive(Debug)]
pub struct VerifyReport {
    pub command: Vec<String>,
    pub baseline_rev: String,
    pub baseline_exit: Option<i32>,
    pub after_exit: Option<i32>,
    pub workspace_digest_before: String,
    pub workspace_digest_after: String,
    pub framework: String,
    pub mirrored_paths: Vec<String>,
    pub baseline_cache_hit: bool,
    pub limitations: Vec<String>,
    pub newly_failed: Vec<ReportCase>,
    pub fixed: Vec<ReportCase>,
    pub preexisting_failed: Vec<ReportCase>,
    pub still_passing: Vec<ReportCase>,
    pub not_run_in_after: Vec<ReportCase>,
    pub infrastructure_error: Vec<ReportCase>,
    pub exit_code: i32,
}

/// The workspace did not change: both digests are known and equal.
pub open spec fn workspace_unchanged_spec(before: Seq<char>, after: Seq<char>) -> bool {
    before == after && before.len() > 0
}

/// Whether the workspace digests attest that nothing changed.
pub fn workspace_unchanged(report: &VerifyReport) -> (r: bool)
    ensures
        r == workspace_unchanged_spec(report.workspace_digest_before@, report.workspace_digest_after@),
{
    crate::text::str_eq(report.workspace_digest_before.as_str(), report.workspace_digest_after.as_str())
        && report.workspace_digest_before.as_str().unicode_len() > 0
}

/// An exit code as shown, `not-run` for none.
pub open spec fn display_exit_spec(exit: Option<i32>) -> Seq<char> {
    match exit {
        Some(c) => crate::testrun::decimal_spec(c as int),
        None => "not-run"@,
    }
}

/// An exit code as shown.
pub fn display_exit(exit: Option<i32>) -> (r: String)
    ensures
        r@ == display_exit_spec(exit),
{
    match exit {
        Some(c) => crate::testrun::i32_to_decimal(c),
        None => String::from_str("not-run"),
    }
}

/// The report of a verification that could not start: an infrastructure
/// failure with its evidence.
pub fn early_infrastructure_report(command: &Vec<String>, baseline: &str, test_id: &str, evidence: &str) -> (r: VerifyReport)
    ensures
        crate::rg::views(r.command@) == crate::rg::views(command@),
        r.baseline_rev@ == baseline@,
        r.baseline_exit is None && r.after_exit is None,
        r.workspace_digest_before@.len() == 0 && r.workspace_digest_after@.len() == 0,
        r.framework@ == "unknown"@,
        r.mirrored_paths@.len() == 0,
        !r.baseline_cache_hit,
        crate::rg::views(r.limitations@) == seq!["verification could not start; no test framework output was produced"@],
        r.newly_failed@.len() == 0 && r.fixed@.len() == 0 && r.preexisting_failed@.len() == 0,
        r.still_passing@.len() == 0 && r.not_run_in_after@.len() == 0,
        r.infrastructure_error@.len() == 1,
        r.infrastructure_error@[0].test_id@ == test_id@,
        r.infrastructure_error@[0].evidence_line@ == crate::testrun::one_line_spec(evidence@),
        r.exit_code == crate::testrun::EXIT_INFRASTRUCTURE,
{
    let mut cmd: Vec<String> = Vec::new();
    let mut i: usize = 0;
    while i < command.len()
        invariant
            i <= command@.len(),
            crate::rg::views(cmd@) == crate::rg::views(command@).take(i as int),
        decreases command.len() - i,
    {
        let c = command[i].clone();
        assert(c@ == command@[i as int]@);
        crate::map::push_string(&mut cmd, c);
        assert(crate::rg::views(cmd@) =~= crate::rg::views(command@).take(i + 1));
        i = i + 1;
    }
    assert(crate::rg::views(command@).take(command@.len() as int) =~= crate::rg::views(command@));
    let mut limitations: Vec<String> = Vec::new();
    crate::map::push_line(&mut limitations, "verification could not start; no test framework output was produced");
    assert(crate::rg::views(limitations@) =~= seq!["verification could not start; no test framework output was produced"@]);
    let mut infra: Vec<ReportCase> = Vec::new();
    infra.push(ReportCase { test_id: String::from_str(test_id), evidence_line: crate::testrun::one_line(evidence) });
    proof {
        reveal_strlit("unknown");
    }
    VerifyReport {
        command: cmd,
        baseline_rev: String::from_str(baseline),
        baseline_exit: None,
        after_exit: None,
        workspace_digest_before: String::new(),
        workspace_digest_after: String::new(),
        framework: String::from_str("unknown"),
        mirrored_paths: Vec::new(),
        baseline_cache_hit: false,
        limitations,
        newly_failed: Vec::new(),
        fixed: Vec::new(),
        preexisting_failed: Vec::new(),
        still_passing: Vec::new(),
        not_run_in_after: Vec::new(),
        infrastructure_error: infra,
        exit_code: crate::testrun::EXIT_INFRASTRUCTURE,
    }
}

/// The infrastructure case of a parsed run, labelled `label:signature`.
pub fn run_infrastructure_case(label: &str, parsed: &crate::testrun::ParsedRun) -> (r: Option<ReportCase>)
    ensures
        match parsed.infrastructure {
            Some(f) => r matches Some(c) && c.test_id@ == label@ + seq![':'] + f.signature@ && c.evidence_line@
                == f.evidence_line@,
            None => r is None,
        },
{
    match &parsed.infrastructure {
        Some(f) => {
            let mut id = String::from_str(label);
            crate::text::push_char(&mut id, ':');
            id.append(f.signature.as_str());
            Some(ReportCase { test_id: id, evidence_line: f.evidence_line.clone() })
        },
        None => None,
    }
}

/// The counts line of the text report.
pub open spec fn counts_line(r: VerifyReport) -> Seq<char> {
    "verify: newly_failed="@ + digits_spec(r.newly_failed@.len()) + " fixed="@ + digits_spec(r.fixed@.len())
        + " preexisting_failed="@ + digits_spec(r.preexisting_failed@.len()) + " still_passing="@ + digits_spec(
        r.still_passing@.len(),
    ) + " not_run_in_after="@ + digits_spec(r.not_run_in_after@.len()) + " infrastructure_error="@ + digits_spec(
        r.infrastructure_error@.len(),
    )
}

/// The framework line of the text report.
pub open spec fn framework_line(r: VerifyReport) -> Seq<char> {
    "framework: "@ + r.framework@ + " | baseline="@ + r.baseline_rev@ + " exit="@ + display_exit_spec(r.baseline_exit)
        + (if r.baseline_cache_hit {
        " (cache hit)"@
    } else {
        Seq::empty()
    }) + " | after_exit="@ + display_exit_spec(r.after_exit)
}

/// The workspace line of the text report.
pub open spec fn workspace_line(r: VerifyReport) -> Seq<char> {
    "workspace: before="@ + r.workspace_digest_before@ + " after="@ + r.workspace_digest_after@ + " unchanged="@
        + if workspace_unchanged_spec(r.workspace_digest_before@, r.workspace_digest_after@) {
        "true"@
    } else {
        "false"@
    }
}

fn count_part(s: &mut String, label: &str, n: usize)
    ensures
        final(s)@ == old(s)@ + label@ + digits_spec(n as nat),
{
    s.append(label);
    s.append(crate::testrun::digits_string(n as u64).as_str());
}

/// The first three lines of the text report: counts, framework and runs,
/// workspace attestation.
pub fn report_header(r: &VerifyReport) -> (lines: Vec<String>)
    ensures
        crate::rg::views(lines@) == seq![counts_line(*r), framework_line(*r), workspace_line(*r)],
{
    proof {
        reveal_strlit("verify: newly_failed=");
        reveal_strlit(" fixed=");
        reveal_strlit(" preexisting_failed=");
        reveal_strlit(" still_passing=");
        reveal_strlit(" not_run_in_after=");
        reveal_strlit(" infrastructure_error=");
        reveal_strlit("framework: ");
        reveal_strlit(" | baseline=");
        reveal_strlit(" exit=");
        reveal_strlit(" (cache hit)");
        reveal_strlit(" | after_exit=");
        reveal_strlit("workspace: before=");
        reveal_strlit(" after=");
        reveal_strlit(" unchanged=");
        reveal_strlit("true");
        reveal_strlit("false");
    }
    let mut c = String::new();
    count_part(&mut c, "verify: newly_failed=", r.newly_failed.len());
    count_part(&mut c, " fixed=", r.fixed.len());
    count_part(&mut c, " preexisting_failed=", r.preexisting_failed.len());
    count_part(&mut c, " still_passing=", r.still_passing.len());
    count_part(&mut c, " not_run_in_after=", r.not_run_in_after.len());
    count_part(&mut c, " infrastructure_error=", r.infrastructure_error.len());
    assert(c@ =~= counts_line(*r));
    let mut f = String::from_str("framework: ");
    f.append(r.framework.as_str());
    f.append(" | baseline=");
    f.append(r.baseline_rev.as_str());
    f.append(" exit=");
    f.append(display_exit(r.baseline_exit).as_str());
    if r.baseline_cache_hit {
        f.append(" (cache hit)");
    }
    f.append(" | after_exit=");
    f.append(display_exit(r.after_exit).as_str());
    assert(f@ =~= framework_line(*r));
    let mut w = String::from_str("workspace: before=");
    w.append(r.workspace_digest_before.as_str());
    w.append(" after=");
    w.append(r.workspace_digest_after.as_str());
    w.append(" unchanged=");
    if workspace_unchanged(r) {
        w.append("true");
    } else {
        w.append("false");
    }
    assert(w@ =~= workspace_line(*r));
    let mut lines: Vec<String> = Vec::new();
    crate::map::push_string(&mut lines, c);
    crate::map::push_string(&mut lines, f);
    crate::map::push_string(&mut lines, w);
    assert(crate::rg::views(lines@) =~= seq![counts_line(*r), framework_line(*r), workspace_line(*r)]);
    lines
}

} // verus!
