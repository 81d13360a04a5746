//! Reading a test run's output: which framework produced it, the outcome of
//! each test it names, and whether the run failed for reasons other than a
//! test assertion (the infrastructure failed).

use vstd::prelude::*;
use crate::strutil::occurs_at;
use crate::strutil::join_with;
use crate::strutil::split_fields;
use crate::text::ascii_lower;
use crate::text::chars_of;
use crate::strutil::contains;
use crate::strutil::ends_with;
use crate::strutil::starts_with;
use crate::text::split_words;
use crate::text::str_eq;
use crate::text::trim;
use vstd::string::*;
use crate::text::last_occurrence;
use crate::text::parse_u64_spec;
use crate::text::trim_start_ws;
use crate::text::trim_ws;
use crate::text::utf8_lossy;
use crate::text::words;

verus! {

broadcast use vstd::string::group_string_axioms;

/// Test frameworks whose output is understood.
#[derive(Debug, Clone, Copy, PartialEq, Eq, Structural)]
pub enum Framework {
    Pytest,
    GoTest,
    CargoTest,
    JestVitest,
    Unknown,
}

/// The framework's name in reports.
pub open spec fn framework_name(f: Framework) -> Seq<char> {
    match f {
        Framework::Pytest => "pytest"@,
        Framework::GoTest => "go-test"@,
        Framework::CargoTest => "cargo-test"@,
        Framework::JestVitest => "jest-vitest"@,
        Framework::Unknown => "unknown"@,
    }
}

impl Framework {
    /// The framework's name in reports.
    pub fn as_str(self) -> (r: &'static str)
        ensures
            r@ == framework_name(self),
    {
        match self {
            Framework::Pytest => "pytest",
            Framework::GoTest => "go-test",
            Framework::CargoTest => "cargo-test",
            Framework::JestVitest => "jest-vitest",
            Framework::Unknown => "unknown",
        }
    }
}

/// A test's outcome.
#[derive(Debug, Clone, Copy, PartialEq, Eq, Structural)]
pub enum TestStatus {
    Passed,
    Failed,
}

/// One test's outcome and the output line that shows it.
#[derive(Debug)]
pub struct TestObservation {
    pub status: TestStatus,
    pub evidence_line: String,
}

/// An observation as plain values.
pub struct ObsModel {
    pub status: TestStatus,
    pub evidence_line: Seq<char>,
}

/// `a` sorts before `b`: character-wise, a proper prefix first. This is
/// the byte order of their UTF-8 encodings, the order of `String`.
pub open spec fn seq_lt(a: Seq<char>, b: Seq<char>) -> bool
    decreases a.len(),
{
    if a.len() == 0 {
        b.len() > 0
    } else if b.len() == 0 {
        false
    } else if a[0] != b[0] {
        a[0] < b[0]
    } else {
        seq_lt(a.drop_first(), b.drop_first())
    }
}

/// No text sorts before itself.
pub proof fn lemma_seq_lt_irreflexive(a: Seq<char>)
    ensures
        !seq_lt(a, a),
    decreases a.len(),
{
    if a.len() > 0 {
        lemma_seq_lt_irreflexive(a.drop_first());
    }
}

/// Of two different texts, exactly one sorts first.
pub proof fn lemma_seq_lt_total(a: Seq<char>, b: Seq<char>)
    ensures
        a != b ==> (seq_lt(a, b) || seq_lt(b, a)),
        !(seq_lt(a, b) && seq_lt(b, a)),
    decreases a.len(),
{
    if a.len() > 0 && b.len() > 0 && a[0] == b[0] {
        lemma_seq_lt_total(a.drop_first(), b.drop_first());
        if a != b {
            assert(a =~= seq![a[0]] + a.drop_first());
            assert(b =~= seq![b[0]] + b.drop_first());
        }
    } else if a.len() == 0 && b.len() == 0 {
        assert(a =~= b);
    }
}

/// Text order is transitive.
pub proof fn lemma_seq_lt_trans(a: Seq<char>, b: Seq<char>, c: Seq<char>)
    requires
        seq_lt(a, b),
        seq_lt(b, c),
    ensures
        seq_lt(a, c),
    decreases a.len(),
{
    if a.len() > 0 && b.len() > 0 && c.len() > 0 && a[0] == b[0] && b[0] == c[0] {
        lemma_seq_lt_trans(a.drop_first(), b.drop_first(), c.drop_first());
    }
}

/// Whether `a` sorts before `b`.
pub fn str_lt(a: &str, b: &str) -> (r: bool)
    ensures
        r == seq_lt(a@, b@),
{
    let x = chars_of(a);
    let y = chars_of(b);
    let mut i: usize = 0;
    assert(a@.skip(0) =~= a@);
    assert(b@.skip(0) =~= b@);
    while i < x.len() && i < y.len()
        invariant
            x@ == a@,
            y@ == b@,
            i <= x@.len(),
            i <= y@.len(),
            seq_lt(a@, b@) == seq_lt(a@.skip(i as int), b@.skip(i as int)),
        decreases x.len() - i,
    {
        if x[i] != y[i] {
            return x[i] < y[i];
        }
        assert(a@.skip(i as int).drop_first() =~= a@.skip(i + 1));
        assert(b@.skip(i as int).drop_first() =~= b@.skip(i + 1));
        i = i + 1;
    }
    i == x.len() && i < y.len()
}

/// A key-ordered table of observations (the entries of a map from test id
/// to observation, kept in key order).
pub type ObsTable = Vec<(String, TestObservation)>;

/// The entries of a table as plain values.
pub open spec fn table_model(t: Seq<(String, TestObservation)>) -> Seq<(Seq<char>, ObsModel)> {
    Seq::new(t.len(), |i: int| (t[i].0@, ObsModel { status: t[i].1.status, evidence_line: t[i].1.evidence_line@ }))
}

/// Inserting `k => v` into a key-ordered table: replaces the entry with key
/// `k`, else goes before the first larger key.
pub open spec fn insert_spec(s: Seq<(Seq<char>, ObsModel)>, k: Seq<char>, v: ObsModel) -> Seq<(Seq<char>, ObsModel)>
    decreases s.len(),
{
    if s.len() == 0 {
        seq![(k, v)]
    } else if s[0].0 == k {
        s.update(0, (k, v))
    } else if seq_lt(k, s[0].0) {
        seq![(k, v)] + s
    } else {
        seq![s[0]] + insert_spec(s.drop_first(), k, v)
    }
}

/// The observation with key `k`, if any.
pub open spec fn lookup(s: Seq<(Seq<char>, ObsModel)>, k: Seq<char>) -> Option<ObsModel>
    decreases s.len(),
{
    if s.len() == 0 {
        None
    } else if s[0].0 == k {
        Some(s[0].1)
    } else {
        lookup(s.drop_first(), k)
    }
}

/// Inserts or replaces an observation.
pub fn table_insert(t: &mut ObsTable, k: String, v: TestObservation)
    ensures
        table_model(final(t)@) == insert_spec(
            table_model(old(t)@),
            k@,
            ObsModel { status: v.status, evidence_line: v.evidence_line@ },
        ),
{
    let ghost s0 = table_model(t@);
    let ghost vm = ObsModel { status: v.status, evidence_line: v.evidence_line@ };
    let mut i: usize = 0;
    assert(s0.skip(0) =~= s0);
    assert(s0.take(0) + s0 =~= s0);
    while i < t.len()
        invariant
            s0 == table_model(old(t)@),
            vm == (ObsModel { status: v.status, evidence_line: v.evidence_line@ }),
            t@ == old(t)@,
            i <= t@.len(),
            insert_spec(s0, k@, vm) == s0.take(i as int) + insert_spec(s0.skip(i as int), k@, vm),
        decreases t.len() - i,
    {
        let ghost rest = s0.skip(i as int);
        assert(rest[0] == s0[i as int]);
        if crate::text::str_eq(t[i].0.as_str(), k.as_str()) {
            let ghost km = k@;
            t.set(i, (k, v));
            proof {
                assert(insert_spec(rest, km, vm) == rest.update(0, (km, vm)));
                assert(table_model(t@) =~= s0.update(i as int, (km, vm)));
                assert(s0.update(i as int, (km, vm)) =~= s0.take(i as int) + rest.update(0, (km, vm)));
            }
            return;
        }
        if str_lt(k.as_str(), t[i].0.as_str()) {
            let ghost km = k@;
            t.insert(i, (k, v));
            proof {
                assert(table_model(t@) =~= s0.insert(i as int, (km, vm)));
                assert(s0.insert(i as int, (km, vm)) =~= s0.take(i as int) + (seq![(km, vm)] + rest));
            }
            return;
        }
        proof {
            assert(rest.drop_first() =~= s0.skip(i + 1));
            assert(s0.take(i + 1) =~= s0.take(i as int).push(s0[i as int]));
            assert(s0.take(i as int) + (seq![s0[i as int]] + insert_spec(s0.skip(i + 1), k@, vm))
                =~= s0.take(i + 1) + insert_spec(s0.skip(i + 1), k@, vm));
        }
        i = i + 1;
    }
    let ghost km = k@;
    t.push((k, v));
    proof {
        assert(table_model(t@) =~= s0.push((km, vm)));
        assert(s0.skip(t@.len() - 1) =~= Seq::<(Seq<char>, ObsModel)>::empty());
        assert(table_model(t@) =~= s0.take(s0.len() as int) + seq![(k@, vm)]);
    }
}

/// Finds the observation with key `k`.
pub fn table_get<'a>(t: &'a ObsTable, k: &str) -> (r: Option<&'a TestObservation>)
    ensures
        match lookup(table_model(t@), k@) {
            Some(m) => r is Some && r.unwrap().status == m.status && r.unwrap().evidence_line@ == m.evidence_line,
            None => r is None,
        },
{
    let ghost s0 = table_model(t@);
    let mut i: usize = 0;
    assert(s0.skip(0) =~= s0);
    while i < t.len()
        invariant
            s0 == table_model(t@),
            i <= t@.len(),
            lookup(s0, k@) == lookup(s0.skip(i as int), k@),
        decreases t.len() - i,
    {
        assert(s0.skip(i as int).drop_first() =~= s0.skip(i + 1));
        if crate::text::str_eq(t[i].0.as_str(), k) {
            return Some(&t[i].1);
        }
        i = i + 1;
    }
    None
}

/// `l` starts with `p`.
pub open spec fn sw(l: Seq<char>, p: Seq<char>) -> bool {
    occurs_at(l, p, 0)
}

/// `l` ends with `p`.
pub open spec fn ew(l: Seq<char>, p: Seq<char>) -> bool {
    occurs_at(l, p, l.len() - p.len())
}

/// `l` contains `p`.
pub open spec fn contains_seq(l: Seq<char>, p: Seq<char>) -> bool {
    exists|i: int| occurs_at(l, p, i)
}

/// The trimmed, non-empty lines of `parts`.
pub open spec fn kept_lines(parts: Seq<Seq<char>>) -> Seq<Seq<char>>
    decreases parts.len(),
{
    if parts.len() == 0 {
        Seq::empty()
    } else if trim_ws(parts.last()).len() == 0 {
        kept_lines(parts.drop_last())
    } else {
        kept_lines(parts.drop_last()).push(trim_ws(parts.last()))
    }
}

/// The lines of `text`, each trimmed, empty ones dropped.
pub open spec fn lines_spec(text: Seq<char>) -> Seq<Seq<char>> {
    kept_lines(split_fields(text, '\n'))
}

/// A line that only cargo's test harness prints.
pub open spec fn cargo_line(l: Seq<char>) -> bool {
    sw(l, "test result:"@) || (sw(l, "running "@) && ew(l, " tests"@))
}

/// A line that only `go test` prints.
pub open spec fn go_line(l: Seq<char>) -> bool {
    sw(l, "=== RUN"@) || sw(l, "--- PASS:"@) || sw(l, "--- FAIL:"@) || sw(l, "ok\t"@) || sw(
        l,
        "FAIL\t"@,
    )
}

/// A line that only Jest or Vitest prints.
pub open spec fn jest_line(l: Seq<char>) -> bool {
    sw(l, "Test Suites:"@) || sw(l, "Tests:"@) || sw(l, "PASS "@) || sw(l, "FAIL "@) || contains_seq(
        l,
        " Vitest "@,
    )
}

/// A line that only pytest prints.
pub open spec fn pytest_line(l: Seq<char>) -> bool {
    ||| contains_seq(l, "short test summary info"@)
    ||| contains_seq(l, "ERROR collecting"@)
    ||| sw(l, "collected "@)
    ||| ((contains_seq(l, " passed"@) || contains_seq(l, " failed"@)) && (contains_seq(l, " in "@) || contains_seq(l, "pytest"@)))
    ||| (contains_seq(l, "::"@) && (contains_seq(l, " PASSED"@) || contains_seq(l, " FAILED"@) || sw(l, "FAILED "@) || sw(
        l,
        "PASSED "@,
    )))
}

/// The framework that printed `lines`: cargo, go, Jest/Vitest and pytest
/// are tried in that order.
pub open spec fn detect_spec(lines: Seq<Seq<char>>) -> Framework {
    if exists|i: int| 0 <= i < lines.len() && cargo_line(#[trigger] lines[i]) {
        Framework::CargoTest
    } else if exists|i: int| 0 <= i < lines.len() && go_line(#[trigger] lines[i]) {
        Framework::GoTest
    } else if exists|i: int| 0 <= i < lines.len() && jest_line(#[trigger] lines[i]) {
        Framework::JestVitest
    } else if exists|i: int| 0 <= i < lines.len() && pytest_line(#[trigger] lines[i]) {
        Framework::Pytest
    } else {
        Framework::Unknown
    }
}

/// Words joined by single spaces, cut to 500 characters with an ellipsis
/// when longer.
pub open spec fn one_line_spec(v: Seq<char>) -> Seq<char> {
    let c = join_with(words(v), ' ');
    if c.len() > 500 {
        c.take(500).push('…')
    } else {
        c
    }
}

/// A cargo result line `test ID ... ok|FAILED`.
pub open spec fn cargo_obs(l: Seq<char>) -> Option<(Seq<char>, TestStatus)> {
    if !sw(l, "test "@) {
        None
    } else {
        let rest = l.skip(5);
        let k = last_occurrence(rest, " ... "@);
        if k < 0 {
            None
        } else {
            let w = words(rest.skip(k + 5));
            if w.len() == 0 {
                None
            } else if w[0] == "ok"@ {
                Some((rest.take(k), TestStatus::Passed))
            } else if w[0] == "FAILED"@ {
                Some((rest.take(k), TestStatus::Failed))
            } else {
                None
            }
        }
    }
}

/// `s` without trailing `:` and `,` characters.
pub open spec fn trim_colons(s: Seq<char>) -> Seq<char>
    decreases s.len(),
{
    if s.len() > 0 && (s.last() == ':' || s.last() == ',') {
        trim_colons(s.drop_last())
    } else {
        s
    }
}

/// Index of the first word holding `::`, or -1.
pub open spec fn first_test_word(w: Seq<Seq<char>>) -> int
    decreases w.len(),
{
    if w.len() == 0 {
        -1
    } else if contains_seq(w[0], "::"@) {
        0
    } else if first_test_word(w.drop_first()) < 0 {
        -1
    } else {
        first_test_word(w.drop_first()) + 1
    }
}

/// A pytest line with an outcome and a `path::test` id.
pub open spec fn pytest_obs(l: Seq<char>) -> Option<(Seq<char>, TestStatus)> {
    let st = if sw(l, "FAILED "@) || contains_seq(l, " FAILED"@) {
        Some(TestStatus::Failed)
    } else if sw(l, "PASSED "@) || contains_seq(l, " PASSED"@) {
        Some(TestStatus::Passed)
    } else {
        None
    };
    let k = first_test_word(words(l));
    if st is None || k < 0 {
        None
    } else {
        Some((trim_colons(words(l)[k]), st->Some_0))
    }
}

/// A `go test` result line `--- PASS: Name (..)` or `--- FAIL: ...`.
pub open spec fn go_obs(l: Seq<char>) -> Option<(Seq<char>, TestStatus)> {
    let st = if sw(l, "--- PASS: "@) {
        Some(TestStatus::Passed)
    } else if sw(l, "--- FAIL: "@) {
        Some(TestStatus::Failed)
    } else {
        None
    };
    let rest = l.skip(10);
    if st is None {
        None
    } else if words(rest).len() > 0 {
        Some((words(rest)[0], st->Some_0))
    } else {
        Some((rest, st->Some_0))
    }
}

/// A test name without a trailing ` (N ms)` duration.
pub open spec fn strip_js_duration(v0: Seq<char>) -> Seq<char> {
    let v = trim_ws(v0);
    let open = last_occurrence(v, " ("@);
    if open >= 0 {
        let suffix = v.skip(open + 2);
        if ew(suffix, "ms)"@) && parse_u64_spec(trim_ws(suffix.take(suffix.len() - 3))) is Some {
            trim_ws(v.take(open))
        } else {
            v
        }
    } else {
        v
    }
}

/// A Jest/Vitest line: `PASS file`, `FAIL file`, or a test marked with a
/// check or cross glyph.
pub open spec fn jest_obs(l: Seq<char>) -> Option<(Seq<char>, TestStatus)> {
    let ts = trim_start_ws(l);
    let r = if sw(l, "PASS "@) {
        Some((TestStatus::Passed, l.skip(5)))
    } else if sw(l, "FAIL "@) {
        Some((TestStatus::Failed, l.skip(5)))
    } else if ts.len() > 0 && (ts[0] == '✓' || ts[0] == '✔') {
        Some((TestStatus::Passed, trim_ws(ts.drop_first())))
    } else if ts.len() > 0 && (ts[0] == '✕' || ts[0] == '×' || ts[0] == '✗') {
        Some((TestStatus::Failed, trim_ws(ts.drop_first())))
    } else {
        None
    };
    match r {
        None => None,
        Some((st, rest)) => if strip_js_duration(rest).len() == 0 {
            None
        } else {
            Some((strip_js_duration(rest), st))
        },
    }
}

/// The test named on a line by the parser of framework `f`.
pub open spec fn obs_of(f: Framework, l: Seq<char>) -> Option<(Seq<char>, TestStatus)> {
    match f {
        Framework::CargoTest => cargo_obs(l),
        Framework::Pytest => pytest_obs(l),
        Framework::GoTest => go_obs(l),
        Framework::JestVitest => jest_obs(l),
        Framework::Unknown => None,
    }
}

/// The observations of framework `f` over `lines`: a later line about the
/// same test replaces an earlier one.
pub open spec fn table_spec(f: Framework, lines: Seq<Seq<char>>) -> Seq<(Seq<char>, ObsModel)>
    decreases lines.len(),
{
    if lines.len() == 0 {
        Seq::empty()
    } else {
        let t = table_spec(f, lines.drop_last());
        match obs_of(f, lines.last()) {
            None => t,
            Some((id, st)) => insert_spec(
                t,
                id,
                ObsModel { status: st, evidence_line: one_line_spec(lines.last()) },
            ),
        }
    }
}

/// `s` from its `k`-th character on.
fn skip_chars(s: &str, k: usize) -> (r: &str)
    requires
        k <= s@.len(),
    ensures
        r@ == s@.skip(k as int),
{
    let n = s.unicode_len();
    let r = s.substring_char(k, n);
    assert(r@ =~= s@.skip(k as int));
    r
}

/// `s` up to its `k`-th character.
fn take_chars(s: &str, k: usize) -> (r: &str)
    requires
        k <= s@.len(),
    ensures
        r@ == s@.take(k as int),
{
    let r = s.substring_char(0, k);
    assert(r@ =~= s@.take(k as int));
    r
}

/// The lines of `text`, each trimmed, empty ones dropped.
pub fn clean_lines(text: &str) -> (r: Vec<String>)
    ensures
        crate::rg::views(r@) == lines_spec(text@),
{
    let parts = crate::strutil::split(text, '\n');
    let ghost ps = parts@.map_values(|x: &str| x@);
    let mut out: Vec<String> = Vec::new();
    let mut i: usize = 0;
    assert(ps.take(0) =~= Seq::<Seq<char>>::empty());
    assert(crate::rg::views(out@) =~= Seq::<Seq<char>>::empty());
    while i < parts.len()
        invariant
            ps == parts@.map_values(|x: &str| x@),
            ps == split_fields(text@, '\n'),
            i <= parts@.len(),
            crate::rg::views(out@) == kept_lines(ps.take(i as int)),
        decreases parts.len() - i,
    {
        let t = trim(parts[i]);
        assert(ps.take(i + 1).drop_last() =~= ps.take(i as int));
        assert(ps.take(i + 1).last() == parts@[i as int]@);
        if t.unicode_len() != 0 {
            let ghost before = out@;
            out.push(String::from_str(t));
            assert(crate::rg::views(out@) =~= crate::rg::views(before).push(t@));
        }
        i = i + 1;
    }
    assert(ps.take(parts@.len() as int) =~= ps);
    out
}

/// The words of `v` joined by single spaces, cut to 500 characters with an
/// ellipsis when longer.
pub fn one_line(v: &str) -> (r: String)
    ensures
        r@ == one_line_spec(v@),
{
    let ws = split_words(v);
    let ghost wv = words(v@);
    let mut joined = String::new();
    let mut i: usize = 0;
    assert(wv.take(0) =~= Seq::<Seq<char>>::empty());
    while i < ws.len()
        invariant
            ws@.len() == wv.len(),
            wv == words(v@),
            forall|k: int| 0 <= k < ws@.len() ==> #[trigger] ws@[k]@ == wv[k],
            i <= ws@.len(),
            joined@ == join_with(wv.take(i as int), ' '),
        decreases ws.len() - i,
    {
        assert(wv.take(i + 1).drop_last() =~= wv.take(i as int));
        assert(wv.take(i + 1).last() == ws@[i as int]@);
        if i > 0 {
            crate::text::push_char(&mut joined, ' ');
        } else {
            assert(wv.take(1) =~= seq![ws@[0]@]);
        }
        joined.append(ws[i].as_str());
        i = i + 1;
    }
    assert(wv.take(ws@.len() as int) =~= wv);
    let c = chars_of(joined.as_str());
    if c.len() > 500 {
        let mut out = crate::text::string_from_chars(slice_prefix(&c, 500));
        crate::text::push_char(&mut out, '…');
        out
    } else {
        joined
    }
}

fn slice_prefix(v: &Vec<char>, n: usize) -> (r: &[char])
    requires
        n <= v@.len(),
    ensures
        r@ == v@.take(n as int),
{
    let (head, _) = v.as_slice().split_at(n);
    assert(head@ =~= v@.take(n as int));
    head
}

fn cargo_status(status_part: &str, id: &str) -> (r: Option<(String, TestStatus)>)
    ensures
        ({
            let w = words(status_part@);
            if w.len() == 0 {
                r is None
            } else if w[0] == "ok"@ {
                r is Some && r->Some_0.0@ == id@ && r->Some_0.1 == TestStatus::Passed
            } else if w[0] == "FAILED"@ {
                r is Some && r->Some_0.0@ == id@ && r->Some_0.1 == TestStatus::Failed
            } else {
                r is None
            }
        }),
{
    let w = split_words(status_part);
    if w.len() == 0 {
        return None;
    }
    if str_eq(w[0].as_str(), "ok") {
        Some((String::from_str(id), TestStatus::Passed))
    } else if str_eq(w[0].as_str(), "FAILED") {
        Some((String::from_str(id), TestStatus::Failed))
    } else {
        None
    }
}

#[verifier::rlimit(60)]
fn cargo_obs_exec(l: &str) -> (r: Option<(String, TestStatus)>)
    ensures
        match cargo_obs(l@) {
            None => r is None,
            Some((id, st)) => r is Some && r->Some_0.0@ == id && r->Some_0.1 == st,
        },
{
    proof {
        reveal_strlit("test ");
        reveal_strlit(" ... ");
    }
    if !starts_with(l, "test ") {
        return None;
    }
    let rest = skip_chars(l, 5);
    let rn = rest.unicode_len();
    let k = match crate::text::rfind_str(rest, " ... ") {
        Some(k) => k,
        None => return None,
    };
    assert(k + 5 <= rn);
    let status_part = skip_chars(rest, k + 5);
    cargo_status(status_part, take_chars(rest, k))
}

fn trim_colons_exec(s: &str) -> (r: &str)
    ensures
        r@ == trim_colons(s@),
{
    let v = chars_of(s);
    let mut k: usize = v.len();
    assert(s@.take(k as int) =~= s@);
    while k > 0 && (v[k - 1] == ':' || v[k - 1] == ',')
        invariant
            v@ == s@,
            k <= v@.len(),
            trim_colons(s@) == trim_colons(s@.take(k as int)),
        decreases k,
    {
        assert(s@.take(k as int).drop_last() =~= s@.take(k - 1));
        k = k - 1;
    }
    take_chars(s, k)
}

fn pytest_obs_exec(l: &str) -> (r: Option<(String, TestStatus)>)
    ensures
        match pytest_obs(l@) {
            None => r is None,
            Some((id, st)) => r is Some && r->Some_0.0@ == id && r->Some_0.1 == st,
        },
{
    let st = if starts_with(l, "FAILED ") || contains(l, " FAILED") {
        TestStatus::Failed
    } else if starts_with(l, "PASSED ") || contains(l, " PASSED") {
        TestStatus::Passed
    } else {
        return None;
    };
    let w = split_words(l);
    let ghost wv = words(l@);
    let ghost stv = if sw(l@, "FAILED "@) || contains_seq(l@, " FAILED"@) {
        Some(TestStatus::Failed)
    } else if sw(l@, "PASSED "@) || contains_seq(l@, " PASSED"@) {
        Some(TestStatus::Passed)
    } else {
        None
    };
    assert(stv == Some(st));
    let mut k: usize = 0;
    assert(wv.skip(0) =~= wv);
    while k < w.len()
        invariant
            stv == Some(st),
            stv == (if sw(l@, "FAILED "@) || contains_seq(l@, " FAILED"@) {
                Some(TestStatus::Failed)
            } else if sw(l@, "PASSED "@) || contains_seq(l@, " PASSED"@) {
                Some(TestStatus::Passed)
            } else {
                None
            }),
            w@.len() == wv.len(),
            wv == words(l@),
            forall|q: int| 0 <= q < w@.len() ==> #[trigger] w@[q]@ == wv[q],
            k <= w@.len(),
            first_test_word(wv) == (if first_test_word(wv.skip(k as int)) < 0 {
                -1
            } else {
                first_test_word(wv.skip(k as int)) + k
            }),
        decreases w.len() - k,
    {
        assert(wv.skip(k as int)[0] == w@[k as int]@);
        if contains(w[k].as_str(), "::") {
            let id = String::from_str(trim_colons_exec(w[k].as_str()));
            return Some((id, st));
        }
        assert(wv.skip(k as int).drop_first() =~= wv.skip(k + 1));
        k = k + 1;
    }
    None
}

fn go_obs_exec(l: &str) -> (r: Option<(String, TestStatus)>)
    ensures
        match go_obs(l@) {
            None => r is None,
            Some((id, st)) => r is Some && r->Some_0.0@ == id && r->Some_0.1 == st,
        },
{
    let st = if starts_with(l, "--- PASS: ") {
        TestStatus::Passed
    } else if starts_with(l, "--- FAIL: ") {
        TestStatus::Failed
    } else {
        return None;
    };
    proof {
        reveal_strlit("--- PASS: ");
        reveal_strlit("--- FAIL: ");
    }
    let rest = skip_chars(l, 10);
    let w = split_words(rest);
    if w.len() > 0 {
        Some((String::from_str(w[0].as_str()), st))
    } else {
        Some((String::from_str(rest), st))
    }
}

fn strip_js_duration_exec(v0: &str) -> (r: &str)
    ensures
        r@ == strip_js_duration(v0@),
{
    let v = trim(v0);
    proof {
        reveal_strlit(" (");
    }
    let vn = v.unicode_len();
    match crate::text::rfind_str(v, " (") {
        Some(open) => {
            assert(open + 2 <= vn);
            let suffix = skip_chars(v, open + 2);
            if ends_with(suffix, "ms)") {
                proof {
                    reveal_strlit("ms)");
                }
                let n = suffix.unicode_len();
                let num = trim(take_chars(suffix, n - 3));
                if crate::text::parse_u64(num).is_some() {
                    return trim(take_chars(v, open));
                }
            }
            v
        },
        None => v,
    }
}

fn jest_obs_exec(l: &str) -> (r: Option<(String, TestStatus)>)
    ensures
        match jest_obs(l@) {
            None => r is None,
            Some((id, st)) => r is Some && r->Some_0.0@ == id && r->Some_0.1 == st,
        },
{
    let ts = trim_start(l);
    let tv = chars_of(ts);
    let (st, rest) = if starts_with(l, "PASS ") {
        proof {
            reveal_strlit("PASS ");
        }
        (TestStatus::Passed, skip_chars(l, 5))
    } else if starts_with(l, "FAIL ") {
        proof {
            reveal_strlit("FAIL ");
        }
        (TestStatus::Failed, skip_chars(l, 5))
    } else if tv.len() > 0 && (tv[0] == '✓' || tv[0] == '✔') {
        (TestStatus::Passed, trim(skip_chars(ts, 1)))
    } else if tv.len() > 0 && (tv[0] == '✕' || tv[0] == '×' || tv[0] == '✗') {
        (TestStatus::Failed, trim(skip_chars(ts, 1)))
    } else {
        return None;
    };
    proof {
        assert(ts@.skip(1) =~= ts@.drop_first());
    }
    let id = strip_js_duration_exec(rest);
    if id.unicode_len() == 0 {
        return None;
    }
    Some((String::from_str(id), st))
}

/// `s` without leading whitespace.
fn trim_start(s: &str) -> (r: &str)
    ensures
        r@ == trim_start_ws(s@),
{
    let v = chars_of(s);
    let n = v.len();
    let mut a: usize = 0;
    assert(s@.subrange(0, n as int) =~= s@);
    while a < n && crate::text::is_whitespace(v[a])
        invariant
            n == v@.len(),
            v@ == s@,
            a <= n,
            trim_start_ws(s@) == trim_start_ws(s@.subrange(a as int, n as int)),
        decreases n - a,
    {
        assert(s@.subrange(a as int, n as int).drop_first() =~= s@.subrange(a + 1, n as int));
        a = a + 1;
    }
    s.substring_char(a, n)
}

fn is_cargo_line(l: &str) -> (r: bool)
    ensures
        r == cargo_line(l@),
{
    starts_with(l, "test result:") || (starts_with(l, "running ") && ends_with(l, " tests"))
}

fn is_go_line(l: &str) -> (r: bool)
    ensures
        r == go_line(l@),
{
    starts_with(l, "=== RUN") || starts_with(l, "--- PASS:") || starts_with(l, "--- FAIL:")
        || starts_with(l, "ok\t") || starts_with(l, "FAIL\t")
}

fn is_jest_line(l: &str) -> (r: bool)
    ensures
        r == jest_line(l@),
{
    starts_with(l, "Test Suites:") || starts_with(l, "Tests:") || starts_with(l, "PASS ")
        || starts_with(l, "FAIL ") || contains(l, " Vitest ")
}

fn is_pytest_line(l: &str) -> (r: bool)
    ensures
        r == pytest_line(l@),
{
    contains(l, "short test summary info") || contains(l, "ERROR collecting") || starts_with(
        l,
        "collected ",
    ) || ((contains(l, " passed") || contains(l, " failed")) && (contains(l, " in ") || contains(
        l,
        "pytest",
    ))) || (contains(l, "::") && (contains(l, " PASSED") || contains(l, " FAILED") || starts_with(
        l,
        "FAILED ",
    ) || starts_with(l, "PASSED ")))
}

/// Whether some line is of kind `k` (0 cargo, 1 go, 2 Jest/Vitest, 3 pytest).
fn any_line(lines: &Vec<String>, k: u8) -> (r: bool)
    ensures
        k == 0 ==> r == exists|i: int| 0 <= i < lines@.len() && cargo_line(#[trigger] crate::rg::views(lines@)[i]),
        k == 1 ==> r == exists|i: int| 0 <= i < lines@.len() && go_line(#[trigger] crate::rg::views(lines@)[i]),
        k == 2 ==> r == exists|i: int| 0 <= i < lines@.len() && jest_line(#[trigger] crate::rg::views(lines@)[i]),
        k == 3 ==> r == exists|i: int| 0 <= i < lines@.len() && pytest_line(#[trigger] crate::rg::views(lines@)[i]),
{
    let ghost ls = crate::rg::views(lines@);
    let mut i: usize = 0;
    while i < lines.len()
        invariant
            ls == crate::rg::views(lines@),
            i <= lines@.len(),
            k == 0 ==> forall|j: int| 0 <= j < i ==> !cargo_line(#[trigger] ls[j]),
            k == 1 ==> forall|j: int| 0 <= j < i ==> !go_line(#[trigger] ls[j]),
            k == 2 ==> forall|j: int| 0 <= j < i ==> !jest_line(#[trigger] ls[j]),
            k == 3 ==> forall|j: int| 0 <= j < i ==> !pytest_line(#[trigger] ls[j]),
        decreases lines.len() - i,
    {
        let l = lines[i].as_str();
        assert(l@ == ls[i as int]);
        let hit = if k == 0 {
            is_cargo_line(l)
        } else if k == 1 {
            is_go_line(l)
        } else if k == 2 {
            is_jest_line(l)
        } else {
            is_pytest_line(l)
        };
        if hit && k <= 3 {
            return true;
        }
        i = i + 1;
    }
    false
}

/// The framework that printed `lines`.
pub fn detect_framework(lines: &Vec<String>) -> (r: Framework)
    ensures
        r == detect_spec(crate::rg::views(lines@)),
{
    if any_line(lines, 0) {
        Framework::CargoTest
    } else if any_line(lines, 1) {
        Framework::GoTest
    } else if any_line(lines, 2) {
        Framework::JestVitest
    } else if any_line(lines, 3) {
        Framework::Pytest
    } else {
        Framework::Unknown
    }
}

fn obs_exec(f: Framework, l: &str) -> (r: Option<(String, TestStatus)>)
    ensures
        match obs_of(f, l@) {
            None => r is None,
            Some((id, st)) => r is Some && r->Some_0.0@ == id && r->Some_0.1 == st,
        },
{
    match f {
        Framework::CargoTest => cargo_obs_exec(l),
        Framework::Pytest => pytest_obs_exec(l),
        Framework::GoTest => go_obs_exec(l),
        Framework::JestVitest => jest_obs_exec(l),
        Framework::Unknown => None,
    }
}

/// The observations that framework `f`'s parser finds in `lines`.
pub fn parse_tests(f: Framework, lines: &Vec<String>) -> (r: ObsTable)
    ensures
        table_model(r@) == table_spec(f, crate::rg::views(lines@)),
{
    let ghost ls = crate::rg::views(lines@);
    let mut t: ObsTable = Vec::new();
    let mut i: usize = 0;
    assert(ls.take(0) =~= Seq::<Seq<char>>::empty());
    assert(table_model(t@) =~= Seq::<(Seq<char>, ObsModel)>::empty());
    while i < lines.len()
        invariant
            ls == crate::rg::views(lines@),
            i <= lines@.len(),
            table_model(t@) == table_spec(f, ls.take(i as int)),
        decreases lines.len() - i,
    {
        let l = lines[i].as_str();
        assert(ls.take(i + 1).drop_last() =~= ls.take(i as int));
        assert(ls.take(i + 1).last() == l@);
        match obs_exec(f, l) {
            Some((id, st)) => {
                let ev = one_line(l);
                table_insert(&mut t, id, TestObservation { status: st, evidence_line: ev });
            },
            None => {},
        }
        i = i + 1;
    }
    assert(ls.take(lines@.len() as int) =~= ls);
    t
}

/// The names of the failure signatures, in the order they are tried.
pub open spec fn signature_name(i: int) -> Seq<char> {
    if i == 0 {
        "command_not_found"@
    } else if i == 1 {
        "missing_file_or_interpreter"@
    } else if i == 2 {
        "missing_test_runner"@
    } else if i == 3 {
        "cannot_execute"@
    } else if i == 4 {
        "compile_failure"@
    } else {
        "collection_failure"@
    }
}

/// The lower-case needles that mark each failure signature.
pub open spec fn signature_needles(i: int) -> Seq<Seq<char>> {
    if i == 0 {
        seq!["command not found"@, "not recognized as an internal or external command"@]
    } else if i == 1 {
        seq!["no such file or directory"@, "bad interpreter"@]
    } else if i == 2 {
        seq![
            "no module named pytest"@,
            "no module named 'pytest'"@,
            "no module named unittest"@,
            "no module named nose"@,
        ]
    } else if i == 3 {
        seq!["cannot execute binary file"@, "cannot execute: required file not found"@]
    } else if i == 4 {
        seq!["error: could not compile"@, "[build failed]"@]
    } else {
        seq![
            "error collecting"@,
            "importerror while importing test module"@,
            "modulenotfounderror"@,
            "test suite failed to run"@,
        ]
    }
}

fn needles(i: usize) -> (r: Vec<&'static str>)
    ensures
        Seq::new(r@.len(), |k: int| r@[k]@) == signature_needles(i as int),
{
    let v = if i == 0 {
        vec!["command not found", "not recognized as an internal or external command"]
    } else if i == 1 {
        vec!["no such file or directory", "bad interpreter"]
    } else if i == 2 {
        vec![
            "no module named pytest",
            "no module named 'pytest'",
            "no module named unittest",
            "no module named nose",
        ]
    } else if i == 3 {
        vec!["cannot execute binary file", "cannot execute: required file not found"]
    } else if i == 4 {
        vec!["error: could not compile", "[build failed]"]
    } else {
        vec![
            "error collecting",
            "importerror while importing test module",
            "modulenotfounderror",
            "test suite failed to run",
        ]
    };
    assert(Seq::new(v@.len(), |k: int| v@[k]@) =~= signature_needles(i as int));
    v
}

fn signature_name_str(i: usize) -> (r: &'static str)
    ensures
        r@ == signature_name(i as int),
{
    if i == 0 {
        "command_not_found"
    } else if i == 1 {
        "missing_file_or_interpreter"
    } else if i == 2 {
        "missing_test_runner"
    } else if i == 3 {
        "cannot_execute"
    } else if i == 4 {
        "compile_failure"
    } else {
        "collection_failure"
    }
}

/// The lower-cased line holds one of the needles.
pub open spec fn line_matches(l: Seq<char>, ns: Seq<Seq<char>>) -> bool {
    exists|k: int| 0 <= k < ns.len() && contains_seq(ascii_lower(l), #[trigger] ns[k])
}

/// Index of the first line that matches, or -1.
pub open spec fn first_match(lines: Seq<Seq<char>>, ns: Seq<Seq<char>>) -> int
    decreases lines.len(),
{
    if lines.len() == 0 {
        -1
    } else if line_matches(lines[0], ns) {
        0
    } else if first_match(lines.drop_first(), ns) < 0 {
        -1
    } else {
        first_match(lines.drop_first(), ns) + 1
    }
}

/// The first signature, from the `i`-th on, that some line shows, with the
/// first such line.
pub open spec fn signature_from(lines: Seq<Seq<char>>, i: int) -> Option<(Seq<char>, Seq<char>)>
    decreases 6 - i,
{
    if i < 0 || i >= 6 {
        None
    } else if first_match(lines, signature_needles(i)) >= 0 {
        Some((signature_name(i), one_line_spec(lines[first_match(lines, signature_needles(i))])))
    } else {
        signature_from(lines, i + 1)
    }
}

/// Some observation is a failure.
pub open spec fn any_failed(t: Seq<(Seq<char>, ObsModel)>) -> bool {
    exists|i: int| 0 <= i < t.len() && (#[trigger] t[i]).1.status == TestStatus::Failed
}

/// Why a run failed without a test assertion failing, if it did: a known
/// failure signature in the output, or a non-zero exit of a recognised
/// framework that reported no failed test.
pub open spec fn classify_spec(exit_code: Option<i32>, f: Framework, t: Seq<(Seq<char>, ObsModel)>, lines: Seq<Seq<char>>) -> Option<(Seq<char>, Seq<char>)> {
    if exit_code == Some(0i32) {
        None
    } else {
        match signature_from(lines, 0) {
            Some(x) => Some(x),
            None => if f != Framework::Unknown && !any_failed(t) {
                Some(
                    (
                        "nonzero_without_assertion_failure"@,
                        if lines.len() > 0 {
                            one_line_spec(lines[0])
                        } else {
                            "nonzero exit without test-framework output"@
                        },
                    ),
                )
            } else {
                None
            },
        }
    }
}

/// A run's failure outside any test assertion: a signature and the output
/// line that shows it.
#[derive(Debug)]
pub struct InfrastructureFailure {
    pub signature: String,
    pub evidence_line: String,
}

fn matches_any(l: &str, ns: &Vec<&str>) -> (r: bool)
    ensures
        r == line_matches(l@, Seq::new(ns@.len(), |k: int| ns@[k]@)),
{
    let ghost nv = Seq::new(ns@.len(), |k: int| ns@[k]@);
    let lower = crate::text::to_ascii_lower(l);
    let mut k: usize = 0;
    while k < ns.len()
        invariant
            nv == Seq::new(ns@.len(), |k: int| ns@[k]@),
            lower@ == ascii_lower(l@),
            k <= ns@.len(),
            forall|j: int| 0 <= j < k ==> !contains_seq(ascii_lower(l@), #[trigger] nv[j]),
        decreases ns.len() - k,
    {
        if contains(lower.as_str(), ns[k]) {
            assert(contains_seq(ascii_lower(l@), nv[k as int]));
            return true;
        }
        k = k + 1;
    }
    false
}

fn first_matching_line(lines: &Vec<String>, ns: &Vec<&str>) -> (r: Option<usize>)
    ensures
        ({
            let f = first_match(crate::rg::views(lines@), Seq::new(ns@.len(), |k: int| ns@[k]@));
            match r {
                Some(i) => i == f && i < lines@.len(),
                None => f == -1,
            }
        }),
{
    let ghost ls = crate::rg::views(lines@);
    let ghost nv = Seq::new(ns@.len(), |k: int| ns@[k]@);
    let mut i: usize = 0;
    assert(ls.skip(0) =~= ls);
    while i < lines.len()
        invariant
            ls == crate::rg::views(lines@),
            nv == Seq::new(ns@.len(), |k: int| ns@[k]@),
            i <= lines@.len(),
            first_match(ls, nv) == (if first_match(ls.skip(i as int), nv) < 0 {
                -1
            } else {
                first_match(ls.skip(i as int), nv) + i
            }),
        decreases lines.len() - i,
    {
        assert(ls.skip(i as int)[0] == lines@[i as int]@);
        if matches_any(lines[i].as_str(), ns) {
            return Some(i);
        }
        assert(ls.skip(i as int).drop_first() =~= ls.skip(i + 1));
        i = i + 1;
    }
    None
}

proof fn lemma_first_match_bound(lines: Seq<Seq<char>>, ns: Seq<Seq<char>>)
    ensures
        -1 <= first_match(lines, ns) < lines.len(),
    decreases lines.len(),
{
    if lines.len() > 0 {
        lemma_first_match_bound(lines.drop_first(), ns);
    }
}

fn any_failed_exec(t: &ObsTable) -> (r: bool)
    ensures
        r == any_failed(table_model(t@)),
{
    let ghost tm = table_model(t@);
    let mut i: usize = 0;
    while i < t.len()
        invariant
            tm == table_model(t@),
            i <= t@.len(),
            forall|j: int| 0 <= j < i ==> (#[trigger] tm[j]).1.status != TestStatus::Failed,
        decreases t.len() - i,
    {
        if t[i].1.status == TestStatus::Failed {
            assert(tm[i as int].1.status == TestStatus::Failed);
            return true;
        }
        i = i + 1;
    }
    false
}

/// Why a run failed without a test assertion failing, if it did.
pub fn classify_infrastructure(exit_code: Option<i32>, f: Framework, tests: &ObsTable, lines: &Vec<String>) -> (r: Option<InfrastructureFailure>)
    ensures
        match classify_spec(exit_code, f, table_model(tests@), crate::rg::views(lines@)) {
            None => r is None,
            Some((sig, ev)) => r is Some && r->Some_0.signature@ == sig && r->Some_0.evidence_line@ == ev,
        },
{
    match exit_code {
        Some(0) => {
            return None;
        },
        _ => {},
    }
    let ghost ls = crate::rg::views(lines@);
    let mut i: usize = 0;
    while i < 6
        invariant
            ls == crate::rg::views(lines@),
            exit_code != Some(0i32),
            i <= 6,
            signature_from(ls, 0) == signature_from(ls, i as int),
        decreases 6 - i,
    {
        let ns = needles(i);
        match first_matching_line(lines, &ns) {
            Some(k) => {
                proof {
                    assert(lines@[k as int]@ == ls[k as int]);
                }
                return Some(
                    InfrastructureFailure {
                        signature: String::from_str(signature_name_str(i)),
                        evidence_line: one_line(lines[k].as_str()),
                    },
                );
            },
            None => {},
        }
        i = i + 1;
    }
    if f != Framework::Unknown && !any_failed_exec(tests) {
        let ev = if lines.len() > 0 {
            one_line(lines[0].as_str())
        } else {
            String::from_str("nonzero exit without test-framework output")
        };
        return Some(
            InfrastructureFailure {
                signature: String::from_str("nonzero_without_assertion_failure"),
                evidence_line: ev,
            },
        );
    }
    None
}

/// Where an ANSI control sequence whose parameters start at `j` ends: just
/// past its final byte (0x40 to 0x7e), or the end of the bytes.
pub open spec fn csi_end(b: Seq<u8>, j: int) -> int
    decreases b.len() - j,
{
    if j < 0 || j >= b.len() {
        b.len() as int
    } else if 0x40 <= b[j] <= 0x7e {
        j + 1
    } else {
        csi_end(b, j + 1)
    }
}

/// An ANSI control sequence ends after its start and within the bytes.
pub proof fn lemma_csi_end_bound(b: Seq<u8>, j: int)
    requires
        0 <= j,
    ensures
        j < csi_end(b, j) <= b.len() || (j >= b.len() && csi_end(b, j) == b.len()),
    decreases b.len() - j,
{
    if j < b.len() && !(0x40 <= b[j] <= 0x7e) {
        lemma_csi_end_bound(b, j + 1);
    }
}

/// The bytes from `i` on without ANSI control sequences (`ESC [` up to and
/// including the final byte).
pub open spec fn ansi_from(b: Seq<u8>, i: int) -> Seq<u8>
    decreases b.len() - i,
{
    if i < 0 || i >= b.len() {
        Seq::empty()
    } else if b[i] == 0x1b && i + 1 < b.len() && b[i + 1] == 0x5b {
        proof {
            lemma_csi_end_bound(b, i + 2);
        }
        ansi_from(b, csi_end(b, i + 2))
    } else {
        seq![b[i]] + ansi_from(b, i + 1)
    }
}

/// `value` without ANSI control sequences.
pub open spec fn strip_ansi_spec(value: Seq<char>) -> Seq<char> {
    utf8_lossy(ansi_from(vstd::utf8::encode_utf8(value), 0))
}

/// Removes ANSI control sequences from `value`.
pub fn strip_ansi(value: &str) -> (r: String)
    ensures
        r@ == strip_ansi_spec(value@),
{
    let bytes = value.as_bytes();
    let ghost b = bytes@;
    let mut out: Vec<u8> = Vec::new();
    let mut index: usize = 0;
    assert(out@ + ansi_from(b, 0) =~= ansi_from(b, 0));
    while index < bytes.len()
        invariant
            bytes@ == b,
            index <= b.len(),
            out@ + ansi_from(b, index as int) == ansi_from(b, 0),
        decreases bytes.len() - index,
    {
        if bytes[index] == 0x1b && index + 1 < bytes.len() && bytes[index + 1] == 0x5b {
            let ghost start = index;
            index = index + 2;
            proof {
                lemma_csi_end_bound(b, index as int);
            }
            while index < bytes.len()
                invariant_except_break
                    bytes@ == b,
                    start + 2 <= index <= b.len(),
                    csi_end(b, start + 2) == csi_end(b, index as int),
                ensures
                    bytes@ == b,
                    start + 2 <= index <= b.len(),
                    index == csi_end(b, start + 2),
                decreases bytes.len() - index,
            {
                let byte = bytes[index];
                if 0x40 <= byte && byte <= 0x7e {
                    index = index + 1;
                    break;
                }
                index = index + 1;
            }
        } else {
            let ghost before = out@;
            out.push(bytes[index]);
            assert(out@ + ansi_from(b, index + 1) =~= before + ansi_from(b, index as int));
            index = index + 1;
        }
    }
    assert(out@ =~= ansi_from(b, 0));
    crate::text::lossy_string(out.as_slice())
}

/// A finished test command: exit code, output, whether it timed out, and
/// why it could not start, if it could not.
pub struct CommandRun {
    pub exit_code: Option<i32>,
    pub stdout: Vec<u8>,
    pub stderr: Vec<u8>,
    pub timed_out: bool,
    pub spawn_error: Option<String>,
}

/// Standard output then standard error, with a newline between them when
/// both are non-empty and the first does not end in one.
pub open spec fn combined_bytes(out: Seq<u8>, err: Seq<u8>) -> Seq<u8> {
    out + (if out.len() > 0 && err.len() > 0 && out.last() != 10 {
        seq![10u8]
    } else {
        Seq::empty()
    }) + err
}

impl CommandRun {
    /// Both outputs as one text.
    pub fn combined_text(&self) -> (r: String)
        ensures
            r@ == utf8_lossy(combined_bytes(self.stdout@, self.stderr@)),
    {
        let mut bytes: Vec<u8> = Vec::new();
        let mut i: usize = 0;
        while i < self.stdout.len()
            invariant
                i <= self.stdout@.len(),
                bytes@ == self.stdout@.take(i as int),
            decreases self.stdout.len() - i,
        {
            bytes.push(self.stdout[i]);
            assert(self.stdout@.take(i + 1) =~= self.stdout@.take(i as int).push(self.stdout@[i as int]));
            i = i + 1;
        }
        assert(self.stdout@.take(self.stdout@.len() as int) =~= self.stdout@);
        let ghost mid = bytes@;
        if self.stdout.len() > 0 && self.stderr.len() > 0 && self.stdout[self.stdout.len() - 1] != 10 {
            bytes.push(10);
        }
        let ghost mid2 = bytes@;
        let mut j: usize = 0;
        while j < self.stderr.len()
            invariant
                j <= self.stderr@.len(),
                bytes@ == mid2 + self.stderr@.take(j as int),
            decreases self.stderr.len() - j,
        {
            bytes.push(self.stderr[j]);
            assert(self.stderr@.take(j + 1) =~= self.stderr@.take(j as int).push(self.stderr@[j as int]));
            j = j + 1;
        }
        assert(self.stderr@.take(self.stderr@.len() as int) =~= self.stderr@);
        assert(bytes@ =~= combined_bytes(self.stdout@, self.stderr@));
        crate::text::lossy_string(bytes.as_slice())
    }
}

/// What a run's output says, as plain values.
pub struct ParsedModel {
    pub framework: Framework,
    pub tests: Seq<(Seq<char>, ObsModel)>,
    pub infrastructure: Option<(Seq<char>, Seq<char>)>,
    pub limitation: Option<Seq<char>>,
}

/// What a run's output says: framework, tests, infrastructure failure,
/// and what limits the comparison.
pub struct ParsedRun {
    pub framework: Framework,
    pub tests: ObsTable,
    pub infrastructure: Option<InfrastructureFailure>,
    pub limitation: Option<String>,
}

impl ParsedRun {
    /// What the parse holds, as plain values.
    pub open spec fn model(&self) -> ParsedModel {
        ParsedModel {
            framework: self.framework,
            tests: table_model(self.tests@),
            infrastructure: match self.infrastructure {
                Some(i) => Some((i.signature@, i.evidence_line@)),
                None => None,
            },
            limitation: match self.limitation {
                Some(l) => Some(l@),
                None => None,
            },
        }
    }

    /// The observation of test `id`.
    pub fn test(&self, id: &str) -> (r: Option<&TestObservation>)
        ensures
            match lookup(table_model(self.tests@), id@) {
                Some(m) => r is Some && r.unwrap().status == m.status && r.unwrap().evidence_line@ == m.evidence_line,
                None => r is None,
            },
    {
        table_get(&self.tests, id)
    }
}

/// The note for a recognised framework whose output named no tests.
pub open spec fn no_ids_note(f: Framework) -> Seq<char> {
    framework_name(f)
        + " was recognized, but this output did not expose individual test IDs; command-level evidence is used where possible"@
}

/// What the output of a run says.
pub open spec fn parse_run_spec(exit_code: Option<i32>, out: Seq<u8>, err: Seq<u8>, timed_out: bool, spawn_error: Option<Seq<char>>) -> ParsedModel {
    match spawn_error {
        Some(e) => ParsedModel {
            framework: Framework::Unknown,
            tests: Seq::empty(),
            infrastructure: Some(("test_process_spawn_error"@, one_line_spec(e))),
            limitation: Some("no test framework output was produced"@),
        },
        None => if timed_out {
            ParsedModel {
                framework: Framework::Unknown,
                tests: Seq::empty(),
                infrastructure: Some(("timeout"@, "test command exceeded its timeout"@)),
                limitation: Some("the timed-out run may have emitted only partial test output"@),
            }
        } else {
            let lines = lines_spec(strip_ansi_spec(utf8_lossy(combined_bytes(out, err))));
            let f = detect_spec(lines);
            let t = table_spec(f, lines);
            ParsedModel {
                framework: f,
                tests: t,
                infrastructure: classify_spec(exit_code, f, t, lines),
                limitation: if f == Framework::Unknown {
                    Some("unrecognized test framework: comparison is limited to command exit codes"@)
                } else if t.len() == 0 {
                    Some(no_ids_note(f))
                } else {
                    None
                },
            }
        },
    }
}

/// Reads a run's output: framework, per-test outcomes, infrastructure
/// failure and limitations.
pub fn parse_run(run: &CommandRun) -> (r: ParsedRun)
    ensures
        r.model() == parse_run_spec(
            run.exit_code,
            run.stdout@,
            run.stderr@,
            run.timed_out,
            match run.spawn_error {
                Some(e) => Some(e@),
                None => None,
            },
        ),
{
    match &run.spawn_error {
        Some(error) => {
            let r = ParsedRun {
                framework: Framework::Unknown,
                tests: Vec::new(),
                infrastructure: Some(
                    InfrastructureFailure {
                        signature: String::from_str("test_process_spawn_error"),
                        evidence_line: one_line(error.as_str()),
                    },
                ),
                limitation: Some(String::from_str("no test framework output was produced")),
            };
            assert(r.model().tests =~= Seq::<(Seq<char>, ObsModel)>::empty());
            return r;
        },
        None => {},
    }
    if run.timed_out {
        let r = ParsedRun {
            framework: Framework::Unknown,
            tests: Vec::new(),
            infrastructure: Some(
                InfrastructureFailure {
                    signature: String::from_str("timeout"),
                    evidence_line: String::from_str("test command exceeded its timeout"),
                },
            ),
            limitation: Some(String::from_str("the timed-out run may have emitted only partial test output")),
        };
        assert(r.model().tests =~= Seq::<(Seq<char>, ObsModel)>::empty());
        return r;
    }
    let combined = run.combined_text();
    let text = strip_ansi(combined.as_str());
    let lines = clean_lines(text.as_str());
    let framework = detect_framework(&lines);
    let tests = parse_tests(framework, &lines);
    let infrastructure = classify_infrastructure(run.exit_code, framework, &tests, &lines);
    let limitation = if framework == Framework::Unknown {
        Some(String::from_str("unrecognized test framework: comparison is limited to command exit codes"))
    } else if tests.len() == 0 {
        let mut m = String::from_str(framework.as_str());
        m.append(" was recognized, but this output did not expose individual test IDs; command-level evidence is used where possible");
        Some(m)
    } else {
        None
    };
    ParsedRun { framework, tests, infrastructure, limitation }
}

/// Exit code of a verification whose run or setup failed outside any test.
pub const EXIT_INFRASTRUCTURE: i32 = 22;

/// Exit code of a verification in which a test newly failed.
pub const EXIT_NEWLY_FAILED: i32 = 21;

/// A command's outcome as a test status: exit 0 passes, any other exit
/// fails, no exit code gives none.
pub open spec fn command_status_spec(exit_code: Option<i32>) -> Option<TestStatus> {
    match exit_code {
        Some(c) => Some(if c == 0 {
            TestStatus::Passed
        } else {
            TestStatus::Failed
        }),
        None => None,
    }
}

/// A command's outcome as a test status.
pub fn command_status(exit_code: Option<i32>) -> (r: Option<TestStatus>)
    ensures
        r == command_status_spec(exit_code),
{
    match exit_code {
        Some(c) => Some(if c == 0 {
            TestStatus::Passed
        } else {
            TestStatus::Failed
        }),
        None => None,
    }
}

/// The framework named in a report: the shared one, the known one when
/// the other is unknown or absent, else `mixed:BASELINE+AFTER`.
pub open spec fn combined_framework_spec(after: Framework, baseline: Option<Framework>) -> Seq<char> {
    match baseline {
        Some(b) => if b == after {
            framework_name(b)
        } else if b == Framework::Unknown {
            framework_name(after)
        } else if after == Framework::Unknown {
            framework_name(b)
        } else {
            "mixed:"@ + framework_name(b) + "+"@ + framework_name(after)
        },
        None => framework_name(after),
    }
}

/// The framework named in a report.
pub fn combined_framework(after: Framework, baseline: Option<Framework>) -> (r: String)
    ensures
        r@ == combined_framework_spec(after, baseline),
{
    match baseline {
        Some(b) => {
            if b == after {
                String::from_str(b.as_str())
            } else if b == Framework::Unknown {
                String::from_str(after.as_str())
            } else if after == Framework::Unknown {
                String::from_str(b.as_str())
            } else {
                let mut m = String::from_str("mixed:");
                m.append(b.as_str());
                m.append("+");
                m.append(after.as_str());
                m
            }
        },
        None => String::from_str(after.as_str()),
    }
}

/// Adds a limitation note unless it is absent or already listed.
pub fn push_limitation(limitations: &mut Vec<String>, value: Option<String>)
    ensures
        match value {
            Some(v) => if crate::rg::views(old(limitations)@).contains(v@) {
                crate::rg::views(final(limitations)@) == crate::rg::views(old(limitations)@)
            } else {
                crate::rg::views(final(limitations)@) == crate::rg::views(old(limitations)@).push(v@)
            },
            None => crate::rg::views(final(limitations)@) == crate::rg::views(old(limitations)@),
        },
{
    match &value {
        Some(v) => {
            if !contains_string(limitations, v) {
                let ghost ls = crate::rg::views(limitations@);
                limitations.push(v.clone());
                assert(crate::rg::views(limitations@) =~= ls.push(v@));
            }
        },
        None => {},
    }
}

fn contains_string(list: &Vec<String>, v: &String) -> (r: bool)
    ensures
        r == crate::rg::views(list@).contains(v@),
{
    let ghost ls = crate::rg::views(list@);
    let mut i: usize = 0;
    while i < list.len()
        invariant
            ls == crate::rg::views(list@),
            i <= list@.len(),
            forall|j: int| 0 <= j < i ==> ls[j] != v@,
        decreases list.len() - i,
    {
        if list[i].eq(v) {
            assert(ls[i as int] == v@);
            return true;
        }
        i = i + 1;
    }
    false
}

/// A test (or `command`) and the output line behind its classification.
#[derive(Debug)]
pub struct ReportCase {
    pub test_id: String,
    pub evidence_line: String,
}

/// The baseline-versus-after classification of every test.
#[derive(Debug)]
pub struct Comparison {
    pub newly_failed: Vec<ReportCase>,
    pub fixed: Vec<ReportCase>,
    pub preexisting_failed: Vec<ReportCase>,
    pub still_passing: Vec<ReportCase>,
    pub not_run_in_after: Vec<ReportCase>,
}

/// The cases of a list as plain values.
pub open spec fn cases_model(v: Seq<ReportCase>) -> Seq<(Seq<char>, Seq<char>)> {
    Seq::new(v.len(), |i: int| (v[i].test_id@, v[i].evidence_line@))
}

/// A comparison as plain values.
pub struct ComparisonModel {
    pub newly_failed: Seq<(Seq<char>, Seq<char>)>,
    pub fixed: Seq<(Seq<char>, Seq<char>)>,
    pub preexisting_failed: Seq<(Seq<char>, Seq<char>)>,
    pub still_passing: Seq<(Seq<char>, Seq<char>)>,
    pub not_run_in_after: Seq<(Seq<char>, Seq<char>)>,
}

impl Comparison {
    /// The comparison as plain values.
    pub open spec fn model(&self) -> ComparisonModel {
        ComparisonModel {
            newly_failed: cases_model(self.newly_failed@),
            fixed: cases_model(self.fixed@),
            preexisting_failed: cases_model(self.preexisting_failed@),
            still_passing: cases_model(self.still_passing@),
            not_run_in_after: cases_model(self.not_run_in_after@),
        }
    }

    /// No test classified yet.
    pub fn new() -> (r: Comparison)
        ensures
            r.model() == empty_comparison(),
    {
        let r = Comparison {
            newly_failed: Vec::new(),
            fixed: Vec::new(),
            preexisting_failed: Vec::new(),
            still_passing: Vec::new(),
            not_run_in_after: Vec::new(),
        };
        assert(r.model().newly_failed =~= Seq::<(Seq<char>, Seq<char>)>::empty());
        assert(r.model().fixed =~= Seq::<(Seq<char>, Seq<char>)>::empty());
        assert(r.model().preexisting_failed =~= Seq::<(Seq<char>, Seq<char>)>::empty());
        assert(r.model().still_passing =~= Seq::<(Seq<char>, Seq<char>)>::empty());
        assert(r.model().not_run_in_after =~= Seq::<(Seq<char>, Seq<char>)>::empty());
        r
    }
}

/// No test classified.
pub open spec fn empty_comparison() -> ComparisonModel {
    ComparisonModel {
        newly_failed: Seq::empty(),
        fixed: Seq::empty(),
        preexisting_failed: Seq::empty(),
        still_passing: Seq::empty(),
        not_run_in_after: Seq::empty(),
    }
}

/// Where one test goes: passed then failed is newly failed, failed then
/// passed fixed, failed twice pre-existing, passed twice still passing; a
/// test new in the after run counts by its own outcome; a test missing from
/// the after run was not run. The after run's evidence is kept where it ran.
pub open spec fn pair_spec(c: ComparisonModel, id: Seq<char>, base: Option<ObsModel>, after: Option<ObsModel>) -> ComparisonModel {
    match (base, after) {
        (Some(b), Some(a)) => {
            let e = (id, a.evidence_line);
            if b.status == TestStatus::Passed && a.status == TestStatus::Failed {
                ComparisonModel { newly_failed: c.newly_failed.push(e), ..c }
            } else if b.status == TestStatus::Failed && a.status == TestStatus::Passed {
                ComparisonModel { fixed: c.fixed.push(e), ..c }
            } else if b.status == TestStatus::Failed {
                ComparisonModel { preexisting_failed: c.preexisting_failed.push(e), ..c }
            } else {
                ComparisonModel { still_passing: c.still_passing.push(e), ..c }
            }
        },
        (None, Some(a)) => if a.status == TestStatus::Failed {
            ComparisonModel { newly_failed: c.newly_failed.push((id, a.evidence_line)), ..c }
        } else {
            ComparisonModel { still_passing: c.still_passing.push((id, a.evidence_line)), ..c }
        },
        (Some(b), None) => ComparisonModel {
            not_run_in_after: c.not_run_in_after.push((id, b.evidence_line)),
            ..c
        },
        (None, None) => c,
    }
}

fn push_case(v: &mut Vec<ReportCase>, id: &str, ev: &str)
    ensures
        cases_model(final(v)@) == cases_model(old(v)@).push((id@, ev@)),
{
    let ghost before = v@;
    v.push(ReportCase { test_id: String::from_str(id), evidence_line: String::from_str(ev) });
    assert(cases_model(v@) =~= cases_model(before).push((id@, ev@)));
}

/// The model of an optional observation.
pub open spec fn obs_opt(o: Option<&TestObservation>) -> Option<ObsModel> {
    match o {
        Some(x) => Some(ObsModel { status: x.status, evidence_line: x.evidence_line@ }),
        None => None,
    }
}

/// Classifies one test by its baseline and after observations.
pub fn classify_pair(test_id: &str, baseline: Option<&TestObservation>, after: Option<&TestObservation>, report: &mut Comparison)
    ensures
        final(report).model() == pair_spec(old(report).model(), test_id@, obs_opt(baseline), obs_opt(after)),
{
    match (baseline, after) {
        (Some(b), Some(a)) => {
            if b.status == TestStatus::Passed && a.status == TestStatus::Failed {
                push_case(&mut report.newly_failed, test_id, a.evidence_line.as_str());
            } else if b.status == TestStatus::Failed && a.status == TestStatus::Passed {
                push_case(&mut report.fixed, test_id, a.evidence_line.as_str());
            } else if b.status == TestStatus::Failed {
                push_case(&mut report.preexisting_failed, test_id, a.evidence_line.as_str());
            } else {
                push_case(&mut report.still_passing, test_id, a.evidence_line.as_str());
            }
        },
        (None, Some(a)) => {
            if a.status == TestStatus::Failed {
                push_case(&mut report.newly_failed, test_id, a.evidence_line.as_str());
            } else {
                push_case(&mut report.still_passing, test_id, a.evidence_line.as_str());
            }
        },
        (Some(b), None) => {
            push_case(&mut report.not_run_in_after, test_id, b.evidence_line.as_str());
        },
        (None, None) => {},
    }
}

/// The exit code of a verification: infrastructure failures first, then
/// newly failed tests, else success.
pub open spec fn report_exit_spec(infrastructure: nat, newly_failed: nat) -> i32 {
    if infrastructure > 0 {
        EXIT_INFRASTRUCTURE
    } else if newly_failed > 0 {
        EXIT_NEWLY_FAILED
    } else {
        0
    }
}

/// The exit code of a verification.
pub fn report_exit_code(infrastructure: usize, newly_failed: usize) -> (r: i32)
    ensures
        r == report_exit_spec(infrastructure as nat, newly_failed as nat),
{
    if infrastructure > 0 {
        EXIT_INFRASTRUCTURE
    } else if newly_failed > 0 {
        EXIT_NEWLY_FAILED
    } else {
        0
    }
}

/// The decimal digits of `n`.
pub open spec fn digits_spec(n: nat) -> Seq<char>
    decreases n,
{
    if n < 10 {
        seq![(('0' as u32) + n) as char]
    } else {
        digits_spec(n / 10) + seq![(('0' as u32) + (n % 10)) as char]
    }
}

/// `v` in decimal, with a leading `-` when negative.
pub open spec fn decimal_spec(v: int) -> Seq<char> {
    if v < 0 {
        seq!['-'] + digits_spec((-v) as nat)
    } else {
        digits_spec(v as nat)
    }
}

fn digit_char(d: u64) -> (c: char)
    requires
        d < 10,
    ensures
        c == (('0' as u32) + d) as char,
{
    if d == 0 { '0' } else if d == 1 { '1' } else if d == 2 { '2' } else if d == 3 { '3' } else if d == 4 { '4' }
    else if d == 5 { '5' } else if d == 6 { '6' } else if d == 7 { '7' } else if d == 8 { '8' } else { '9' }
}

/// `n` in decimal.
pub fn digits_string(n: u64) -> (r: String)
    ensures
        r@ == digits_spec(n as nat),
    decreases n,
{
    if n < 10 {
        let mut s = String::new();
        crate::text::push_char(&mut s, digit_char(n));
        assert(s@ =~= digits_spec(n as nat));
        s
    } else {
        let mut s = digits_string(n / 10);
        crate::text::push_char(&mut s, digit_char(n % 10));
        s
    }
}

/// `v` in decimal, with a leading `-` when negative.
pub fn i64_to_decimal(v: i64) -> (r: String)
    ensures
        r@ == decimal_spec(v as int),
{
    if v < 0 {
        let m: u64 = if v == i64::MIN {
            9223372036854775808u64
        } else {
            (-v) as u64
        };
        let mut s = String::from_str("-");
        s.append(digits_string(m).as_str());
        proof {
            reveal_strlit("-");
        }
        s
    } else {
        digits_string(v as u64)
    }
}

/// `v` in decimal.
pub fn i32_to_decimal(v: i32) -> (r: String)
    ensures
        r@ == decimal_spec(v as int),
{
    if v < 0 {
        let m: u64 = (-(v as i64)) as u64;
        let mut s = String::from_str("-");
        s.append(digits_string(m).as_str());
        proof {
            reveal_strlit("-");
        }
        s
    } else {
        digits_string(v as u64)
    }
}

/// What stands for a whole command in a comparison without test ids: the
/// first line of its output, or its exit code (-1 for none).
pub open spec fn command_evidence_spec(run: Option<(Option<i32>, Seq<u8>, Seq<u8>)>) -> Seq<char> {
    match run {
        None => "command did not run"@,
        Some((code, out, err)) => {
            let lines = lines_spec(strip_ansi_spec(utf8_lossy(combined_bytes(out, err))));
            if lines.len() > 0 {
                one_line_spec(lines[0])
            } else {
                "command exited "@ + decimal_spec(match code {
                    Some(c) => c as int,
                    None => -1,
                })
            }
        },
    }
}

/// The plain values of a run that evidence is drawn from.
pub open spec fn run_parts(run: Option<&CommandRun>) -> Option<(Option<i32>, Seq<u8>, Seq<u8>)> {
    match run {
        Some(r) => Some((r.exit_code, r.stdout@, r.stderr@)),
        None => None,
    }
}

/// What stands for a whole command in a comparison without test ids.
pub fn command_evidence(run: Option<&CommandRun>) -> (r: String)
    ensures
        r@ == command_evidence_spec(run_parts(run)),
{
    match run {
        None => String::from_str("command did not run"),
        Some(r) => {
            let text = strip_ansi(r.combined_text().as_str());
            let lines = clean_lines(text.as_str());
            if lines.len() > 0 {
                one_line(lines[0].as_str())
            } else {
                let code: i32 = match r.exit_code {
                    Some(c) => c,
                    None => -1,
                };
                let mut m = String::from_str("command exited ");
                m.append(i32_to_decimal(code).as_str());
                m
            }
        },
    }
}

/// Adds key `k` to a key-ordered list of distinct keys.
pub open spec fn insert_key(s: Seq<Seq<char>>, k: Seq<char>) -> Seq<Seq<char>>
    decreases s.len(),
{
    if s.len() == 0 {
        seq![k]
    } else if s[0] == k {
        s
    } else if seq_lt(k, s[0]) {
        seq![k] + s
    } else {
        seq![s[0]] + insert_key(s.drop_first(), k)
    }
}

/// The keys of a table added, one by one, to `acc`.
pub open spec fn add_keys(acc: Seq<Seq<char>>, t: Seq<(Seq<char>, ObsModel)>) -> Seq<Seq<char>>
    decreases t.len(),
{
    if t.len() == 0 {
        acc
    } else {
        insert_key(add_keys(acc, t.drop_last()), t.last().0)
    }
}

pub(crate) fn insert_key_exec(s: &mut Vec<String>, k: &str)
    ensures
        crate::rg::views(final(s)@) == insert_key(crate::rg::views(old(s)@), k@),
{
    let ghost s0 = crate::rg::views(s@);
    let mut i: usize = 0;
    assert(s0.skip(0) =~= s0);
    assert(s0.take(0) + s0 =~= s0);
    while i < s.len()
        invariant
            s0 == crate::rg::views(old(s)@),
            s@ == old(s)@,
            i <= s@.len(),
            insert_key(s0, k@) == s0.take(i as int) + insert_key(s0.skip(i as int), k@),
        decreases s.len() - i,
    {
        let ghost rest = s0.skip(i as int);
        assert(rest[0] == s0[i as int]);
        if str_eq(s[i].as_str(), k) {
            assert(s0.take(i as int) + rest =~= s0);
            return;
        }
        if str_lt(k, s[i].as_str()) {
            s.insert(i, String::from_str(k));
            proof {
                assert(crate::rg::views(s@) =~= s0.insert(i as int, k@));
                assert(s0.insert(i as int, k@) =~= s0.take(i as int) + (seq![k@] + rest));
            }
            return;
        }
        proof {
            assert(rest.drop_first() =~= s0.skip(i + 1));
            assert(s0.take(i as int) + (seq![s0[i as int]] + insert_key(s0.skip(i + 1), k@))
                =~= s0.take(i + 1) + insert_key(s0.skip(i + 1), k@));
        }
        i = i + 1;
    }
    s.push(String::from_str(k));
    proof {
        assert(crate::rg::views(s@) =~= s0.push(k@));
        assert(s0.skip(s0.len() as int) =~= Seq::<Seq<char>>::empty());
        assert(s0.take(s0.len() as int) + seq![k@] =~= s0.push(k@));
    }
}

fn add_keys_exec(acc: &mut Vec<String>, t: &ObsTable)
    ensures
        crate::rg::views(final(acc)@) == add_keys(crate::rg::views(old(acc)@), table_model(t@)),
{
    let ghost a0 = crate::rg::views(acc@);
    let ghost tm = table_model(t@);
    let mut i: usize = 0;
    assert(tm.take(0) =~= Seq::<(Seq<char>, ObsModel)>::empty());
    while i < t.len()
        invariant
            tm == table_model(t@),
            a0 == crate::rg::views(old(acc)@),
            i <= t@.len(),
            crate::rg::views(acc@) == add_keys(a0, tm.take(i as int)),
        decreases t.len() - i,
    {
        assert(tm.take(i + 1).drop_last() =~= tm.take(i as int));
        assert(tm.take(i + 1).last().0 == t@[i as int].0@);
        insert_key_exec(acc, t[i].0.as_str());
        i = i + 1;
    }
    assert(tm.take(t@.len() as int) =~= tm);
}

/// Each id, in order, classified by its two observations.
pub open spec fn classify_ids(c: ComparisonModel, ids: Seq<Seq<char>>, base: Seq<(Seq<char>, ObsModel)>, after: Seq<(Seq<char>, ObsModel)>) -> ComparisonModel
    decreases ids.len(),
{
    if ids.len() == 0 {
        c
    } else {
        let k = ids.last();
        pair_spec(classify_ids(c, ids.drop_last(), base, after), k, lookup(base, k), lookup(after, k))
    }
}

/// The classification of a baseline and an after run: per test id, in id
/// order; when neither run names tests nor failed outside them, the two
/// commands' exit codes are compared as one case named `command`.
pub open spec fn classify_tests_spec(c: ComparisonModel, base: ParsedModel, after: ParsedModel, base_run: Option<(Option<i32>, Seq<u8>, Seq<u8>)>, after_run: (Option<i32>, Seq<u8>, Seq<u8>)) -> ComparisonModel {
    let ids = add_keys(add_keys(Seq::empty(), base.tests), after.tests);
    if ids.len() == 0 && base.infrastructure is None && after.infrastructure is None {
        let b = match base_run {
            Some((code, _, _)) => code,
            None => None,
        };
        pair_spec(
            c,
            "command"@,
            match command_status_spec(b) {
                Some(st) => Some(ObsModel { status: st, evidence_line: command_evidence_spec(base_run) }),
                None => None,
            },
            match command_status_spec(after_run.0) {
                Some(st) => Some(ObsModel { status: st, evidence_line: command_evidence_spec(Some(after_run)) }),
                None => None,
            },
        )
    } else {
        classify_ids(c, ids, base.tests, after.tests)
    }
}

/// Classifies every test of a baseline and an after run.
pub fn classify_tests(baseline: &ParsedRun, after: &ParsedRun, baseline_run: Option<&CommandRun>, after_run: &CommandRun, report: &mut Comparison)
    ensures
        final(report).model() == classify_tests_spec(
            old(report).model(),
            baseline.model(),
            after.model(),
            run_parts(baseline_run),
            (after_run.exit_code, after_run.stdout@, after_run.stderr@),
        ),
{
    let mut ids: Vec<String> = Vec::new();
    assert(crate::rg::views(ids@) =~= Seq::<Seq<char>>::empty());
    add_keys_exec(&mut ids, &baseline.tests);
    add_keys_exec(&mut ids, &after.tests);
    if ids.len() == 0 && baseline.infrastructure.is_none() && after.infrastructure.is_none() {
        let bcode = match baseline_run {
            Some(r) => r.exit_code,
            None => None,
        };
        let b = match command_status(bcode) {
            Some(st) => Some(TestObservation { status: st, evidence_line: command_evidence(baseline_run) }),
            None => None,
        };
        let a = match command_status(after_run.exit_code) {
            Some(st) => Some(TestObservation { status: st, evidence_line: command_evidence(Some(after_run)) }),
            None => None,
        };
        let bref = match &b {
            Some(x) => Some(x),
            None => None,
        };
        let aref = match &a {
            Some(x) => Some(x),
            None => None,
        };
        proof {
            reveal_strlit("command");
        }
        classify_pair("command", bref, aref, report);
        return;
    }
    let ghost iv = crate::rg::views(ids@);
    let ghost c0 = report.model();
    let mut i: usize = 0;
    assert(iv.take(0) =~= Seq::<Seq<char>>::empty());
    while i < ids.len()
        invariant
            iv == crate::rg::views(ids@),
            i <= ids@.len(),
            c0 == old(report).model(),
            report.model() == classify_ids(c0, iv.take(i as int), baseline.model().tests, after.model().tests),
        decreases ids.len() - i,
    {
        let id = ids[i].as_str();
        assert(iv.take(i + 1).drop_last() =~= iv.take(i as int));
        assert(iv.take(i + 1).last() == id@);
        let b = table_get(&baseline.tests, id);
        let a = table_get(&after.tests, id);
        classify_pair(id, b, a, report);
        i = i + 1;
    }
    assert(iv.take(ids@.len() as int) =~= iv);
}


/// The arguments of `greppy verify`.
#[derive(Debug, Clone)]
pub struct VerifyArgs {
    /// The committed revision of the isolated baseline run.
    pub baseline: String,
    /// Emit the complete report as JSON.
    pub json: bool,
    /// The timeout of each run, in seconds (at least one).
    pub timeout: u64,
    /// Ignore any cached baseline result.
    pub no_cache: bool,
    /// The test command and its arguments.
    pub test_command: Vec<String>,
}

/// The default baseline revision.
pub const DEFAULT_BASELINE: &'static str = "HEAD";

/// The default timeout of each run, in seconds.
pub const DEFAULT_TIMEOUT_SECS: u64 = 900;


/// How one test is classified, by its two outcomes: it lands in `fixed`
/// exactly when it failed in the baseline and passed after; in
/// `still_passing` exactly when it passed after and did not fail before
/// (passed in both runs, or new and passing); in `newly_failed` exactly when
/// it failed after and did not fail before; in `preexisting_failed` exactly
/// when it failed in both runs; in `not_run_in_after` exactly when it ran
/// only in the baseline. Every other list is left as it was, and the entry
/// carries the test's id with the evidence of the run it was seen in last.
pub proof fn lemma_classification_by_outcomes(
    c: ComparisonModel,
    id: Seq<char>,
    base: Option<ObsModel>,
    after: Option<ObsModel>,
)
    ensures
        ({
            let r = pair_spec(c, id, base, after);
            let failed_before = base matches Some(b) && b.status == TestStatus::Failed;
            let passed_after = after matches Some(a) && a.status == TestStatus::Passed;
            let failed_after = after matches Some(a) && a.status == TestStatus::Failed;
            &&& r.fixed == if failed_before && passed_after {
                c.fixed.push((id, after->Some_0.evidence_line))
            } else {
                c.fixed
            }
            &&& r.still_passing == if passed_after && !failed_before {
                c.still_passing.push((id, after->Some_0.evidence_line))
            } else {
                c.still_passing
            }
            &&& r.newly_failed == if failed_after && !failed_before {
                c.newly_failed.push((id, after->Some_0.evidence_line))
            } else {
                c.newly_failed
            }
            &&& r.preexisting_failed == if failed_after && failed_before {
                c.preexisting_failed.push((id, after->Some_0.evidence_line))
            } else {
                c.preexisting_failed
            }
            &&& r.not_run_in_after == if base is Some && after is None {
                c.not_run_in_after.push((id, base->Some_0.evidence_line))
            } else {
                c.not_run_in_after
            }
        }),
{
}

} // verus!
