//! The logic of `greppy changes`: which files changed against a base commit
//! (from `git diff --name-status -z` and `git ls-files --others -z`), the
//! definitions reported for a file snapshot, how definitions changed, and
//! which paths look like sources or tests.

use vstd::prelude::*;
use crate::strutil::occurs_at;
use crate::strutil::join_with;
use crate::strutil::split_fields;
use crate::strutil::trim_end_spec;
use crate::text::chars_of;
use crate::text::push_char;
use crate::text::words;
use crate::text::trim_ws;
use crate::text::utf8_lossy;
use crate::text::first_index;
use crate::text::last_index;
use crate::text::ascii_lower;
use crate::strutil::base_spec;
use crate::testrun::lines_spec;
use crate::testrun::seq_lt;
use crate::testrun::str_lt;
use crate::testrun::sw;
use crate::testrun::ew;
use crate::testrun::contains_seq;
use vstd::string::*;

verus! {

broadcast use vstd::string::group_string_axioms;

/// How a file changed against the base.
#[derive(Debug, Clone, Copy, PartialEq, Eq, Structural)]
pub enum FileStatus {
    Added,
    Modified,
    Deleted,
}

impl FileStatus {
    /// The status as reported.
    pub fn as_str(self) -> (r: &'static str)
        ensures
            r@ == match self {
                FileStatus::Added => "added"@,
                FileStatus::Modified => "modified"@,
                FileStatus::Deleted => "deleted"@,
            },
    {
        match self {
            FileStatus::Added => "added",
            FileStatus::Modified => "modified",
            FileStatus::Deleted => "deleted",
        }
    }

    /// The one-letter marker of the text report.
    pub fn marker(self) -> (r: char)
        ensures
            r == match self {
                FileStatus::Added => 'A',
                FileStatus::Modified => 'M',
                FileStatus::Deleted => 'D',
            },
    {
        match self {
            FileStatus::Added => 'A',
            FileStatus::Modified => 'M',
            FileStatus::Deleted => 'D',
        }
    }

    /// The file existed at the base (its bytes there are compared).
    pub fn has_before(self) -> (r: bool)
        ensures
            r == !(self is Added),
    {
        !matches!(self, FileStatus::Added)
    }

    /// The file exists in the working tree (its bytes there are compared).
    pub fn has_after(self) -> (r: bool)
        ensures
            r == !(self is Deleted),
    {
        !matches!(self, FileStatus::Deleted)
    }
}

/// The non-empty NUL-separated fields of `b`.
pub open spec fn nul_fields(b: Seq<u8>) -> Seq<Seq<u8>>
    decreases b.len(),
{
    if b.len() == 0 {
        Seq::empty()
    } else {
        let rest = nul_fields(b.drop_last());
        if b.last() == 0 {
            rest
        } else if b.len() >= 2 && b[b.len() - 2] != 0 && rest.len() > 0 {
            rest.update(rest.len() - 1, rest.last().push(b.last()))
        } else {
            rest.push(seq![b.last()])
        }
    }
}

/// Splits `b` at NUL bytes, dropping empty fields.
pub fn split_nul(b: &[u8]) -> (r: Vec<Vec<u8>>)
    ensures
        r@.len() == nul_fields(b@).len(),
        forall|k: int| 0 <= k < r@.len() ==> #[trigger] r@[k]@ == nul_fields(b@)[k],
{
    let mut out: Vec<Vec<u8>> = Vec::new();
    let mut i: usize = 0;
    assert(b@.take(0) =~= Seq::<u8>::empty());
    while i < b.len()
        invariant
            i <= b@.len(),
            out@.len() == nul_fields(b@.take(i as int)).len(),
            forall|k: int| 0 <= k < out@.len() ==> #[trigger] out@[k]@ == nul_fields(b@.take(i as int))[k],
        decreases b.len() - i,
    {
        let c = b[i];
        let ghost t = b@.take(i + 1);
        assert(t.drop_last() =~= b@.take(i as int));
        assert(t.last() == c);
        if c != 0 {
            if i > 0 && b[i - 1] != 0 && out.len() > 0 {
                assert(t[t.len() - 2] == b@[i - 1]);
                let mut last = out.pop().unwrap();
                last.push(c);
                out.push(last);
                proof {
                    let w0 = nul_fields(b@.take(i as int));
                    assert(nul_fields(t) == w0.update(w0.len() - 1, w0.last().push(c)));
                    assert forall|q: int| 0 <= q < out@.len() implies #[trigger] out@[q]@ == nul_fields(t)[q] by {}
                }
            } else {
                let mut w: Vec<u8> = Vec::new();
                w.push(c);
                out.push(w);
                proof {
                    if i > 0 {
                        assert(t[t.len() - 2] == b@[i - 1]);
                    }
                    assert(w@ =~= seq![c]);
                }
            }
        }
        i = i + 1;
    }
    assert(b@.take(b@.len() as int) =~= b@);
    out
}

/// The status a `--name-status` field gives: `A` added, `D` deleted, any
/// other letter modified.
pub open spec fn status_of_field(f: Seq<u8>) -> FileStatus {
    if f.len() > 0 && f[0] == 65 {
        FileStatus::Added
    } else if f.len() > 0 && f[0] == 68 {
        FileStatus::Deleted
    } else {
        FileStatus::Modified
    }
}

/// `s` with every `\` replaced by `/`.
pub open spec fn forward_slashes(s: Seq<char>) -> Seq<char> {
    Seq::new(s.len(), |i: int| if s[i] == '\\' {
        '/'
    } else {
        s[i]
    })
}

/// A path as git printed it, read as text with forward slashes.
pub open spec fn git_path(raw: Seq<u8>) -> Seq<char> {
    forward_slashes(utf8_lossy(raw))
}

/// The path of raw git output, read as text with forward slashes.
pub fn path_from_git_bytes(raw: &[u8]) -> (r: String)
    ensures
        r@ == git_path(raw@),
{
    let s = crate::text::lossy_string(raw);
    let v = chars_of(s.as_str());
    let mut out = String::new();
    let mut i: usize = 0;
    while i < v.len()
        invariant
            v@ == s@,
            s@ == utf8_lossy(raw@),
            i <= v@.len(),
            out@ == forward_slashes(v@).take(i as int),
        decreases v.len() - i,
    {
        let c = if v[i] == '\\' {
            '/'
        } else {
            v[i]
        };
        push_char(&mut out, c);
        assert(forward_slashes(v@).take(i + 1) =~= forward_slashes(v@).take(i as int).push(c));
        i = i + 1;
    }
    assert(forward_slashes(v@).take(v@.len() as int) =~= forward_slashes(v@));
    out
}

/// Records `k => v` in a path-ordered status table: replaces the entry
/// with path `k` when `overwrite`, keeps it otherwise; a new path goes
/// before the first larger one.
pub open spec fn status_insert(s: Seq<(Seq<char>, FileStatus)>, k: Seq<char>, v: FileStatus, overwrite: bool) -> Seq<(Seq<char>, FileStatus)>
    decreases s.len(),
{
    if s.len() == 0 {
        seq![(k, v)]
    } else if s[0].0 == k {
        if overwrite {
            s.update(0, (k, v))
        } else {
            s
        }
    } else if seq_lt(k, s[0].0) {
        seq![(k, v)] + s
    } else {
        seq![s[0]] + status_insert(s.drop_first(), k, v, overwrite)
    }
}

/// A status table as plain values.
pub open spec fn status_view(t: Seq<(String, FileStatus)>) -> Seq<(Seq<char>, FileStatus)> {
    Seq::new(t.len(), |i: int| (t[i].0@, t[i].1))
}

fn status_insert_exec(t: &mut Vec<(String, FileStatus)>, k: String, v: FileStatus, overwrite: bool)
    ensures
        status_view(final(t)@) == status_insert(status_view(old(t)@), k@, v, overwrite),
{
    let ghost s0 = status_view(t@);
    let ghost km = k@;
    let mut i: usize = 0;
    assert(s0.skip(0) =~= s0);
    assert(s0.take(0) + s0 =~= s0);
    while i < t.len()
        invariant
            s0 == status_view(old(t)@),
            km == k@,
            t@ == old(t)@,
            i <= t@.len(),
            status_insert(s0, km, v, overwrite) == s0.take(i as int) + status_insert(s0.skip(i as int), km, v, overwrite),
        decreases t.len() - i,
    {
        let ghost rest = s0.skip(i as int);
        assert(rest[0] == s0[i as int]);
        if crate::text::str_eq(t[i].0.as_str(), k.as_str()) {
            if overwrite {
                t.set(i, (k, v));
                proof {
                    assert(status_view(t@) =~= s0.update(i as int, (km, v)));
                    assert(s0.update(i as int, (km, v)) =~= s0.take(i as int) + rest.update(0, (km, v)));
                }
            } else {
                assert(s0.take(i as int) + rest =~= s0);
            }
            return;
        }
        if str_lt(k.as_str(), t[i].0.as_str()) {
            t.insert(i, (k, v));
            proof {
                assert(status_view(t@) =~= s0.insert(i as int, (km, v)));
                assert(s0.insert(i as int, (km, v)) =~= s0.take(i as int) + (seq![(km, v)] + rest));
            }
            return;
        }
        proof {
            assert(rest.drop_first() =~= s0.skip(i + 1));
            assert(s0.take(i as int) + (seq![s0[i as int]] + status_insert(s0.skip(i + 1), km, v, overwrite))
                =~= s0.take(i + 1) + status_insert(s0.skip(i + 1), km, v, overwrite));
        }
        i = i + 1;
    }
    t.push((k, v));
    proof {
        assert(status_view(t@) =~= s0.push((km, v)));
        assert(s0.skip(s0.len() as int) =~= Seq::<(Seq<char>, FileStatus)>::empty());
        assert(status_view(t@) =~= s0.take(s0.len() as int) + seq![(km, v)]);
    }
}

/// The statuses of `git diff --name-status -z` output: field pairs (status,
/// path), a later pair for the same path replacing an earlier one.
pub open spec fn name_status_table(fields: Seq<Seq<u8>>, pairs: int) -> Seq<(Seq<char>, FileStatus)>
    decreases pairs,
{
    if pairs <= 0 {
        Seq::empty()
    } else {
        status_insert(
            name_status_table(fields, pairs - 1),
            git_path(fields[2 * pairs - 1]),
            status_of_field(fields[2 * pairs - 2]),
            true,
        )
    }
}

/// Untracked paths added to a status table as `added`, paths already there
/// keeping their status.
pub open spec fn with_untracked(t: Seq<(Seq<char>, FileStatus)>, fields: Seq<Seq<u8>>) -> Seq<(Seq<char>, FileStatus)>
    decreases fields.len(),
{
    if fields.len() == 0 {
        t
    } else {
        status_insert(with_untracked(t, fields.drop_last()), git_path(fields.last()), FileStatus::Added, false)
    }
}

/// The changed paths and their statuses, in path order: the pairs of the
/// diff output (an unpaired last field is ignored), then the untracked
/// files when that listing succeeded.
pub open spec fn changed_statuses_spec(diff: Seq<u8>, untracked: Option<Seq<u8>>) -> Seq<(Seq<char>, FileStatus)> {
    let f = nul_fields(diff);
    let t = name_status_table(f, (f.len() / 2) as int);
    match untracked {
        Some(u) => with_untracked(t, nul_fields(u)),
        None => t,
    }
}

/// Parses the output of `git diff --name-status -z --no-renames` and, when
/// the listing succeeded, of `git ls-files --others --exclude-standard -z`,
/// into the changed paths and their statuses, in path order.
pub fn changed_statuses(diff_stdout: &[u8], untracked_stdout: Option<&[u8]>) -> (r: Vec<(String, FileStatus)>)
    ensures
        status_view(r@) == changed_statuses_spec(
            diff_stdout@,
            match untracked_stdout {
                Some(u) => Some(u@),
                None => None,
            },
        ),
{
    let fields = split_nul(diff_stdout);
    let ghost f = nul_fields(diff_stdout@);
    let mut t: Vec<(String, FileStatus)> = Vec::new();
    let pairs = fields.len() / 2;
    let mut p: usize = 0;
    assert(status_view(t@) =~= Seq::<(Seq<char>, FileStatus)>::empty());
    while p < pairs
        invariant
            fields@.len() == f.len(),
            forall|k: int| 0 <= k < fields@.len() ==> #[trigger] fields@[k]@ == f[k],
            pairs == fields@.len() / 2,
            p <= pairs,
            status_view(t@) == name_status_table(f, p as int),
        decreases pairs - p,
    {
        let n = fields.len();
        assert(2 * p + 1 < n);
        let st = {
            let g = &fields[2 * p];
            if g.len() > 0 && g[0] == 65 {
                FileStatus::Added
            } else if g.len() > 0 && g[0] == 68 {
                FileStatus::Deleted
            } else {
                FileStatus::Modified
            }
        };
        let path = path_from_git_bytes(fields[2 * p + 1].as_slice());
        status_insert_exec(&mut t, path, st, true);
        p = p + 1;
    }
    match untracked_stdout {
        Some(u) => {
            let uf = split_nul(u);
            let ghost base = status_view(t@);
            let ghost ufs = nul_fields(u@);
            let mut i: usize = 0;
            assert(ufs.take(0) =~= Seq::<Seq<u8>>::empty());
            while i < uf.len()
                invariant
                    uf@.len() == ufs.len(),
                    forall|k: int| 0 <= k < uf@.len() ==> #[trigger] uf@[k]@ == ufs[k],
                    i <= uf@.len(),
                    status_view(t@) == with_untracked(base, ufs.take(i as int)),
                decreases uf.len() - i,
            {
                assert(ufs.take(i + 1).drop_last() =~= ufs.take(i as int));
                let path = path_from_git_bytes(uf[i].as_slice());
                status_insert_exec(&mut t, path, FileStatus::Added, false);
                i = i + 1;
            }
            assert(ufs.take(ufs.len() as int) =~= ufs);
        },
        None => {},
    }
    t
}


/// `s` with runs of whitespace collapsed to one space and no whitespace at
/// either end.
pub open spec fn normalize_space_spec(s: Seq<char>) -> Seq<char> {
    join_with(words(s), ' ')
}

/// Collapses whitespace runs to single spaces and trims both ends.
pub fn normalize_space(value: &str) -> (r: String)
    ensures
        r@ == normalize_space_spec(value@),
{
    let ws = crate::text::split_words(value);
    let ghost wv = words(value@);
    let mut joined = String::new();
    let mut i: usize = 0;
    while i < ws.len()
        invariant
            ws@.len() == wv.len(),
            wv == words(value@),
            forall|k: int| 0 <= k < ws@.len() ==> #[trigger] ws@[k]@ == wv[k],
            i <= ws@.len(),
            joined@ == join_with(wv.take(i as int), ' '),
        decreases ws.len() - i,
    {
        assert(wv.take(i + 1).drop_last() =~= wv.take(i as int));
        assert(wv.take(i + 1).last() == ws@[i as int]@);
        if i > 0 {
            push_char(&mut joined, ' ');
        } else {
            assert(wv.take(1) =~= seq![wv[0]]);
        }
        joined.append(ws[i].as_str());
        i = i + 1;
    }
    assert(wv.take(wv.len() as int) =~= wv);
    joined
}

/// A line ended by a line feed loses one carriage return before it.
pub open spec fn strip_cr(l: Seq<char>) -> Seq<char> {
    if l.len() > 0 && l.last() == '\r' {
        l.drop_last()
    } else {
        l
    }
}

/// The lines of `s` as `str::lines` gives them: split at `\n`, a `\r`
/// before the `\n` removed, no final empty line.
pub open spec fn rust_lines(s: Seq<char>) -> Seq<Seq<char>> {
    let f = split_fields(s, '\n');
    Seq::new((f.len() - 1) as nat, |i: int| strip_cr(f[i])) + if f.last().len() > 0 {
        seq![f.last()]
    } else {
        Seq::<Seq<char>>::empty()
    }
}

/// The text of lines `start..=end` (counted from 1) of `source`, joined by
/// `\n`; empty when `start` is not positive or `end < start`.
pub open spec fn source_span_spec(source: Seq<char>, start: i64, end: i64) -> Seq<char> {
    if start <= 0 || end < start {
        Seq::empty()
    } else {
        let ls = rust_lines(source);
        let a = if start - 1 < ls.len() {
            start - 1
        } else {
            ls.len() as int
        };
        let b = if a + (end - start + 1) < ls.len() {
            a + (end - start + 1)
        } else {
            ls.len() as int
        };
        join_with(ls.subrange(a, b), '\n')
    }
}

fn strip_cr_exec(l: &str) -> (r: String)
    ensures
        r@ == strip_cr(l@),
{
    let n = l.unicode_len();
    if n > 0 && l.get_char(n - 1) == '\r' {
        let t = l.substring_char(0, n - 1);
        assert(t@ =~= l@.drop_last());
        String::from_str(t)
    } else {
        String::from_str(l)
    }
}

/// The lines of `s`, as `str::lines` gives them.
pub fn lines_of(s: &str) -> (r: Vec<String>)
    ensures
        crate::rg::views(r@) == rust_lines(s@),
{
    let parts = crate::strutil::split(s, '\n');
    let ghost f = parts@.map_values(|x: &str| x@);
    let mut out: Vec<String> = Vec::new();
    let last = parts.len() - 1;
    let mut i: usize = 0;
    while i < last
        invariant
            f == parts@.map_values(|x: &str| x@),
            f == split_fields(s@, '\n'),
            last == f.len() - 1,
            i <= last,
            crate::rg::views(out@) == Seq::new(i as nat, |k: int| strip_cr(f[k])),
        decreases last - i,
    {
        let l = strip_cr_exec(parts[i]);
        assert(f[i as int] == parts@[i as int]@);
        let ghost before = crate::rg::views(out@);
        out.push(l);
        assert(crate::rg::views(out@) =~= before.push(strip_cr(f[i as int])));
        assert(crate::rg::views(out@) =~= Seq::new((i + 1) as nat, |k: int| strip_cr(f[k])));
        i = i + 1;
    }
    let ghost front = crate::rg::views(out@);
    if parts[last].unicode_len() > 0 {
        out.push(String::from_str(parts[last]));
        assert(crate::rg::views(out@) =~= front + seq![f.last()]);
    } else {
        assert(crate::rg::views(out@) =~= front + Seq::<Seq<char>>::empty());
    }
    out
}

fn join_lines(ls: &Vec<String>, a: usize, b: usize) -> (r: String)
    requires
        a <= b <= ls@.len(),
    ensures
        r@ == join_with(crate::rg::views(ls@).subrange(a as int, b as int), '\n'),
{
    let ghost v = crate::rg::views(ls@);
    let mut joined = String::new();
    let mut i: usize = a;
    assert(v.subrange(a as int, a as int) =~= Seq::<Seq<char>>::empty());
    while i < b
        invariant
            a <= i <= b,
            b <= ls@.len(),
            v == crate::rg::views(ls@),
            joined@ == join_with(v.subrange(a as int, i as int), '\n'),
        decreases b - i,
    {
        assert(v.subrange(a as int, i + 1).drop_last() =~= v.subrange(a as int, i as int));
        assert(v.subrange(a as int, i + 1).last() == ls@[i as int]@);
        if i > a {
            push_char(&mut joined, '\n');
        } else {
            assert(v.subrange(a as int, i + 1) =~= seq![v[i as int]]);
        }
        joined.append(ls[i].as_str());
        i = i + 1;
    }
    joined
}

/// The source text of lines `start_line..=end_line`.
pub fn source_span(source: &str, start_line: i64, end_line: i64) -> (r: String)
    ensures
        r@ == source_span_spec(source@, start_line, end_line),
{
    if start_line <= 0 || end_line < start_line {
        return String::new();
    }
    let ls = lines_of(source);
    let n = ls.len();
    let skip: u64 = (start_line - 1) as u64;
    let a: usize = if skip < n as u64 {
        skip as usize
    } else {
        n
    };
    let count: u64 = (end_line - start_line) as u64 + 1;
    let room: u64 = (n - a) as u64;
    let b: usize = if count < room {
        a + count as usize
    } else {
        n
    };
    join_lines(&ls, a, b)
}

/// A line that ends a fallback signature: it opens a block, ends with `:`
/// or `;`, or holds `=>`.
pub open spec fn is_stop_line(l: Seq<char>) -> bool {
    contains_seq(l, "{"@) || ew(l, ":"@) || ew(l, ";"@) || contains_seq(l, "=>"@)
}

/// How many of the lines `ls` a fallback signature takes, counting from
/// line `i`: up to and including the first stop line, at most eight.
pub open spec fn signature_line_count(ls: Seq<Seq<char>>, i: int) -> int
    decreases ls.len() - i,
{
    if i < 0 || i >= ls.len() || i >= 8 {
        i
    } else if is_stop_line(ls[i]) {
        i + 1
    } else {
        signature_line_count(ls, i + 1)
    }
}

/// The signature guessed from a definition's body: its first non-empty
/// trimmed lines up to the one that ends the header, joined by spaces, cut
/// before the first `{`, without trailing `:`, whitespace normalized.
pub open spec fn fallback_signature_spec(body: Seq<char>) -> Seq<char> {
    let ls = lines_spec(body);
    let joined = join_with(ls.take(signature_line_count(ls, 0)), ' ');
    let head = if first_index(joined, '{') >= 0 {
        joined.take(first_index(joined, '{'))
    } else {
        joined
    };
    normalize_space_spec(trim_ws(trim_end_spec(head, ':')))
}

fn stop_line(l: &str) -> (r: bool)
    ensures
        r == is_stop_line(l@),
{
    crate::strutil::contains(l, "{") || crate::strutil::ends_with(l, ":") || crate::strutil::ends_with(l, ";")
        || crate::strutil::contains(l, "=>")
}

fn trim_end_colons(s: &str) -> (r: &str)
    ensures
        r@ == trim_end_spec(s@, ':'),
{
    let mut n = s.unicode_len();
    assert(s@.subrange(0, n as int) =~= s@);
    while n > 0 && s.get_char(n - 1) == ':'
        invariant
            n <= s@.len(),
            trim_end_spec(s@, ':') == trim_end_spec(s@.subrange(0, n as int), ':'),
        decreases n,
    {
        assert(s@.subrange(0, n as int).drop_last() =~= s@.subrange(0, n - 1));
        n = n - 1;
    }
    s.substring_char(0, n)
}

/// The signature guessed from a definition's body.
pub fn fallback_signature(body: &str) -> (r: String)
    ensures
        r@ == fallback_signature_spec(body@),
{
    let ls = crate::testrun::clean_lines(body);
    let ghost lv = lines_spec(body@);
    let mut joined = String::new();
    let mut i: usize = 0;
    let mut done = false;
    while i < ls.len() && i < 8 && !done
        invariant
            crate::rg::views(ls@) == lv,
            i <= ls@.len(),
            signature_line_count(lv, 0) == if done {
                i as int
            } else {
                signature_line_count(lv, i as int)
            },
            joined@ == join_with(lv.take(i as int), ' '),
        decreases ls.len() - i,
    {
        assert(lv.take(i + 1).drop_last() =~= lv.take(i as int));
        assert(lv.take(i + 1).last() == ls@[i as int]@);
        if i > 0 {
            push_char(&mut joined, ' ');
        } else {
            assert(lv.take(1) =~= seq![lv[0]]);
        }
        joined.append(ls[i].as_str());
        if stop_line(ls[i].as_str()) {
            done = true;
        }
        i = i + 1;
    }
    let head = match crate::text::split_once(joined.as_str(), '{') {
        Some((h, _)) => h,
        None => joined.as_str(),
    };
    let t = crate::text::trim(trim_end_colons(head));
    normalize_space(t)
}

/// Rows the parser reports that are not definitions: projects, folders,
/// files and the module standing for a whole file.
pub open spec fn is_file_module(label: Seq<char>, qualified_name: Seq<char>) -> bool {
    label == "Module"@ && ew(qualified_name, "::__file__"@)
}

/// A parser row that is reported as a definition.
pub open spec fn reported_row_spec(label: Seq<char>, qualified_name: Seq<char>) -> bool {
    !(label == "Project"@ || label == "Folder"@ || label == "File"@) && !is_file_module(label, qualified_name)
}

/// Whether a parser row is reported as a definition.
pub fn is_reported_row(label: &str, qualified_name: &str) -> (r: bool)
    ensures
        r == reported_row_spec(label@, qualified_name@),
{
    let structural = crate::text::str_eq(label, "Project") || crate::text::str_eq(label, "Folder")
        || crate::text::str_eq(label, "File");
    !structural && !(crate::text::str_eq(label, "Module") && crate::strutil::ends_with(qualified_name, "::__file__"))
}

/// One definition of a file snapshot.
#[derive(Debug, Clone)]
pub struct DefinitionSnapshot {
    pub label: String,
    pub name: String,
    pub qualified_name: String,
    pub start_line: i64,
    pub end_line: i64,
    pub signature: String,
    pub body: String,
}

/// A definition as plain values.
pub struct DefView {
    pub label: Seq<char>,
    pub name: Seq<char>,
    pub qualified_name: Seq<char>,
    pub start_line: i64,
    pub end_line: i64,
    pub signature: Seq<char>,
    pub body: Seq<char>,
}

/// The plain values of a definition.
pub open spec fn def_view(d: DefinitionSnapshot) -> DefView {
    DefView {
        label: d.label@,
        name: d.name@,
        qualified_name: d.qualified_name@,
        start_line: d.start_line,
        end_line: d.end_line,
        signature: d.signature@,
        body: d.body@,
    }
}

/// The signature reported for a definition: the parser's, whitespace
/// normalized, unless that is empty or missing; then the one guessed from
/// the body.
pub open spec fn signature_spec(property: Option<Seq<char>>, body: Seq<char>) -> Seq<char> {
    match property {
        Some(p) => if normalize_space_spec(p).len() > 0 {
            normalize_space_spec(p)
        } else {
            fallback_signature_spec(body)
        },
        None => fallback_signature_spec(body),
    }
}

/// The snapshot of a parser row: its body is its line span of the file's
/// text (invalid UTF-8 replaced).
pub fn definition_snapshot(
    label: String,
    name: String,
    qualified_name: String,
    start_line: i64,
    end_line: i64,
    signature_property: Option<&str>,
    file_bytes: &[u8],
) -> (d: DefinitionSnapshot)
    ensures
        def_view(d) == (DefView {
            label: label@,
            name: name@,
            qualified_name: qualified_name@,
            start_line,
            end_line,
            signature: signature_spec(
                match signature_property {
                    Some(p) => Some(p@),
                    None => None,
                },
                source_span_spec(utf8_lossy(file_bytes@), start_line, end_line),
            ),
            body: source_span_spec(utf8_lossy(file_bytes@), start_line, end_line),
        }),
{
    let source = crate::text::lossy_string(file_bytes);
    let body = source_span(source.as_str(), start_line, end_line);
    let signature = match signature_property {
        Some(p) => {
            let n = normalize_space(p);
            if n.as_str().unicode_len() > 0 {
                n
            } else {
                fallback_signature(body.as_str())
            }
        },
        None => fallback_signature(body.as_str()),
    };
    DefinitionSnapshot { label, name, qualified_name, start_line, end_line, signature, body }
}


/// How a definition changed.
#[derive(Debug, Clone, Copy, PartialEq, Eq, Structural)]
pub enum DefinitionChangeKind {
    Added,
    Modified,
    Deleted,
}

impl DefinitionChangeKind {
    /// The kind as reported.
    pub fn as_str(self) -> (r: &'static str)
        ensures
            r@ == match self {
                DefinitionChangeKind::Added => "added"@,
                DefinitionChangeKind::Modified => "modified"@,
                DefinitionChangeKind::Deleted => "deleted"@,
            },
    {
        match self {
            DefinitionChangeKind::Added => "added",
            DefinitionChangeKind::Modified => "modified",
            DefinitionChangeKind::Deleted => "deleted",
        }
    }
}

/// The report order of change kinds: modified, added, deleted.
pub open spec fn change_order_spec(k: DefinitionChangeKind) -> u8 {
    match k {
        DefinitionChangeKind::Modified => 0,
        DefinitionChangeKind::Added => 1,
        DefinitionChangeKind::Deleted => 2,
    }
}

/// The report order of a change kind.
pub fn change_order(kind: DefinitionChangeKind) -> (r: u8)
    ensures
        r == change_order_spec(kind),
{
    match kind {
        DefinitionChangeKind::Modified => 0,
        DefinitionChangeKind::Added => 1,
        DefinitionChangeKind::Deleted => 2,
    }
}

/// One changed definition.
#[derive(Debug, Clone)]
pub struct DefinitionChange {
    pub kind: DefinitionChangeKind,
    pub label: String,
    pub name: String,
    pub qualified_name: String,
    pub before_span: Option<(i64, i64)>,
    pub after_span: Option<(i64, i64)>,
    pub before_signature: Option<String>,
    pub after_signature: Option<String>,
    pub signature_changed: bool,
}

/// A change as plain values.
pub struct ChangeView {
    pub kind: DefinitionChangeKind,
    pub label: Seq<char>,
    pub name: Seq<char>,
    pub qualified_name: Seq<char>,
    pub before_span: Option<(i64, i64)>,
    pub after_span: Option<(i64, i64)>,
    pub before_signature: Option<Seq<char>>,
    pub after_signature: Option<Seq<char>>,
    pub signature_changed: bool,
}

/// The plain values of a change.
pub open spec fn change_view(c: DefinitionChange) -> ChangeView {
    ChangeView {
        kind: c.kind,
        label: c.label@,
        name: c.name@,
        qualified_name: c.qualified_name@,
        before_span: c.before_span,
        after_span: c.after_span,
        before_signature: match c.before_signature {
            Some(s) => Some(s@),
            None => None,
        },
        after_signature: match c.after_signature {
            Some(s) => Some(s@),
            None => None,
        },
        signature_changed: c.signature_changed,
    }
}

/// The plain values of changes.
pub open spec fn change_views(v: Seq<DefinitionChange>) -> Seq<ChangeView> {
    Seq::new(v.len(), |i: int| change_view(v[i]))
}

/// The change between a definition before and after (one may be absent):
/// named after the newer side; its signature changed only when modified
/// with another signature.
pub open spec fn definition_change_spec(kind: DefinitionChangeKind, before: Option<DefView>, after: Option<DefView>) -> ChangeView {
    let rep = match after {
        Some(a) => a,
        None => before->Some_0,
    };
    let bs = match before {
        Some(b) => Some(b.signature),
        None => None,
    };
    let as_ = match after {
        Some(a) => Some(a.signature),
        None => None,
    };
    ChangeView {
        kind,
        label: rep.label,
        name: rep.name,
        qualified_name: rep.qualified_name,
        before_span: match before {
            Some(b) => Some((b.start_line, b.end_line)),
            None => None,
        },
        after_span: match after {
            Some(a) => Some((a.start_line, a.end_line)),
            None => None,
        },
        before_signature: bs,
        after_signature: as_,
        signature_changed: kind == DefinitionChangeKind::Modified && bs != as_,
    }
}

/// A definition's key: its label and qualified name.
pub open spec fn def_key(d: DefView) -> (Seq<char>, Seq<char>) {
    (d.label, d.qualified_name)
}

/// Key order: by label, then by qualified name.
pub open spec fn key_lt(a: (Seq<char>, Seq<char>), b: (Seq<char>, Seq<char>)) -> bool {
    seq_lt(a.0, b.0) || (a.0 == b.0 && seq_lt(a.1, b.1))
}

/// Adds a key to a key-ordered list of distinct keys.
pub open spec fn insert_def_key(s: Seq<(Seq<char>, Seq<char>)>, k: (Seq<char>, Seq<char>)) -> Seq<(Seq<char>, Seq<char>)>
    decreases s.len(),
{
    if s.len() == 0 {
        seq![k]
    } else if s[0] == k {
        s
    } else if key_lt(k, s[0]) {
        seq![k] + s
    } else {
        seq![s[0]] + insert_def_key(s.drop_first(), k)
    }
}

/// The keys of `defs` added, one by one, to `acc`.
pub open spec fn add_def_keys(acc: Seq<(Seq<char>, Seq<char>)>, defs: Seq<DefinitionSnapshot>) -> Seq<(Seq<char>, Seq<char>)>
    decreases defs.len(),
{
    if defs.len() == 0 {
        acc
    } else {
        insert_def_key(add_def_keys(acc, defs.drop_last()), def_key(def_view(defs.last())))
    }
}

/// The position of the last definition with key `k`, or -1: a later
/// definition with the same key replaces an earlier one.
pub open spec fn last_with_key(defs: Seq<DefinitionSnapshot>, k: (Seq<char>, Seq<char>)) -> int
    decreases defs.len(),
{
    if defs.len() == 0 {
        -1
    } else if def_key(def_view(defs.last())) == k {
        defs.len() - 1
    } else {
        last_with_key(defs.drop_last(), k)
    }
}

/// The change of key `k`, if any: added, deleted, or modified when the
/// bodies differ.
pub open spec fn change_of_key(before: Seq<DefinitionSnapshot>, after: Seq<DefinitionSnapshot>, k: (Seq<char>, Seq<char>)) -> Option<ChangeView> {
    let i = last_with_key(before, k);
    let j = last_with_key(after, k);
    if i < 0 && j >= 0 {
        Some(definition_change_spec(DefinitionChangeKind::Added, None, Some(def_view(after[j]))))
    } else if i >= 0 && j < 0 {
        Some(definition_change_spec(DefinitionChangeKind::Deleted, Some(def_view(before[i])), None))
    } else if i >= 0 && j >= 0 && before[i].body@ != after[j].body@ {
        Some(
            definition_change_spec(
                DefinitionChangeKind::Modified,
                Some(def_view(before[i])),
                Some(def_view(after[j])),
            ),
        )
    } else {
        None
    }
}

/// The changes of `keys`, in key order.
pub open spec fn changes_in_key_order(before: Seq<DefinitionSnapshot>, after: Seq<DefinitionSnapshot>, keys: Seq<(Seq<char>, Seq<char>)>) -> Seq<ChangeView>
    decreases keys.len(),
{
    if keys.len() == 0 {
        Seq::empty()
    } else {
        let rest = changes_in_key_order(before, after, keys.drop_last());
        match change_of_key(before, after, keys.last()) {
            Some(c) => rest.push(c),
            None => rest,
        }
    }
}

/// Report order of changes: by kind order, then by qualified name.
pub open spec fn report_lt(a: ChangeView, b: ChangeView) -> bool {
    change_order_spec(a.kind) < change_order_spec(b.kind) || (change_order_spec(a.kind) == change_order_spec(
        b.kind,
    ) && seq_lt(a.qualified_name, b.qualified_name))
}

/// Inserts `c` into report order after every change that does not sort
/// after it.
pub open spec fn insert_report(s: Seq<ChangeView>, c: ChangeView) -> Seq<ChangeView>
    decreases s.len(),
{
    if s.len() == 0 {
        seq![c]
    } else if report_lt(c, s[0]) {
        seq![c] + s
    } else {
        seq![s[0]] + insert_report(s.drop_first(), c)
    }
}

/// A stable sort of changes into report order.
pub open spec fn report_sort(s: Seq<ChangeView>) -> Seq<ChangeView>
    decreases s.len(),
{
    if s.len() == 0 {
        Seq::empty()
    } else {
        insert_report(report_sort(s.drop_last()), s.last())
    }
}

/// The changed definitions between two snapshots of one file, in report
/// order (modified, added, deleted; each by qualified name, ties in key
/// order).
pub open spec fn compare_definitions_spec(before: Seq<DefinitionSnapshot>, after: Seq<DefinitionSnapshot>) -> Seq<ChangeView> {
    report_sort(changes_in_key_order(before, after, add_def_keys(add_def_keys(Seq::empty(), before), after)))
}

fn def_key_eq(d: &DefinitionSnapshot, k: &(String, String)) -> (r: bool)
    ensures
        r == (def_key(def_view(*d)) == (k.0@, k.1@)),
{
    crate::text::str_eq(d.label.as_str(), k.0.as_str()) && crate::text::str_eq(
        d.qualified_name.as_str(),
        k.1.as_str(),
    )
}

/// The keys as plain values.
pub open spec fn key_views(v: Seq<(String, String)>) -> Seq<(Seq<char>, Seq<char>)> {
    Seq::new(v.len(), |i: int| (v[i].0@, v[i].1@))
}

fn insert_def_key_exec(s: &mut Vec<(String, String)>, d: &DefinitionSnapshot)
    ensures
        key_views(final(s)@) == insert_def_key(key_views(old(s)@), def_key(def_view(*d))),
{
    let ghost s0 = key_views(s@);
    let ghost k = def_key(def_view(*d));
    let mut i: usize = 0;
    assert(s0.skip(0) =~= s0);
    assert(s0.take(0) + s0 =~= s0);
    while i < s.len()
        invariant
            s0 == key_views(old(s)@),
            k == def_key(def_view(*d)),
            s@ == old(s)@,
            i <= s@.len(),
            insert_def_key(s0, k) == s0.take(i as int) + insert_def_key(s0.skip(i as int), k),
        decreases s.len() - i,
    {
        let ghost rest = s0.skip(i as int);
        assert(rest[0] == s0[i as int]);
        if def_key_eq(d, &s[i]) {
            assert(s0.take(i as int) + rest =~= s0);
            return;
        }
        let lt = str_lt(d.label.as_str(), s[i].0.as_str()) || (crate::text::str_eq(d.label.as_str(), s[i].0.as_str())
            && str_lt(d.qualified_name.as_str(), s[i].1.as_str()));
        if lt {
            s.insert(i, (d.label.clone(), d.qualified_name.clone()));
            proof {
                assert(key_views(s@) =~= s0.insert(i as int, k));
                assert(s0.insert(i as int, k) =~= s0.take(i as int) + (seq![k] + rest));
            }
            return;
        }
        proof {
            assert(rest.drop_first() =~= s0.skip(i + 1));
            assert(s0.take(i as int) + (seq![s0[i as int]] + insert_def_key(s0.skip(i + 1), k)) =~= s0.take(i + 1)
                + insert_def_key(s0.skip(i + 1), k));
        }
        i = i + 1;
    }
    s.push((d.label.clone(), d.qualified_name.clone()));
    proof {
        assert(key_views(s@) =~= s0.push(k));
        assert(s0.skip(s0.len() as int) =~= Seq::<(Seq<char>, Seq<char>)>::empty());
        assert(s0.take(s0.len() as int) + seq![k] =~= s0.push(k));
    }
}

fn add_def_keys_exec(acc: &mut Vec<(String, String)>, defs: &[DefinitionSnapshot])
    ensures
        key_views(final(acc)@) == add_def_keys(key_views(old(acc)@), defs@),
{
    let ghost a0 = key_views(acc@);
    let mut i: usize = 0;
    assert(defs@.take(0) =~= Seq::<DefinitionSnapshot>::empty());
    while i < defs.len()
        invariant
            i <= defs@.len(),
            a0 == key_views(old(acc)@),
            key_views(acc@) == add_def_keys(a0, defs@.take(i as int)),
        decreases defs.len() - i,
    {
        assert(defs@.take(i + 1).drop_last() =~= defs@.take(i as int));
        insert_def_key_exec(acc, &defs[i]);
        i = i + 1;
    }
    assert(defs@.take(defs@.len() as int) =~= defs@);
}

fn last_with_key_exec(defs: &[DefinitionSnapshot], k: &(String, String)) -> (r: Option<usize>)
    ensures
        match r {
            Some(i) => i as int == last_with_key(defs@, (k.0@, k.1@)) && i < defs@.len(),
            None => last_with_key(defs@, (k.0@, k.1@)) == -1,
        },
{
    let mut i: usize = defs.len();
    assert(defs@.take(defs@.len() as int) =~= defs@);
    while i > 0
        invariant
            i <= defs@.len(),
            last_with_key(defs@, (k.0@, k.1@)) == last_with_key(defs@.take(i as int), (k.0@, k.1@)),
        decreases i,
    {
        assert(defs@.take(i as int).drop_last() =~= defs@.take(i - 1));
        assert(defs@.take(i as int).last() == defs@[i - 1]);
        if def_key_eq(&defs[i - 1], k) {
            return Some(i - 1);
        }
        i = i - 1;
    }
    assert(defs@.take(defs@.len() as int) =~= defs@);
    None
}

fn opt_string_ne(a: &Option<String>, b: &Option<String>) -> (r: bool)
    ensures
        r == (match a {
            Some(s) => Some(s@),
            None => None::<Seq<char>>,
        } != match b {
            Some(s) => Some(s@),
            None => None::<Seq<char>>,
        }),
{
    match (a, b) {
        (Some(x), Some(y)) => !crate::text::str_eq(x.as_str(), y.as_str()),
        (None, None) => false,
        _ => true,
    }
}

fn definition_change(kind: DefinitionChangeKind, before: Option<&DefinitionSnapshot>, after: Option<&DefinitionSnapshot>) -> (c: DefinitionChange)
    requires
        before is Some || after is Some,
    ensures
        change_view(c) == definition_change_spec(
            kind,
            match before {
                Some(b) => Some(def_view(*b)),
                None => None,
            },
            match after {
                Some(a) => Some(def_view(*a)),
                None => None,
            },
        ),
{
    let rep = match after {
        Some(a) => a,
        None => before.unwrap(),
    };
    let before_signature = match before {
        Some(b) => Some(b.signature.clone()),
        None => None,
    };
    let after_signature = match after {
        Some(a) => Some(a.signature.clone()),
        None => None,
    };
    let is_modified = match kind {
        DefinitionChangeKind::Modified => true,
        _ => false,
    };
    let signature_changed = is_modified && opt_string_ne(&before_signature, &after_signature);
    DefinitionChange {
        kind,
        label: rep.label.clone(),
        name: rep.name.clone(),
        qualified_name: rep.qualified_name.clone(),
        before_span: match before {
            Some(b) => Some((b.start_line, b.end_line)),
            None => None,
        },
        after_span: match after {
            Some(a) => Some((a.start_line, a.end_line)),
            None => None,
        },
        before_signature,
        after_signature,
        signature_changed,
    }
}

fn report_before(c: &DefinitionChange, d: &DefinitionChange) -> (r: bool)
    ensures
        r == report_lt(change_view(*c), change_view(*d)),
{
    let a = change_order(c.kind);
    let b = change_order(d.kind);
    a < b || (a == b && str_lt(c.qualified_name.as_str(), d.qualified_name.as_str()))
}

fn insert_report_exec(s: &mut Vec<DefinitionChange>, c: DefinitionChange)
    ensures
        change_views(final(s)@) == insert_report(change_views(old(s)@), change_view(c)),
{
    let ghost s0 = change_views(s@);
    let ghost cv = change_view(c);
    let mut i: usize = 0;
    assert(s0.skip(0) =~= s0);
    assert(s0.take(0) + s0 =~= s0);
    while i < s.len()
        invariant
            s0 == change_views(old(s)@),
            cv == change_view(c),
            s@ == old(s)@,
            i <= s@.len(),
            insert_report(s0, cv) == s0.take(i as int) + insert_report(s0.skip(i as int), cv),
        decreases s.len() - i,
    {
        let ghost rest = s0.skip(i as int);
        assert(rest[0] == s0[i as int]);
        if report_before(&c, &s[i]) {
            s.insert(i, c);
            proof {
                assert(change_views(s@) =~= s0.insert(i as int, cv));
                assert(s0.insert(i as int, cv) =~= s0.take(i as int) + (seq![cv] + rest));
            }
            return;
        }
        proof {
            assert(rest.drop_first() =~= s0.skip(i + 1));
            assert(s0.take(i as int) + (seq![s0[i as int]] + insert_report(s0.skip(i + 1), cv)) =~= s0.take(i + 1)
                + insert_report(s0.skip(i + 1), cv));
        }
        i = i + 1;
    }
    s.push(c);
    proof {
        assert(change_views(s@) =~= s0.push(cv));
        assert(s0.skip(s0.len() as int) =~= Seq::<ChangeView>::empty());
        assert(s0.take(s0.len() as int) + seq![cv] =~= s0.push(cv));
    }
}

/// The definitions that changed between two snapshots of one file, in
/// report order.
pub fn compare_definitions(before: &[DefinitionSnapshot], after: &[DefinitionSnapshot]) -> (r: Vec<DefinitionChange>)
    ensures
        change_views(r@) == compare_definitions_spec(before@, after@),
{
    let mut keys: Vec<(String, String)> = Vec::new();
    assert(key_views(keys@) =~= Seq::<(Seq<char>, Seq<char>)>::empty());
    add_def_keys_exec(&mut keys, before);
    add_def_keys_exec(&mut keys, after);
    let ghost kv = key_views(keys@);
    let mut out: Vec<DefinitionChange> = Vec::new();
    let mut k: usize = 0;
    assert(kv.take(0) =~= Seq::<(Seq<char>, Seq<char>)>::empty());
    assert(change_views(out@) =~= Seq::<ChangeView>::empty());
    while k < keys.len()
        invariant
            kv == key_views(keys@),
            kv == add_def_keys(add_def_keys(Seq::empty(), before@), after@),
            k <= keys@.len(),
            change_views(out@) == report_sort(changes_in_key_order(before@, after@, kv.take(k as int))),
        decreases keys.len() - k,
    {
        let key = &keys[k];
        assert(kv.take(k + 1).drop_last() =~= kv.take(k as int));
        assert(kv.take(k + 1).last() == (key.0@, key.1@));
        let bi = last_with_key_exec(before, key);
        let ai = last_with_key_exec(after, key);
        let change = match (bi, ai) {
            (None, Some(j)) => Some(definition_change(DefinitionChangeKind::Added, None, Some(&after[j]))),
            (Some(i), None) => Some(definition_change(DefinitionChangeKind::Deleted, Some(&before[i]), None)),
            (Some(i), Some(j)) => {
                if !crate::text::str_eq(before[i].body.as_str(), after[j].body.as_str()) {
                    Some(definition_change(DefinitionChangeKind::Modified, Some(&before[i]), Some(&after[j])))
                } else {
                    None
                }
            },
            (None, None) => None,
        };
        let ghost prev = changes_in_key_order(before@, after@, kv.take(k as int));
        let ghost ck = change_of_key(before@, after@, kv[k as int]);
        match change {
            Some(c) => {
                assert(ck == Some(change_view(c)));
                assert(changes_in_key_order(before@, after@, kv.take(k + 1)) == prev.push(change_view(c)));
                assert(prev.push(change_view(c)).drop_last() =~= prev);
                insert_report_exec(&mut out, c);
            },
            None => {
                assert(ck is None);
                assert(changes_in_key_order(before@, after@, kv.take(k + 1)) == prev);
            },
        }
        k = k + 1;
    }
    assert(kv.take(kv.len() as int) =~= kv);
    out
}


/// A directory name that marks test code.
pub open spec fn is_test_dir(part: Seq<char>) -> bool {
    part == "test"@ || part == "tests"@ || part == "spec"@ || part == "specs"@ || part == "__tests__"@
}

/// A path of test code (ASCII case ignored): one of its components is a
/// test directory, or its file name starts with `test_` or holds `_test.`.
pub open spec fn test_path_spec(path: Seq<char>) -> bool {
    let lower = ascii_lower(path);
    (exists|i: int| 0 <= i < split_fields(lower, '/').len() && is_test_dir(#[trigger] split_fields(lower, '/')[i]))
        || sw(base_spec(lower), "test_"@) || contains_seq(base_spec(lower), "_test."@)
}

/// Whether `path` is test code.
pub fn test_path(path: &str) -> (r: bool)
    ensures
        r == test_path_spec(path@),
{
    let lower = crate::text::to_ascii_lower(path);
    let parts = crate::strutil::split(lower.as_str(), '/');
    let ghost f = parts@.map_values(|x: &str| x@);
    let mut i: usize = 0;
    while i < parts.len()
        invariant
            f == parts@.map_values(|x: &str| x@),
            f == split_fields(lower@, '/'),
            lower@ == ascii_lower(path@),
            i <= parts@.len(),
            forall|q: int| 0 <= q < i ==> !is_test_dir(#[trigger] f[q]),
        decreases parts.len() - i,
    {
        let part = parts[i];
        assert(f[i as int] == part@);
        if crate::text::str_eq(part, "test") || crate::text::str_eq(part, "tests") || crate::text::str_eq(part, "spec")
            || crate::text::str_eq(part, "specs") || crate::text::str_eq(part, "__tests__") {
            return true;
        }
        i = i + 1;
    }
    let name = crate::strutil::path_base(lower.as_str());
    crate::strutil::starts_with(name, "test_") || crate::strutil::contains(name, "_test.")
}

/// The file name of a path as `Path::file_name` reads a `/`-separated
/// relative path: its last component after trailing `/`s are dropped;
/// none for an empty name, `.` or `..`.
pub open spec fn std_file_name(p: Seq<char>) -> Option<Seq<char>> {
    let name = base_spec(trim_end_spec(p, '/'));
    if name.len() == 0 || name == "."@ || name == ".."@ {
        None
    } else {
        Some(name)
    }
}

/// The extension as `Path::extension` gives it (empty when there is
/// none): what follows the last `.` of the file name, unless that `.` is
/// its first character.
pub open spec fn std_extension(p: Seq<char>) -> Seq<char> {
    match std_file_name(p) {
        Some(n) => if last_index(n, '.') <= 0 {
            Seq::empty()
        } else {
            n.skip(last_index(n, '.') + 1)
        },
        None => Seq::empty(),
    }
}

/// The extensions of source files.
pub open spec fn source_extension(e: Seq<char>) -> bool {
    e == "rs"@ || e == "py"@ || e == "pyi"@ || e == "js"@ || e == "jsx"@ || e == "mjs"@ || e == "cjs"@ || e
        == "ts"@ || e == "tsx"@ || e == "mts"@ || e == "cts"@ || e == "go"@ || e == "java"@ || e == "kt"@ || e
        == "kts"@ || e == "scala"@ || e == "sc"@ || e == "swift"@ || e == "c"@ || e == "h"@ || e == "cc"@ || e
        == "cpp"@ || e == "cxx"@ || e == "hpp"@ || e == "hh"@ || e == "cs"@ || e == "rb"@ || e == "php"@ || e
        == "ex"@ || e == "exs"@ || e == "hs"@ || e == "lhs"@ || e == "ml"@ || e == "mli"@ || e == "lua"@ || e
        == "dart"@ || e == "zig"@ || e == "sh"@ || e == "bash"@ || e == "r"@
}

fn is_source_extension(e: &str) -> (r: bool)
    ensures
        r == source_extension(e@),
{
    let eq = |x: &str| -> (b: bool)
        ensures
            b == (e@ == x@),
        { crate::text::str_eq(e, x) };
    eq("rs") || eq("py") || eq("pyi") || eq("js") || eq("jsx") || eq("mjs") || eq("cjs") || eq("ts") || eq("tsx")
        || eq("mts") || eq("cts") || eq("go") || eq("java") || eq("kt") || eq("kts") || eq("scala") || eq("sc")
        || eq("swift") || eq("c") || eq("h") || eq("cc") || eq("cpp") || eq("cxx") || eq("hpp") || eq("hh") || eq(
        "cs",
    ) || eq("rb") || eq("php") || eq("ex") || eq("exs") || eq("hs") || eq("lhs") || eq("ml") || eq("mli") || eq(
        "lua",
    ) || eq("dart") || eq("zig") || eq("sh") || eq("bash") || eq("r")
}

fn trim_end_slashes(s: &str) -> (r: &str)
    ensures
        r@ == trim_end_spec(s@, '/'),
{
    let mut n = s.unicode_len();
    assert(s@.subrange(0, n as int) =~= s@);
    while n > 0 && s.get_char(n - 1) == '/'
        invariant
            n <= s@.len(),
            trim_end_spec(s@, '/') == trim_end_spec(s@.subrange(0, n as int), '/'),
        decreases n,
    {
        assert(s@.subrange(0, n as int).drop_last() =~= s@.subrange(0, n - 1));
        n = n - 1;
    }
    s.substring_char(0, n)
}

/// The extension of a path, as `Path::extension` gives it, or empty.
pub fn std_extension_of(path: &str) -> (r: &str)
    ensures
        r@ == std_extension(path@),
{
    let name = crate::strutil::path_base(trim_end_slashes(path));
    proof {
        reveal_strlit("");
    }
    if name.unicode_len() == 0 || crate::text::str_eq(name, ".") || crate::text::str_eq(name, "..") {
        return "";
    }
    let v = chars_of(name);
    match crate::text::rfind_char(&v, '.') {
        Some(d) => {
            if d == 0 {
                ""
            } else {
                let r = name.substring_char(d + 1, v.len());
                assert(r@ =~= name@.skip(d + 1));
                r
            }
        },
        None => "",
    }
}

/// A path of source code: its extension, ASCII case ignored, is one of
/// the source extensions.
pub open spec fn source_like_spec(path: Seq<char>) -> bool {
    source_extension(ascii_lower(std_extension(path)))
}

/// Whether `path` is source code.
pub fn source_like(path: &str) -> (r: bool)
    ensures
        r == source_like_spec(path@),
{
    let e = crate::text::to_ascii_lower(std_extension_of(path));
    is_source_extension(e.as_str())
}

/// A graph node that is a test: labelled `test` (ASCII case ignored), in
/// test code, or named `test_...` or `..._test`.
pub open spec fn is_test_node_spec(label: Seq<char>, file: Seq<char>, name: Seq<char>) -> bool {
    ascii_lower(label) == "test"@ || test_path_spec(file) || sw(name, "test_"@) || ew(name, "_test"@)
}

/// Whether a graph node is a test.
pub fn is_test_node(label: &str, file: &str, name: &str) -> (r: bool)
    ensures
        r == is_test_node_spec(label@, file@, name@),
{
    crate::text::str_eq(crate::text::to_ascii_lower(label).as_str(), "test") || test_path(file)
        || crate::strutil::starts_with(name, "test_") || crate::strutil::ends_with(name, "_test")
}


/// One changed file with its bytes at the base and in the working tree.
#[derive(Debug, Clone)]
pub struct ChangedFile {
    pub path: String,
    pub status: FileStatus,
    pub before: Option<Vec<u8>>,
    pub after: Option<Vec<u8>>,
}

/// The definitions the parser found in one snapshot of the changed files,
/// by path, and the paths it indexed.
#[derive(Debug, Clone)]
pub struct ParsedSnapshot {
    pub definitions: Vec<(String, Vec<DefinitionSnapshot>)>,
    pub indexed_paths: Vec<String>,
}

/// The summary of one changed file.
#[derive(Debug, Clone)]
pub struct FileSummary {
    pub path: String,
    pub status: FileStatus,
    pub parser_indexed: bool,
    pub definitions: Vec<DefinitionChange>,
}

/// The definitions recorded for `path` (the last record wins), or none.
pub open spec fn defs_of(defs: Seq<(String, Vec<DefinitionSnapshot>)>, path: Seq<char>) -> Seq<DefinitionSnapshot>
    decreases defs.len(),
{
    if defs.len() == 0 {
        Seq::empty()
    } else if defs.last().0@ == path {
        defs.last().1@
    } else {
        defs_of(defs.drop_last(), path)
    }
}

/// Some definition is more than the module standing for the whole file.
pub open spec fn has_real_definition(defs: Seq<DefinitionSnapshot>) -> bool {
    exists|i: int| 0 <= i < defs.len() && !is_file_module(defs[i].label@, #[trigger] defs[i].qualified_name@)
}

/// `path` is among the indexed paths.
pub open spec fn indexed(paths: Seq<String>, path: Seq<char>) -> bool {
    exists|i: int| 0 <= i < paths.len() && #[trigger] paths[i]@ == path
}

/// The file is parser-indexed when a snapshot that indexed it found a real
/// definition in it.
pub open spec fn parser_indexed_spec(before: ParsedSnapshot, after: ParsedSnapshot, path: Seq<char>) -> bool {
    (indexed(before.indexed_paths@, path) && has_real_definition(defs_of(before.definitions@, path))) || (indexed(
        after.indexed_paths@,
        path,
    ) && has_real_definition(defs_of(after.definitions@, path)))
}

fn defs_of_exec<'a>(defs: &'a Vec<(String, Vec<DefinitionSnapshot>)>, path: &str) -> (r: &'a [DefinitionSnapshot])
    ensures
        r@ == defs_of(defs@, path@),
{
    let mut i: usize = defs.len();
    assert(defs@.take(defs@.len() as int) =~= defs@);
    while i > 0
        invariant
            i <= defs@.len(),
            defs_of(defs@, path@) == defs_of(defs@.take(i as int), path@),
        decreases i,
    {
        assert(defs@.take(i as int).drop_last() =~= defs@.take(i - 1));
        assert(defs@.take(i as int).last() == defs@[i - 1]);
        if crate::text::str_eq(defs[i - 1].0.as_str(), path) {
            return defs[i - 1].1.as_slice();
        }
        i = i - 1;
    }
    let e: &[DefinitionSnapshot] = &[];
    assert(e@ =~= Seq::<DefinitionSnapshot>::empty());
    e
}

fn has_real_definition_exec(defs: &[DefinitionSnapshot]) -> (r: bool)
    ensures
        r == has_real_definition(defs@),
{
    let mut i: usize = 0;
    while i < defs.len()
        invariant
            i <= defs@.len(),
            forall|q: int| 0 <= q < i ==> is_file_module(defs@[q].label@, #[trigger] defs@[q].qualified_name@),
        decreases defs.len() - i,
    {
        let d = &defs[i];
        if !(crate::text::str_eq(d.label.as_str(), "Module") && crate::strutil::ends_with(
            d.qualified_name.as_str(),
            "::__file__",
        )) {
            assert(!is_file_module(defs@[i as int].label@, defs@[i as int].qualified_name@));
            return true;
        }
        i = i + 1;
    }
    false
}

fn indexed_exec(paths: &Vec<String>, path: &str) -> (r: bool)
    ensures
        r == indexed(paths@, path@),
{
    let mut i: usize = 0;
    while i < paths.len()
        invariant
            i <= paths@.len(),
            forall|q: int| 0 <= q < i ==> #[trigger] paths@[q]@ != path@,
        decreases paths.len() - i,
    {
        if crate::text::str_eq(paths[i].as_str(), path) {
            return true;
        }
        i = i + 1;
    }
    false
}

/// The summary of one changed file: its changed definitions between the
/// snapshots and whether the parser indexed it.
pub fn summarize_file(file: &ChangedFile, before: &ParsedSnapshot, after: &ParsedSnapshot) -> (r: FileSummary)
    ensures
        r.path@ == file.path@,
        r.status == file.status,
        r.parser_indexed == parser_indexed_spec(*before, *after, file.path@),
        change_views(r.definitions@) == compare_definitions_spec(
            defs_of(before.definitions@, file.path@),
            defs_of(after.definitions@, file.path@),
        ),
{
    let bd = defs_of_exec(&before.definitions, file.path.as_str());
    let ad = defs_of_exec(&after.definitions, file.path.as_str());
    let definitions = compare_definitions(bd, ad);
    let parser_indexed = (indexed_exec(&before.indexed_paths, file.path.as_str()) && has_real_definition_exec(bd))
        || (indexed_exec(&after.indexed_paths, file.path.as_str()) && has_real_definition_exec(ad));
    FileSummary { path: file.path.clone(), status: file.status, parser_indexed, definitions }
}

/// The summaries of the changed files, in order.
pub fn summarize_files(changed_files: &[ChangedFile], before: &ParsedSnapshot, after: &ParsedSnapshot) -> (r: Vec<FileSummary>)
    ensures
        r@.len() == changed_files@.len(),
        forall|k: int|
            0 <= k < r@.len() ==> {
                let f = changed_files@[k];
                &&& (#[trigger] r@[k]).path@ == f.path@
                &&& r@[k].status == f.status
                &&& r@[k].parser_indexed == parser_indexed_spec(*before, *after, f.path@)
                &&& change_views(r@[k].definitions@) == compare_definitions_spec(
                    defs_of(before.definitions@, f.path@),
                    defs_of(after.definitions@, f.path@),
                )
            },
{
    let mut out: Vec<FileSummary> = Vec::new();
    let mut i: usize = 0;
    while i < changed_files.len()
        invariant
            i <= changed_files@.len(),
            out@.len() == i,
            forall|k: int|
                0 <= k < i ==> {
                    let f = changed_files@[k];
                    &&& (#[trigger] out@[k]).path@ == f.path@
                    &&& out@[k].status == f.status
                    &&& out@[k].parser_indexed == parser_indexed_spec(*before, *after, f.path@)
                    &&& change_views(out@[k].definitions@) == compare_definitions_spec(
                        defs_of(before.definitions@, f.path@),
                        defs_of(after.definitions@, f.path@),
                    )
                },
        decreases changed_files.len() - i,
    {
        let s = summarize_file(&changed_files[i], before, after);
        out.push(s);
        i = i + 1;
    }
    out
}

/// A direct caller of a changed symbol.
#[derive(Debug, Clone, PartialEq, Eq, PartialOrd, Ord)]
pub struct CallsiteImpact {
    pub changed_symbol: String,
    pub caller: String,
    pub file: String,
    pub line: i64,
}

/// A test that reaches a changed symbol through calls.
#[derive(Debug, Clone, PartialEq, Eq, PartialOrd, Ord)]
pub struct KnownTestImpact {
    pub changed_symbol: String,
    pub test_symbol: String,
    pub file: String,
    pub line: i64,
    pub hops: usize,
}

/// A change whose test impact cannot be known.
#[derive(Debug, Clone, PartialEq, Eq, PartialOrd, Ord)]
pub struct UnknownImpact {
    pub path: String,
    pub reason: String,
}

/// The reason given for a changed source or test file without parsed
/// definitions.
pub const UNPARSED_FILE_REASON: &'static str = "changed file has no parser-backed symbols; test impact is unknown";

/// The depth of the call graph searched for tests.
pub const TEST_GRAPH_DEPTH: usize = 2;

/// A changed file gets an unknown-impact entry when it is source or test
/// code that the parser did not index.
pub open spec fn unparsed_impact_spec(file: FileSummary) -> bool {
    !file.parser_indexed && (source_like_spec(file.path@) || test_path_spec(file.path@))
}

/// Whether the test impact of a changed file is unknown.
pub fn unparsed_impact(file: &FileSummary) -> (r: bool)
    ensures
        r == unparsed_impact_spec(*file),
{
    !file.parser_indexed && (source_like(file.path.as_str()) || test_path(file.path.as_str()))
}

/// The reason given for a changed symbol the graph does not hold.
pub fn absent_symbol_reason(qualified_name: &str) -> (r: String)
    ensures
        r@ == "changed symbol "@ + qualified_name@ + " is absent from the workspace graph"@,
{
    let mut m = String::from_str("changed symbol ");
    m.append(qualified_name);
    m.append(" is absent from the workspace graph");
    m
}


/// The paths of a status table strictly increase: each path once, in
/// path order.
pub open spec fn paths_sorted(s: Seq<(Seq<char>, FileStatus)>) -> bool {
    forall|i: int, j: int| 0 <= i < j < s.len() ==> seq_lt(#[trigger] s[i].0, #[trigger] s[j].0)
}

/// The table holds path `p`.
pub open spec fn has_path(s: Seq<(Seq<char>, FileStatus)>, p: Seq<char>) -> bool {
    exists|i: int| 0 <= i < s.len() && #[trigger] s[i].0 == p
}

/// Recording a path keeps a table in path order, and the table then holds
/// exactly the old paths and the new one.
pub proof fn lemma_status_insert_sorted(s: Seq<(Seq<char>, FileStatus)>, k: Seq<char>, v: FileStatus, overwrite: bool)
    requires
        paths_sorted(s),
    ensures
        paths_sorted(status_insert(s, k, v, overwrite)),
        forall|p: Seq<char>| #[trigger] has_path(status_insert(s, k, v, overwrite), p) <==> (p == k || has_path(s, p)),
    decreases s.len(),
{
    let r = status_insert(s, k, v, overwrite);
    if s.len() == 0 {
        assert forall|p: Seq<char>| #[trigger] has_path(r, p) <==> (p == k || has_path(s, p)) by {
            if p == k {
                assert(r[0].0 == p);
            }
        }
    } else if s[0].0 == k {
        assert forall|p: Seq<char>| #[trigger] has_path(r, p) <==> (p == k || has_path(s, p)) by {
            if has_path(r, p) {
                let i = choose|i: int| 0 <= i < r.len() && #[trigger] r[i].0 == p;
                assert(s[i].0 == p);
            }
            if p == k {
                assert(s[0].0 == p);
                assert(r[0].0 == p);
            }
            if has_path(s, p) {
                let i = choose|i: int| 0 <= i < s.len() && #[trigger] s[i].0 == p;
                assert(r[i].0 == p);
            }
        }
    } else if seq_lt(k, s[0].0) {
        assert forall|i: int, j: int| 0 <= i < j < r.len() implies seq_lt(#[trigger] r[i].0, #[trigger] r[j].0) by {
            if i == 0 {
                if j > 1 {
                    crate::testrun::lemma_seq_lt_trans(k, s[0].0, s[j - 1].0);
                }
            } else {
                assert(r[i] == s[i - 1] && r[j] == s[j - 1]);
            }
        }
        assert forall|p: Seq<char>| #[trigger] has_path(r, p) <==> (p == k || has_path(s, p)) by {
            if has_path(r, p) {
                let i = choose|i: int| 0 <= i < r.len() && #[trigger] r[i].0 == p;
                if i > 0 {
                    assert(s[i - 1].0 == p);
                }
            }
            if p == k {
                assert(r[0].0 == p);
            }
            if has_path(s, p) {
                let i = choose|i: int| 0 <= i < s.len() && #[trigger] s[i].0 == p;
                assert(r[i + 1].0 == p);
            }
        }
    } else {
        let t = s.drop_first();
        assert(paths_sorted(t)) by {
            assert forall|i: int, j: int| 0 <= i < j < t.len() implies seq_lt(#[trigger] t[i].0, #[trigger] t[j].0) by {
                assert(t[i] == s[i + 1] && t[j] == s[j + 1]);
            }
        }
        lemma_status_insert_sorted(t, k, v, overwrite);
        let rt = status_insert(t, k, v, overwrite);
        crate::testrun::lemma_seq_lt_total(k, s[0].0);
        assert forall|i: int, j: int| 0 <= i < j < r.len() implies seq_lt(#[trigger] r[i].0, #[trigger] r[j].0) by {
            if i == 0 {
                assert(r[j] == rt[j - 1]);
                assert(has_path(rt, rt[j - 1].0));
                if rt[j - 1].0 != k {
                    assert(has_path(t, rt[j - 1].0));
                    let q = choose|q: int| 0 <= q < t.len() && #[trigger] t[q].0 == rt[j - 1].0;
                    assert(s[q + 1].0 == rt[j - 1].0);
                }
            } else {
                assert(r[i] == rt[i - 1] && r[j] == rt[j - 1]);
            }
        }
        assert forall|p: Seq<char>| #[trigger] has_path(r, p) <==> (p == k || has_path(s, p)) by {
            if has_path(r, p) {
                let i = choose|i: int| 0 <= i < r.len() && #[trigger] r[i].0 == p;
                if i > 0 {
                    assert(rt[i - 1].0 == p);
                    assert(has_path(rt, p));
                    if p != k {
                        assert(has_path(t, p));
                        let q = choose|q: int| 0 <= q < t.len() && #[trigger] t[q].0 == p;
                        assert(s[q + 1].0 == p);
                    }
                }
            }
            if p == k {
                assert(has_path(rt, p));
                let q = choose|q: int| 0 <= q < rt.len() && #[trigger] rt[q].0 == p;
                assert(r[q + 1].0 == p);
            }
            if has_path(s, p) {
                let i = choose|i: int| 0 <= i < s.len() && #[trigger] s[i].0 == p;
                if i == 0 {
                    assert(r[0].0 == p);
                } else {
                    assert(t[i - 1].0 == p);
                    assert(has_path(t, p));
                    assert(has_path(rt, p));
                    let q = choose|q: int| 0 <= q < rt.len() && #[trigger] rt[q].0 == p;
                    assert(r[q + 1].0 == p);
                }
            }
        }
    }
}

proof fn lemma_name_status_sorted(fields: Seq<Seq<u8>>, pairs: int)
    ensures
        paths_sorted(name_status_table(fields, pairs)),
    decreases pairs,
{
    if pairs > 0 {
        lemma_name_status_sorted(fields, pairs - 1);
        lemma_status_insert_sorted(
            name_status_table(fields, pairs - 1),
            git_path(fields[2 * pairs - 1]),
            status_of_field(fields[2 * pairs - 2]),
            true,
        );
    }
}

proof fn lemma_untracked_sorted(t: Seq<(Seq<char>, FileStatus)>, fields: Seq<Seq<u8>>)
    requires
        paths_sorted(t),
    ensures
        paths_sorted(with_untracked(t, fields)),
    decreases fields.len(),
{
    if fields.len() > 0 {
        lemma_untracked_sorted(t, fields.drop_last());
        lemma_status_insert_sorted(with_untracked(t, fields.drop_last()), git_path(fields.last()), FileStatus::Added, false);
    }
}

/// The changed files are listed once each, in path order.
pub proof fn lemma_changed_statuses_sorted(diff: Seq<u8>, untracked: Option<Seq<u8>>)
    ensures
        paths_sorted(changed_statuses_spec(diff, untracked)),
{
    let f = nul_fields(diff);
    lemma_name_status_sorted(f, (f.len() / 2) as int);
    match untracked {
        Some(u) => lemma_untracked_sorted(name_status_table(f, (f.len() / 2) as int), nul_fields(u)),
        None => {},
    }
}


/// `Some` text, or `?`.
pub open spec fn or_question(s: Option<Seq<char>>) -> Seq<char> {
    match s {
        Some(t) => t,
        None => "?"@,
    }
}

/// Where a change is: ` lines a-b` of the newer side, or nothing.
pub open spec fn location_spec(c: ChangeView) -> Seq<char> {
    let span = match c.after_span {
        Some(s) => Some(s),
        None => c.before_span,
    };
    match span {
        Some((a, b)) => " lines "@ + crate::testrun::decimal_spec(a as int) + seq!['-'] + crate::testrun::decimal_spec(
            b as int,
        ),
        None => Seq::empty(),
    }
}

/// The kind of a change as reported.
pub open spec fn kind_str(k: DefinitionChangeKind) -> Seq<char> {
    match k {
        DefinitionChangeKind::Added => "added"@,
        DefinitionChangeKind::Modified => "modified"@,
        DefinitionChangeKind::Deleted => "deleted"@,
    }
}

/// The text lines of one changed definition.
pub open spec fn change_text(c: ChangeView) -> Seq<Seq<char>> {
    seq![
        "  "@ + crate::map::pad_right_spec(kind_str(c.kind), 8) + seq![' '] + c.qualified_name + " ["@ + c.label
            + seq![']'] + location_spec(c),
    ] + if c.signature_changed {
        seq!["    signature: "@ + or_question(c.before_signature) + " -> "@ + or_question(c.after_signature)]
    } else {
        Seq::empty()
    }
}

/// The text lines of changed definitions, in order.
pub open spec fn changes_text(cs: Seq<ChangeView>) -> Seq<Seq<char>>
    decreases cs.len(),
{
    if cs.len() == 0 {
        Seq::empty()
    } else {
        changes_text(cs.drop_last()) + change_text(cs.last())
    }
}

/// The marker of a status.
pub open spec fn marker_spec(s: FileStatus) -> char {
    match s {
        FileStatus::Added => 'A',
        FileStatus::Modified => 'M',
        FileStatus::Deleted => 'D',
    }
}

/// The text lines of one changed file.
pub open spec fn file_text(f: FileSummary) -> Seq<Seq<char>> {
    seq![Seq::empty(), seq![marker_spec(f.status), ' '] + f.path@] + if f.definitions@.len() == 0 {
        seq![
            "  "@ + if f.parser_indexed {
                "no changed definitions"@
            } else {
                "unindexed or no parser-backed definitions"@
            },
        ]
    } else {
        changes_text(change_views(f.definitions@))
    }
}

/// The text lines of the changed files, in order.
pub open spec fn files_text(fs: Seq<FileSummary>) -> Seq<Seq<char>>
    decreases fs.len(),
{
    if fs.len() == 0 {
        Seq::empty()
    } else {
        files_text(fs.drop_last()) + file_text(fs.last())
    }
}

/// The line of a direct caller.
pub open spec fn callsite_line(c: CallsiteImpact) -> Seq<char> {
    "  "@ + c.changed_symbol@ + " <- "@ + c.caller@ + seq![' '] + c.file@ + seq![':'] + crate::testrun::decimal_spec(
        c.line as int,
    )
}

/// The line of a test reaching a changed symbol.
pub open spec fn known_test_line(t: KnownTestImpact) -> Seq<char> {
    "    "@ + t.test_symbol@ + seq![' '] + t.file@ + seq![':'] + crate::testrun::decimal_spec(t.line as int) + " ("@
        + digits_of_usize(t.hops) + " hops from "@ + t.changed_symbol@ + seq![')']
}

/// The line of an unknown impact.
pub open spec fn unknown_line(u: UnknownImpact) -> Seq<char> {
    "    "@ + u.path@ + ": "@ + u.reason@
}

/// The first lines of the report: the base, and a note when nothing
/// changed.
pub open spec fn report_head(requested_base: Seq<char>, base_oid: Seq<char>, no_files: bool) -> Seq<Seq<char>> {
    let oid = if base_oid.len() > 12 {
        base_oid.take(12)
    } else {
        base_oid
    };
    seq!["changes: "@ + requested_base + " ("@ + oid + ") -> working tree"@] + if no_files {
        seq!["(no changes)"@]
    } else {
        Seq::empty()
    }
}

/// The section on direct callers.
pub open spec fn callsite_section(callsites: Seq<CallsiteImpact>) -> Seq<Seq<char>> {
    seq![Seq::empty(), "callsite impact (direct callers):"@] + if callsites.len() == 0 {
        seq!["  (none known)"@]
    } else {
        Seq::new(callsites.len(), |i: int| callsite_line(callsites[i]))
    }
}

/// The section on tests.
pub open spec fn tests_section(known_tests: Seq<KnownTestImpact>, unknown: Seq<UnknownImpact>) -> Seq<Seq<char>> {
    seq![Seq::empty(), "tests (CALLS graph, depth <= 2):"@, "  known_impacted:"@] + (if known_tests.len() == 0 {
        seq!["    (none known)"@]
    } else {
        Seq::new(known_tests.len(), |i: int| known_test_line(known_tests[i]))
    }) + seq!["  unknown_or_unindexed:"@] + if unknown.len() == 0 {
        seq!["    (none)"@]
    } else {
        Seq::new(unknown.len(), |i: int| unknown_line(unknown[i]))
    }
}

/// The text report of `greppy changes`.
pub open spec fn changes_report_spec(
    requested_base: Seq<char>,
    base_oid: Seq<char>,
    files: Seq<FileSummary>,
    callsites: Seq<CallsiteImpact>,
    known_tests: Seq<KnownTestImpact>,
    unknown: Seq<UnknownImpact>,
) -> Seq<Seq<char>> {
    report_head(requested_base, base_oid, files.len() == 0) + files_text(files) + callsite_section(callsites)
        + tests_section(known_tests, unknown)
}

/// A count in decimal.
pub open spec fn digits_of_usize(n: usize) -> Seq<char> {
    crate::testrun::digits_spec(n as nat)
}

fn change_text_exec(c: &DefinitionChange, lines: &mut Vec<String>)
    ensures
        crate::rg::views(final(lines)@) == crate::rg::views(old(lines)@) + change_text(change_view(*c)),
{
    proof {
        reveal_strlit("  ");
        reveal_strlit(" [");
        reveal_strlit(" lines ");
        reveal_strlit("    signature: ");
        reveal_strlit(" -> ");
        reveal_strlit("?");
    }
    let mut l = String::from_str("  ");
    crate::map::push_padded_right(&mut l, c.kind.as_str(), 8);
    push_char(&mut l, ' ');
    l.append(c.qualified_name.as_str());
    l.append(" [");
    l.append(c.label.as_str());
    push_char(&mut l, ']');
    let span = match c.after_span {
        Some(s) => Some(s),
        None => c.before_span,
    };
    match span {
        Some((a, b)) => {
            l.append(" lines ");
            l.append(crate::testrun::i64_to_decimal(a).as_str());
            push_char(&mut l, '-');
            l.append(crate::testrun::i64_to_decimal(b).as_str());
        },
        None => {},
    }
    assert(l@ =~= "  "@ + crate::map::pad_right_spec(kind_str(c.kind), 8) + seq![' '] + c.qualified_name@ + " ["@
        + c.label@ + seq![']'] + location_spec(change_view(*c)));
    let ghost l0 = crate::rg::views(lines@);
    crate::map::push_string(lines, l);
    if c.signature_changed {
        let mut g = String::from_str("    signature: ");
        match &c.before_signature {
            Some(t) => g.append(t.as_str()),
            None => g.append("?"),
        }
        g.append(" -> ");
        match &c.after_signature {
            Some(t) => g.append(t.as_str()),
            None => g.append("?"),
        }
        crate::map::push_string(lines, g);
    }
    assert(crate::rg::views(lines@) =~= l0 + change_text(change_view(*c)));
}

fn file_text_exec(f: &FileSummary, lines: &mut Vec<String>)
    ensures
        crate::rg::views(final(lines)@) == crate::rg::views(old(lines)@) + file_text(*f),
{
    proof {
        reveal_strlit("");
        reveal_strlit("  ");
        reveal_strlit("no changed definitions");
        reveal_strlit("unindexed or no parser-backed definitions");
    }
    assert(""@ =~= Seq::<char>::empty());
    let ghost l0 = crate::rg::views(lines@);
    crate::map::push_line(lines, "");
    let mut h = String::new();
    push_char(&mut h, f.status.marker());
    push_char(&mut h, ' ');
    h.append(f.path.as_str());
    assert(h@ =~= seq![marker_spec(f.status), ' '] + f.path@);
    crate::map::push_string(lines, h);
    let ghost l1 = crate::rg::views(lines@);
    if f.definitions.len() == 0 {
        let mut n = String::from_str("  ");
        if f.parser_indexed {
            n.append("no changed definitions");
        } else {
            n.append("unindexed or no parser-backed definitions");
        }
        crate::map::push_string(lines, n);
    } else {
        let ghost cv = change_views(f.definitions@);
        let mut i: usize = 0;
        assert(cv.take(0) =~= Seq::<ChangeView>::empty());
        assert(l1 + changes_text(cv.take(0)) =~= l1);
        while i < f.definitions.len()
            invariant
                cv == change_views(f.definitions@),
                i <= f.definitions@.len(),
                crate::rg::views(lines@) == l1 + changes_text(cv.take(i as int)),
            decreases f.definitions.len() - i,
        {
            assert(cv.take(i + 1).drop_last() =~= cv.take(i as int));
            assert(cv.take(i + 1).last() == change_view(f.definitions@[i as int]));
            change_text_exec(&f.definitions[i], lines);
            assert(l1 + changes_text(cv.take(i + 1)) =~= l1 + changes_text(cv.take(i as int)) + change_text(
                change_view(f.definitions@[i as int]),
            ));
            i = i + 1;
        }
        assert(cv.take(cv.len() as int) =~= cv);
    }
    assert(crate::rg::views(lines@) =~= l0 + file_text(*f));
}

fn callsite_lines(callsites: &[CallsiteImpact]) -> (r: Vec<String>)
    ensures
        crate::rg::views(r@) == Seq::new(callsites@.len(), |k: int| callsite_line(callsites@[k])),
{
    proof {
        reveal_strlit("  ");
        reveal_strlit(" <- ");
    }
    let mut out: Vec<String> = Vec::new();
    let mut i: usize = 0;
    while i < callsites.len()
        invariant
            i <= callsites@.len(),
            crate::rg::views(out@) == Seq::new(i as nat, |k: int| callsite_line(callsites@[k])),
        decreases callsites.len() - i,
    {
        let c = &callsites[i];
        let mut l = String::from_str("  ");
        l.append(c.changed_symbol.as_str());
        l.append(" <- ");
        l.append(c.caller.as_str());
        push_char(&mut l, ' ');
        l.append(c.file.as_str());
        push_char(&mut l, ':');
        l.append(crate::testrun::i64_to_decimal(c.line).as_str());
        assert(l@ =~= callsite_line(*c));
        crate::map::push_string(&mut out, l);
        assert(crate::rg::views(out@) =~= Seq::new((i + 1) as nat, |k: int| callsite_line(callsites@[k])));
        i = i + 1;
    }
    out
}

fn known_test_lines(known_tests: &[KnownTestImpact]) -> (r: Vec<String>)
    ensures
        crate::rg::views(r@) == Seq::new(known_tests@.len(), |k: int| known_test_line(known_tests@[k])),
{
    proof {
        reveal_strlit("    ");
        reveal_strlit(" (");
        reveal_strlit(" hops from ");
    }
    let mut out: Vec<String> = Vec::new();
    let mut i: usize = 0;
    while i < known_tests.len()
        invariant
            i <= known_tests@.len(),
            crate::rg::views(out@) == Seq::new(i as nat, |k: int| known_test_line(known_tests@[k])),
        decreases known_tests.len() - i,
    {
        let t = &known_tests[i];
        let mut l = String::from_str("    ");
        l.append(t.test_symbol.as_str());
        push_char(&mut l, ' ');
        l.append(t.file.as_str());
        push_char(&mut l, ':');
        l.append(crate::testrun::i64_to_decimal(t.line).as_str());
        l.append(" (");
        l.append(crate::testrun::digits_string(t.hops as u64).as_str());
        l.append(" hops from ");
        l.append(t.changed_symbol.as_str());
        push_char(&mut l, ')');
        assert(l@ =~= known_test_line(*t));
        crate::map::push_string(&mut out, l);
        assert(crate::rg::views(out@) =~= Seq::new((i + 1) as nat, |k: int| known_test_line(known_tests@[k])));
        i = i + 1;
    }
    out
}

fn unknown_lines(unknown_tests: &[UnknownImpact]) -> (r: Vec<String>)
    ensures
        crate::rg::views(r@) == Seq::new(unknown_tests@.len(), |k: int| unknown_line(unknown_tests@[k])),
{
    proof {
        reveal_strlit("    ");
        reveal_strlit(": ");
    }
    let mut out: Vec<String> = Vec::new();
    let mut i: usize = 0;
    while i < unknown_tests.len()
        invariant
            i <= unknown_tests@.len(),
            crate::rg::views(out@) == Seq::new(i as nat, |k: int| unknown_line(unknown_tests@[k])),
        decreases unknown_tests.len() - i,
    {
        let mut l = String::from_str("    ");
        l.append(unknown_tests[i].path.as_str());
        l.append(": ");
        l.append(unknown_tests[i].reason.as_str());
        assert(l@ =~= unknown_line(unknown_tests@[i as int]));
        crate::map::push_string(&mut out, l);
        assert(crate::rg::views(out@) =~= Seq::new((i + 1) as nat, |k: int| unknown_line(unknown_tests@[k])));
        i = i + 1;
    }
    out
}

fn files_lines(files: &[FileSummary]) -> (r: Vec<String>)
    ensures
        crate::rg::views(r@) == files_text(files@),
{
    let mut lines: Vec<String> = Vec::new();
    let mut i: usize = 0;
    assert(files@.take(0) =~= Seq::<FileSummary>::empty());
    assert(crate::rg::views(lines@) =~= files_text(files@.take(0)));
    while i < files.len()
        invariant
            i <= files@.len(),
            crate::rg::views(lines@) == files_text(files@.take(i as int)),
        decreases files.len() - i,
    {
        assert(files@.take(i + 1).drop_last() =~= files@.take(i as int));
        file_text_exec(&files[i], &mut lines);
        i = i + 1;
    }
    assert(files@.take(files@.len() as int) =~= files@);
    lines
}

fn append_lines(lines: &mut Vec<String>, more: Vec<String>)
    ensures
        crate::rg::views(final(lines)@) == crate::rg::views(old(lines)@) + crate::rg::views(more@),
{
    let mut m = more;
    let ghost mv = crate::rg::views(m@);
    lines.append(&mut m);
    assert(crate::rg::views(lines@) =~= crate::rg::views(old(lines)@) + mv);
}

fn report_head_lines(requested_base: &str, base_oid: &str, no_files: bool) -> (r: Vec<String>)
    ensures
        crate::rg::views(r@) == report_head(requested_base@, base_oid@, no_files),
{
    proof {
        reveal_strlit("changes: ");
        reveal_strlit(" (");
        reveal_strlit(") -> working tree");
        reveal_strlit("(no changes)");
    }
    let mut lines: Vec<String> = Vec::new();
    let n = base_oid.unicode_len();
    let oid = if n > 12 {
        base_oid.substring_char(0, 12)
    } else {
        base_oid
    };
    let mut h = String::from_str("changes: ");
    h.append(requested_base);
    h.append(" (");
    h.append(oid);
    h.append(") -> working tree");
    crate::map::push_string(&mut lines, h);
    if no_files {
        crate::map::push_line(&mut lines, "(no changes)");
    }
    assert(crate::rg::views(lines@) =~= report_head(requested_base@, base_oid@, no_files));
    lines
}

fn callsite_section_lines(callsites: &[CallsiteImpact]) -> (r: Vec<String>)
    ensures
        crate::rg::views(r@) == callsite_section(callsites@),
{
    proof {
        reveal_strlit("");
        reveal_strlit("callsite impact (direct callers):");
        reveal_strlit("  (none known)");
    }
    assert(""@ =~= Seq::<char>::empty());
    let mut lines: Vec<String> = Vec::new();
    crate::map::push_line(&mut lines, "");
    crate::map::push_line(&mut lines, "callsite impact (direct callers):");
    if callsites.len() == 0 {
        crate::map::push_line(&mut lines, "  (none known)");
    } else {
        append_lines(&mut lines, callsite_lines(callsites));
    }
    assert(crate::rg::views(lines@) =~= callsite_section(callsites@));
    lines
}

fn tests_section_lines(known_tests: &[KnownTestImpact], unknown_tests: &[UnknownImpact]) -> (r: Vec<String>)
    ensures
        crate::rg::views(r@) == tests_section(known_tests@, unknown_tests@),
{
    proof {
        reveal_strlit("");
        reveal_strlit("tests (CALLS graph, depth <= 2):");
        reveal_strlit("  known_impacted:");
        reveal_strlit("    (none known)");
        reveal_strlit("  unknown_or_unindexed:");
        reveal_strlit("    (none)");
    }
    assert(""@ =~= Seq::<char>::empty());
    let mut lines: Vec<String> = Vec::new();
    crate::map::push_line(&mut lines, "");
    crate::map::push_line(&mut lines, "tests (CALLS graph, depth <= 2):");
    crate::map::push_line(&mut lines, "  known_impacted:");
    if known_tests.len() == 0 {
        crate::map::push_line(&mut lines, "    (none known)");
    } else {
        append_lines(&mut lines, known_test_lines(known_tests));
    }
    crate::map::push_line(&mut lines, "  unknown_or_unindexed:");
    if unknown_tests.len() == 0 {
        crate::map::push_line(&mut lines, "    (none)");
    } else {
        append_lines(&mut lines, unknown_lines(unknown_tests));
    }
    assert(crate::rg::views(lines@) =~= tests_section(known_tests@, unknown_tests@));
    lines
}

/// The text report of `greppy changes`, line by line.
pub fn render_text(
    requested_base: &str,
    base_oid: &str,
    files: &[FileSummary],
    callsites: &[CallsiteImpact],
    known_tests: &[KnownTestImpact],
    unknown_tests: &[UnknownImpact],
) -> (r: Vec<String>)
    ensures
        crate::rg::views(r@) == changes_report_spec(
            requested_base@,
            base_oid@,
            files@,
            callsites@,
            known_tests@,
            unknown_tests@,
        ),
{
    let mut lines = report_head_lines(requested_base, base_oid, files.len() == 0);
    append_lines(&mut lines, files_lines(files));
    append_lines(&mut lines, callsite_section_lines(callsites));
    append_lines(&mut lines, tests_section_lines(known_tests, unknown_tests));
    lines
}

} // verus!
