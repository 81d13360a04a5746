//! The logic of `greppy map`, a deterministic one-screen orientation of a
//! project: languages by file count, modules, test roots, build and test
//! commands, the largest subtrees and where to look next.

use vstd::prelude::*;
use crate::strutil::occurs_at;
use crate::strutil::split_fields;
use crate::strutil::join_with;
use crate::strutil::base_spec;
use crate::strutil::trim_end_spec;
use crate::text::ascii_lower;
use crate::text::last_index;
use crate::text::first_index;
use crate::text::chars_of;
use crate::text::push_char;
use crate::testrun::seq_lt;
use crate::testrun::str_lt;
use crate::testrun::insert_key;
use crate::testrun::insert_key_exec;
use crate::testrun::sw;
use crate::changes::is_test_dir;
use crate::testrun::digits_spec;
use crate::testrun::digits_string;
use vstd::string::*;

verus! {

broadcast use vstd::string::group_string_axioms;

/// The language of a file extension (already lowercased).
pub open spec fn language_of_ext(e: Seq<char>) -> Option<Seq<char>> {
    if e == "rs"@ {
        Some("rust"@)
    } else if e == "py"@ || e == "pyi"@ {
        Some("python"@)
    } else if e == "js"@ || e == "jsx"@ || e == "mjs"@ || e == "cjs"@ {
        Some("javascript"@)
    } else if e == "ts"@ || e == "tsx"@ || e == "mts"@ || e == "cts"@ {
        Some("typescript"@)
    } else if e == "go"@ {
        Some("go"@)
    } else if e == "java"@ {
        Some("java"@)
    } else if e == "kt"@ || e == "kts"@ {
        Some("kotlin"@)
    } else if e == "scala"@ || e == "sc"@ {
        Some("scala"@)
    } else if e == "swift"@ {
        Some("swift"@)
    } else if e == "c"@ || e == "h"@ {
        Some("c"@)
    } else if e == "cc"@ || e == "cpp"@ || e == "cxx"@ || e == "hpp"@ || e == "hh"@ {
        Some("cpp"@)
    } else if e == "cs"@ {
        Some("csharp"@)
    } else if e == "rb"@ {
        Some("ruby"@)
    } else if e == "php"@ {
        Some("php"@)
    } else if e == "ex"@ || e == "exs"@ {
        Some("elixir"@)
    } else if e == "hs"@ || e == "lhs"@ {
        Some("haskell"@)
    } else if e == "ml"@ || e == "mli"@ {
        Some("ocaml"@)
    } else if e == "lua"@ {
        Some("lua"@)
    } else if e == "dart"@ {
        Some("dart"@)
    } else if e == "zig"@ {
        Some("zig"@)
    } else if e == "sh"@ || e == "bash"@ || e == "zsh"@ {
        Some("shell"@)
    } else if e == "sql"@ {
        Some("sql"@)
    } else {
        None
    }
}

/// The language of a path: by the text after the last `.` of its file name
/// (after the last `/`), ASCII case ignored; none without a `.`.
pub open spec fn language_for_path_spec(path: Seq<char>) -> Option<Seq<char>> {
    let file = base_spec(path);
    if last_index(file, '.') < 0 {
        None
    } else {
        language_of_ext(ascii_lower(file.skip(last_index(file, '.') + 1)))
    }
}

fn eq(a: &str, b: &str) -> (r: bool)
    ensures
        r == (a@ == b@),
{
    crate::text::str_eq(a, b)
}

fn language_of_ext_exec(e: &str) -> (r: Option<&'static str>)
    ensures
        match r {
            Some(s) => language_of_ext(e@) == Some(s@),
            None => language_of_ext(e@) is None,
        },
{
    proof {
        reveal_strlit("rust");
        reveal_strlit("python");
        reveal_strlit("javascript");
        reveal_strlit("typescript");
        reveal_strlit("go");
        reveal_strlit("java");
        reveal_strlit("kotlin");
        reveal_strlit("scala");
        reveal_strlit("swift");
        reveal_strlit("c");
        reveal_strlit("cpp");
        reveal_strlit("csharp");
        reveal_strlit("ruby");
        reveal_strlit("php");
        reveal_strlit("elixir");
        reveal_strlit("haskell");
        reveal_strlit("ocaml");
        reveal_strlit("lua");
        reveal_strlit("dart");
        reveal_strlit("zig");
        reveal_strlit("shell");
        reveal_strlit("sql");
    }
    if eq(e, "rs") {
        Some("rust")
    } else if eq(e, "py") || eq(e, "pyi") {
        Some("python")
    } else if eq(e, "js") || eq(e, "jsx") || eq(e, "mjs") || eq(e, "cjs") {
        Some("javascript")
    } else if eq(e, "ts") || eq(e, "tsx") || eq(e, "mts") || eq(e, "cts") {
        Some("typescript")
    } else if eq(e, "go") {
        Some("go")
    } else if eq(e, "java") {
        Some("java")
    } else if eq(e, "kt") || eq(e, "kts") {
        Some("kotlin")
    } else if eq(e, "scala") || eq(e, "sc") {
        Some("scala")
    } else if eq(e, "swift") {
        Some("swift")
    } else if eq(e, "c") || eq(e, "h") {
        Some("c")
    } else if eq(e, "cc") || eq(e, "cpp") || eq(e, "cxx") || eq(e, "hpp") || eq(e, "hh") {
        Some("cpp")
    } else if eq(e, "cs") {
        Some("csharp")
    } else if eq(e, "rb") {
        Some("ruby")
    } else if eq(e, "php") {
        Some("php")
    } else if eq(e, "ex") || eq(e, "exs") {
        Some("elixir")
    } else if eq(e, "hs") || eq(e, "lhs") {
        Some("haskell")
    } else if eq(e, "ml") || eq(e, "mli") {
        Some("ocaml")
    } else if eq(e, "lua") {
        Some("lua")
    } else if eq(e, "dart") {
        Some("dart")
    } else if eq(e, "zig") {
        Some("zig")
    } else if eq(e, "sh") || eq(e, "bash") || eq(e, "zsh") {
        Some("shell")
    } else if eq(e, "sql") {
        Some("sql")
    } else {
        None
    }
}

/// The language of a path, if it is one greppy knows.
pub fn language_for_path(path: &str) -> (r: Option<&'static str>)
    ensures
        match r {
            Some(s) => language_for_path_spec(path@) == Some(s@),
            None => language_for_path_spec(path@) is None,
        },
{
    let file = crate::strutil::path_base(path);
    let v = chars_of(file);
    match crate::text::rfind_char(&v, '.') {
        None => None,
        Some(d) => {
            let n = v.len();
            assert(d < n);
            let e = file.substring_char(d + 1, n);
            assert(e@ =~= file@.skip(d + 1));
            let lower = crate::text::to_ascii_lower(e);
            language_of_ext_exec(lower.as_str())
        },
    }
}

/// `name` inside the scope: `name` itself at the top (`.`), else
/// `scope/name`.
pub open spec fn source_path_spec(scope_rel: Seq<char>, name: Seq<char>) -> Seq<char> {
    if scope_rel == "."@ {
        name
    } else {
        scope_rel + seq!['/'] + name
    }
}

/// The path of `name` inside the scope.
pub fn source_path(scope_rel: &str, name: &str) -> (r: String)
    ensures
        r@ == source_path_spec(scope_rel@, name@),
{
    if eq(scope_rel, ".") {
        String::from_str(name)
    } else {
        let mut s = String::from_str(scope_rel);
        push_char(&mut s, '/');
        s.append(name);
        s
    }
}

/// How a path inside the workspace is shown: relative to the workspace
/// root, `.` for the root itself or for a path outside it.
pub open spec fn relative_display_spec(workspace: Seq<char>, path: Seq<char>) -> Seq<char> {
    let w = trim_end_spec(workspace, '/');
    let p = trim_end_spec(path, '/');
    if occurs_at(p, w + seq!['/'], 0) && p.len() > w.len() + 1 {
        p.skip(w.len() + 1int)
    } else {
        "."@
    }
}

fn trim_end_slashes(s: &str) -> (r: &str)
    ensures
        r@ == trim_end_spec(s@, '/'),
{
    let mut n = s.unicode_len();
    assert(s@.subrange(0, n as int) =~= s@);
    while n > 0 && s.get_char(n - 1) == '/'
        invariant
            n <= s@.len(),
            trim_end_spec(s@, '/') == trim_end_spec(s@.subrange(0, n as int), '/'),
        decreases n,
    {
        assert(s@.subrange(0, n as int).drop_last() =~= s@.subrange(0, n - 1));
        n = n - 1;
    }
    s.substring_char(0, n)
}

/// A path relative to the workspace root, for display.
pub fn relative_display(workspace: &str, path: &str) -> (r: String)
    ensures
        r@ == relative_display_spec(workspace@, path@),
{
    let w = trim_end_slashes(workspace);
    let p = trim_end_slashes(path);
    let mut wd = String::from_str(w);
    push_char(&mut wd, '/');
    assert(wd@ =~= w@ + seq!['/']);
    let pn = p.unicode_len();
    let wn = w.unicode_len();
    if crate::strutil::starts_with(p, wd.as_str()) && pn > wn + 1 {
        let rest = p.substring_char(wn + 1, pn);
        assert(rest@ =~= p@.skip(wn + 1));
        String::from_str(rest)
    } else {
        proof {
            reveal_strlit(".");
        }
        String::from_str(".")
    }
}

/// A directory whose files are counted but not explored.
pub open spec fn is_collapsed_dir(name: Seq<char>) -> bool {
    name == "vendor"@ || name == "generated"@ || name == "node_modules"@ || name == "target"@ || name
        == "dist"@ || name == "build"@ || name == ".venv"@ || name == "venv"@ || name == "third_party"@
}

/// Whether a directory name is collapsed.
pub fn collapsed_dir(name: &str) -> (r: bool)
    ensures
        r == is_collapsed_dir(name@),
{
    eq(name, "vendor") || eq(name, "generated") || eq(name, "node_modules") || eq(name, "target") || eq(
        name,
        "dist",
    ) || eq(name, "build") || eq(name, ".venv") || eq(name, "venv") || eq(name, "third_party")
}


/// One file of the map's scope and its language.
#[derive(Debug, Clone)]
pub struct SourceFile {
    pub rel_path: String,
    pub language: Option<&'static str>,
}

/// The files of one language and how many of them are indexed.
#[derive(Debug, Clone)]
pub struct LanguageSummary {
    pub language: String,
    pub files: usize,
    pub indexed_files: usize,
}

/// A directory and the number of files under it.
#[derive(Debug, Clone)]
pub struct ModuleSummary {
    pub path: String,
    pub files: usize,
    pub collapsed: bool,
}

/// A build or test command and the file it was found in.
#[derive(Debug, Clone)]
pub struct BuildCommand {
    pub command: String,
    pub source: String,
}

/// The language of a file as plain text, if any.
pub open spec fn lang_view(f: SourceFile) -> Option<Seq<char>> {
    match f.language {
        Some(l) => Some(l@),
        None => None,
    }
}

/// The languages of `files`, each once, in key order.
pub open spec fn languages_of(files: Seq<SourceFile>) -> Seq<Seq<char>>
    decreases files.len(),
{
    if files.len() == 0 {
        Seq::empty()
    } else {
        match lang_view(files.last()) {
            Some(l) => insert_key(languages_of(files.drop_last()), l),
            None => languages_of(files.drop_last()),
        }
    }
}

/// `p` is among the indexed paths.
pub open spec fn is_indexed(indexed: Seq<String>, p: Seq<char>) -> bool {
    exists|i: int| 0 <= i < indexed.len() && #[trigger] indexed[i]@ == p
}

/// How many files have language `l`, and how many of those are indexed.
pub open spec fn language_counts(files: Seq<SourceFile>, indexed: Seq<String>, l: Seq<char>) -> (nat, nat)
    decreases files.len(),
{
    if files.len() == 0 {
        (0, 0)
    } else {
        let c = language_counts(files.drop_last(), indexed, l);
        if lang_view(files.last()) == Some(l) {
            (c.0 + 1, c.1 + if is_indexed(indexed, files.last().rel_path@) {
                1nat
            } else {
                0nat
            })
        } else {
            c
        }
    }
}

/// A language summary as plain values.
pub open spec fn lang_summary_view(s: LanguageSummary) -> (Seq<char>, nat, nat) {
    (s.language@, s.files as nat, s.indexed_files as nat)
}

/// Language order: more files first, then by name.
pub open spec fn lang_before(a: (Seq<char>, nat, nat), b: (Seq<char>, nat, nat)) -> bool {
    a.1 > b.1 || (a.1 == b.1 && seq_lt(a.0, b.0))
}

/// Inserts a summary before the first one it sorts before.
pub open spec fn insert_lang(s: Seq<(Seq<char>, nat, nat)>, x: (Seq<char>, nat, nat)) -> Seq<(Seq<char>, nat, nat)>
    decreases s.len(),
{
    if s.len() == 0 {
        seq![x]
    } else if lang_before(x, s[0]) {
        seq![x] + s
    } else {
        seq![s[0]] + insert_lang(s.drop_first(), x)
    }
}

/// The summaries of the first `n` languages, sorted by insertion.
pub open spec fn language_summaries_upto(files: Seq<SourceFile>, indexed: Seq<String>, langs: Seq<Seq<char>>, n: int) -> Seq<(Seq<char>, nat, nat)>
    decreases n,
{
    if n <= 0 {
        Seq::empty()
    } else {
        let l = langs[n - 1];
        let c = language_counts(files, indexed, l);
        insert_lang(language_summaries_upto(files, indexed, langs, n - 1), (l, c.0, c.1))
    }
}

/// The language summaries: per language its file count and indexed file
/// count, most files first, then by name.
pub open spec fn language_summaries_spec(files: Seq<SourceFile>, indexed: Seq<String>) -> Seq<(Seq<char>, nat, nat)> {
    let langs = languages_of(files);
    language_summaries_upto(files, indexed, langs, langs.len() as int)
}

fn is_indexed_exec(indexed: &[String], p: &str) -> (r: bool)
    ensures
        r == is_indexed(indexed@, p@),
{
    let mut i: usize = 0;
    while i < indexed.len()
        invariant
            i <= indexed@.len(),
            forall|q: int| 0 <= q < i ==> #[trigger] indexed@[q]@ != p@,
        decreases indexed.len() - i,
    {
        if eq(indexed[i].as_str(), p) {
            return true;
        }
        i = i + 1;
    }
    false
}

fn language_counts_exec(files: &[SourceFile], indexed: &[String], l: &str) -> (r: (usize, usize))
    ensures
        r.0 as nat == language_counts(files@, indexed@, l@).0,
        r.1 as nat == language_counts(files@, indexed@, l@).1,
{
    let mut a: usize = 0;
    let mut b: usize = 0;
    let mut i: usize = 0;
    assert(files@.take(0) =~= Seq::<SourceFile>::empty());
    while i < files.len()
        invariant
            i <= files@.len(),
            a as nat == language_counts(files@.take(i as int), indexed@, l@).0,
            b as nat == language_counts(files@.take(i as int), indexed@, l@).1,
            a <= i,
            b <= a,
        decreases files.len() - i,
    {
        assert(files@.take(i + 1).drop_last() =~= files@.take(i as int));
        let f = &files[i];
        let same = match f.language {
            Some(x) => eq(x, l),
            None => false,
        };
        if same {
            a = a + 1;
            if is_indexed_exec(indexed, f.rel_path.as_str()) {
                b = b + 1;
            }
        }
        i = i + 1;
    }
    assert(files@.take(files@.len() as int) =~= files@);
    (a, b)
}

fn insert_lang_exec(s: &mut Vec<LanguageSummary>, x: LanguageSummary)
    ensures
        final(s)@.len() == old(s)@.len() + 1,
        Seq::new(final(s)@.len(), |i: int| lang_summary_view(final(s)@[i])) == insert_lang(
            Seq::new(old(s)@.len(), |i: int| lang_summary_view(old(s)@[i])),
            lang_summary_view(x),
        ),
{
    let ghost s0 = Seq::new(s@.len(), |i: int| lang_summary_view(s@[i]));
    let ghost xv = lang_summary_view(x);
    let mut i: usize = 0;
    assert(s0.skip(0) =~= s0);
    assert(s0.take(0) + s0 =~= s0);
    while i < s.len()
        invariant
            s0 == Seq::new(old(s)@.len(), |i: int| lang_summary_view(old(s)@[i])),
            xv == lang_summary_view(x),
            s@ == old(s)@,
            i <= s@.len(),
            insert_lang(s0, xv) == s0.take(i as int) + insert_lang(s0.skip(i as int), xv),
        decreases s.len() - i,
    {
        let ghost rest = s0.skip(i as int);
        assert(rest[0] == s0[i as int]);
        let before = x.files > s[i].files || (x.files == s[i].files && str_lt(x.language.as_str(), s[i].language.as_str()));
        if before {
            s.insert(i, x);
            proof {
                assert(Seq::new(s@.len(), |i: int| lang_summary_view(s@[i])) =~= s0.insert(i as int, xv));
                assert(s0.insert(i as int, xv) =~= s0.take(i as int) + (seq![xv] + rest));
            }
            return;
        }
        proof {
            assert(rest.drop_first() =~= s0.skip(i + 1));
            assert(s0.take(i as int) + (seq![s0[i as int]] + insert_lang(s0.skip(i + 1), xv)) =~= s0.take(i + 1)
                + insert_lang(s0.skip(i + 1), xv));
        }
        i = i + 1;
    }
    s.push(x);
    proof {
        assert(Seq::new(s@.len(), |i: int| lang_summary_view(s@[i])) =~= s0.push(xv));
        assert(s0.skip(s0.len() as int) =~= Seq::<(Seq<char>, nat, nat)>::empty());
        assert(s0.take(s0.len() as int) + seq![xv] =~= s0.push(xv));
    }
}

/// The languages of the scope's files, most files first.
pub fn language_summaries(files: &[SourceFile], indexed: &[String]) -> (r: Vec<LanguageSummary>)
    ensures
        Seq::new(r@.len(), |i: int| lang_summary_view(r@[i])) == language_summaries_spec(files@, indexed@),
{
    let mut langs: Vec<String> = Vec::new();
    let mut i: usize = 0;
    assert(files@.take(0) =~= Seq::<SourceFile>::empty());
    while i < files.len()
        invariant
            i <= files@.len(),
            crate::rg::views(langs@) == languages_of(files@.take(i as int)),
        decreases files.len() - i,
    {
        assert(files@.take(i + 1).drop_last() =~= files@.take(i as int));
        match files[i].language {
            Some(l) => insert_key_exec(&mut langs, l),
            None => {},
        }
        i = i + 1;
    }
    assert(files@.take(files@.len() as int) =~= files@);
    let ghost lv = crate::rg::views(langs@);
    let mut out: Vec<LanguageSummary> = Vec::new();
    let mut k: usize = 0;
    assert(Seq::new(out@.len(), |i: int| lang_summary_view(out@[i])) =~= Seq::<(Seq<char>, nat, nat)>::empty());
    while k < langs.len()
        invariant
            lv == crate::rg::views(langs@),
            lv == languages_of(files@),
            k <= langs@.len(),
            Seq::new(out@.len(), |i: int| lang_summary_view(out@[i])) == language_summaries_upto(
                files@,
                indexed@,
                lv,
                k as int,
            ),
        decreases langs.len() - k,
    {
        let (a, b) = language_counts_exec(files, indexed, langs[k].as_str());
        assert(lv[k as int] == langs@[k as int]@);
        insert_lang_exec(&mut out, LanguageSummary { language: langs[k].clone(), files: a, indexed_files: b });
        k = k + 1;
    }
    out
}

/// The test roots a file lies under: for each of its directories (not the
/// file name itself) that is a test directory (ASCII case ignored), the
/// path up to and including it, added to `acc`.
pub open spec fn roots_upto(acc: Seq<Seq<char>>, parts: Seq<Seq<char>>, n: int) -> Seq<Seq<char>>
    decreases n,
{
    if n <= 0 {
        acc
    } else {
        let r = roots_upto(acc, parts, n - 1);
        if is_test_dir(ascii_lower(parts[n - 1])) {
            insert_key(r, join_with(parts.take(n), '/'))
        } else {
            r
        }
    }
}

/// The test roots of `files`, each once, in key order.
pub open spec fn test_roots_spec(files: Seq<SourceFile>) -> Seq<Seq<char>>
    decreases files.len(),
{
    if files.len() == 0 {
        Seq::empty()
    } else {
        let parts = split_fields(files.last().rel_path@, '/');
        roots_upto(test_roots_spec(files.drop_last()), parts, parts.len() - 1)
    }
}

fn join_parts(parts: &Vec<&str>, n: usize) -> (r: String)
    requires
        n <= parts@.len(),
    ensures
        r@ == join_with(parts@.map_values(|x: &str| x@).take(n as int), '/'),
{
    let ghost f = parts@.map_values(|x: &str| x@);
    let mut joined = String::new();
    let mut i: usize = 0;
    while i < n
        invariant
            f == parts@.map_values(|x: &str| x@),
            n <= parts@.len(),
            i <= n,
            joined@ == join_with(f.take(i as int), '/'),
        decreases n - i,
    {
        assert(f.take(i + 1).drop_last() =~= f.take(i as int));
        assert(f.take(i + 1).last() == parts@[i as int]@);
        if i > 0 {
            push_char(&mut joined, '/');
        } else {
            assert(f.take(1) =~= seq![f[0]]);
        }
        joined.append(parts[i]);
        i = i + 1;
    }
    joined
}

/// The directories named like test directories under which the scope's
/// files lie, each once, in key order.
pub fn test_roots(files: &[SourceFile]) -> (r: Vec<String>)
    ensures
        crate::rg::views(r@) == test_roots_spec(files@),
{
    let mut roots: Vec<String> = Vec::new();
    let mut i: usize = 0;
    assert(files@.take(0) =~= Seq::<SourceFile>::empty());
    while i < files.len()
        invariant
            i <= files@.len(),
            crate::rg::views(roots@) == test_roots_spec(files@.take(i as int)),
        decreases files.len() - i,
    {
        assert(files@.take(i + 1).drop_last() =~= files@.take(i as int));
        let parts = crate::strutil::split(files[i].rel_path.as_str(), '/');
        let ghost f = parts@.map_values(|x: &str| x@);
        let ghost acc0 = crate::rg::views(roots@);
        let last = parts.len() - 1;
        let mut k: usize = 0;
        while k < last
            invariant
                f == parts@.map_values(|x: &str| x@),
                f == split_fields(files@[i as int].rel_path@, '/'),
                last == f.len() - 1,
                k <= last,
                crate::rg::views(roots@) == roots_upto(acc0, f, k as int),
            decreases last - k,
        {
            let lower = crate::text::to_ascii_lower(parts[k]);
            assert(f[k as int] == parts@[k as int]@);
            let l = lower.as_str();
            if eq(l, "test") || eq(l, "tests") || eq(l, "spec") || eq(l, "specs") || eq(l, "__tests__") {
                let j = join_parts(&parts, k + 1);
                insert_key_exec(&mut roots, j.as_str());
            }
            k = k + 1;
        }
        i = i + 1;
    }
    assert(files@.take(files@.len() as int) =~= files@);
    roots
}


/// The prefix of paths inside the scope: empty at the top, else
/// `scope/`.
pub open spec fn scope_prefix(scope_rel: Seq<char>) -> Seq<char> {
    if scope_rel == "."@ {
        Seq::empty()
    } else {
        scope_rel + seq!['/']
    }
}

fn scope_prefix_exec(scope_rel: &str) -> (r: String)
    ensures
        r@ == scope_prefix(scope_rel@),
{
    if eq(scope_rel, ".") {
        String::new()
    } else {
        let mut p = String::from_str(scope_rel);
        push_char(&mut p, '/');
        p
    }
}

/// The counted modules: one per directory directly in the scope (given by
/// name, in order), with the number of files under it.
pub open spec fn count_under(files: Seq<SourceFile>, dir_prefix: Seq<char>) -> nat
    decreases files.len(),
{
    if files.len() == 0 {
        0
    } else {
        count_under(files.drop_last(), dir_prefix) + if occurs_at(files.last().rel_path@, dir_prefix, 0) {
            1nat
        } else {
            0nat
        }
    }
}

fn count_under_exec(files: &[SourceFile], dir_prefix: &str) -> (r: usize)
    ensures
        r as nat == count_under(files@, dir_prefix@),
{
    let mut c: usize = 0;
    let mut i: usize = 0;
    assert(files@.take(0) =~= Seq::<SourceFile>::empty());
    while i < files.len()
        invariant
            i <= files@.len(),
            c as nat == count_under(files@.take(i as int), dir_prefix@),
            c <= i,
        decreases files.len() - i,
    {
        assert(files@.take(i + 1).drop_last() =~= files@.take(i as int));
        if crate::strutil::starts_with(files[i].rel_path.as_str(), dir_prefix) {
            c = c + 1;
        }
        i = i + 1;
    }
    assert(files@.take(files@.len() as int) =~= files@);
    c
}

/// A module as plain values.
pub open spec fn module_view(m: ModuleSummary) -> (Seq<char>, nat, bool) {
    (m.path@, m.files as nat, m.collapsed)
}

/// The modules of the scope from the names of its directories (sorted,
/// `.git` left out): path, files under it, whether it is collapsed.
pub fn module_summaries(scope_rel: &str, dir_names: &[String], files: &[SourceFile]) -> (r: Vec<ModuleSummary>)
    ensures
        r@.len() == dir_names@.len(),
        forall|k: int|
            0 <= k < r@.len() ==> #[trigger] module_view(r@[k]) == (
                scope_prefix(scope_rel@) + dir_names@[k]@,
                count_under(files@, scope_prefix(scope_rel@) + dir_names@[k]@ + seq!['/']),
                is_collapsed_dir(dir_names@[k]@),
            ),
{
    let prefix = scope_prefix_exec(scope_rel);
    let mut out: Vec<ModuleSummary> = Vec::new();
    let mut i: usize = 0;
    while i < dir_names.len()
        invariant
            prefix@ == scope_prefix(scope_rel@),
            i <= dir_names@.len(),
            out@.len() == i,
            forall|k: int|
                0 <= k < i ==> #[trigger] module_view(out@[k]) == (
                    scope_prefix(scope_rel@) + dir_names@[k]@,
                    count_under(files@, scope_prefix(scope_rel@) + dir_names@[k]@ + seq!['/']),
                    is_collapsed_dir(dir_names@[k]@),
                ),
        decreases dir_names.len() - i,
    {
        let mut rel = prefix.clone();
        rel.append(dir_names[i].as_str());
        let mut fp = rel.clone();
        push_char(&mut fp, '/');
        assert(rel@ =~= scope_prefix(scope_rel@) + dir_names@[i as int]@);
        assert(fp@ =~= scope_prefix(scope_rel@) + dir_names@[i as int]@ + seq!['/']);
        let count = count_under_exec(files, fp.as_str());
        let m = ModuleSummary { path: rel, files: count, collapsed: collapsed_dir(dir_names[i].as_str()) };
        let ghost before = out@;
        out.push(m);
        assert forall|k: int| 0 <= k < i + 1 implies #[trigger] module_view(out@[k]) == (
            scope_prefix(scope_rel@) + dir_names@[k]@,
            count_under(files@, scope_prefix(scope_rel@) + dir_names@[k]@ + seq!['/']),
            is_collapsed_dir(dir_names@[k]@),
        ) by {
            if k < i {
                assert(out@[k] == before[k]);
            }
        }
        i = i + 1;
    }
    out
}

/// The top-level subtree of the scope that a file lies in: the scope
/// prefix and the file's first directory below it; none for a file
/// directly in the scope or outside it.
pub open spec fn subtree_of(prefix: Seq<char>, path: Seq<char>) -> Option<Seq<char>> {
    if occurs_at(path, prefix, 0) {
        let rest = path.skip(prefix.len() as int);
        if first_index(rest, '/') >= 0 {
            Some(prefix + rest.take(first_index(rest, '/')))
        } else {
            None
        }
    } else {
        None
    }
}

/// The subtrees of the first files, each once, in key order.
pub open spec fn subtrees_of(prefix: Seq<char>, files: Seq<SourceFile>) -> Seq<Seq<char>>
    decreases files.len(),
{
    if files.len() == 0 {
        Seq::empty()
    } else {
        match subtree_of(prefix, files.last().rel_path@) {
            Some(t) => insert_key(subtrees_of(prefix, files.drop_last()), t),
            None => subtrees_of(prefix, files.drop_last()),
        }
    }
}

/// How many files lie in subtree `t`.
pub open spec fn subtree_count(prefix: Seq<char>, files: Seq<SourceFile>, t: Seq<char>) -> nat
    decreases files.len(),
{
    if files.len() == 0 {
        0
    } else {
        subtree_count(prefix, files.drop_last(), t) + if subtree_of(prefix, files.last().rel_path@) == Some(t) {
            1nat
        } else {
            0nat
        }
    }
}

/// Subtree order: more files first, then by path.
pub open spec fn module_before(a: (Seq<char>, nat, bool), b: (Seq<char>, nat, bool)) -> bool {
    a.1 > b.1 || (a.1 == b.1 && seq_lt(a.0, b.0))
}

/// Inserts a subtree before the first one it sorts before.
pub open spec fn insert_module(s: Seq<(Seq<char>, nat, bool)>, x: (Seq<char>, nat, bool)) -> Seq<(Seq<char>, nat, bool)>
    decreases s.len(),
{
    if s.len() == 0 {
        seq![x]
    } else if module_before(x, s[0]) {
        seq![x] + s
    } else {
        seq![s[0]] + insert_module(s.drop_first(), x)
    }
}

/// The subtrees with their counts, sorted by insertion, for the first `n`
/// keys.
pub open spec fn subtrees_upto(prefix: Seq<char>, files: Seq<SourceFile>, keys: Seq<Seq<char>>, n: int) -> Seq<(Seq<char>, nat, bool)>
    decreases n,
{
    if n <= 0 {
        Seq::empty()
    } else {
        let t = keys[n - 1];
        insert_module(
            subtrees_upto(prefix, files, keys, n - 1),
            (t, subtree_count(prefix, files, t), is_collapsed_dir(base_spec(t))),
        )
    }
}

/// The five largest subtrees of the scope: most files first, then by path.
pub open spec fn large_subtrees_spec(scope_rel: Seq<char>, files: Seq<SourceFile>) -> Seq<(Seq<char>, nat, bool)> {
    let prefix = scope_prefix(scope_rel);
    let keys = subtrees_of(prefix, files);
    let all = subtrees_upto(prefix, files, keys, keys.len() as int);
    if all.len() > 5 {
        all.take(5)
    } else {
        all
    }
}

fn subtree_of_exec(prefix: &str, path: &str) -> (r: Option<String>)
    ensures
        match r {
            Some(t) => subtree_of(prefix@, path@) == Some(t@),
            None => subtree_of(prefix@, path@) is None,
        },
{
    if !crate::strutil::starts_with(path, prefix) {
        return None;
    }
    let pn = prefix.unicode_len();
    let n = path.unicode_len();
    let rest = path.substring_char(pn, n);
    assert(rest@ =~= path@.skip(prefix@.len() as int));
    match crate::text::split_once(rest, '/') {
        Some((first, _)) => {
            let mut t = String::from_str(prefix);
            t.append(first);
            Some(t)
        },
        None => None,
    }
}

fn insert_module_exec(s: &mut Vec<ModuleSummary>, x: ModuleSummary)
    ensures
        final(s)@.len() == old(s)@.len() + 1,
        Seq::new(final(s)@.len(), |i: int| module_view(final(s)@[i])) == insert_module(
            Seq::new(old(s)@.len(), |i: int| module_view(old(s)@[i])),
            module_view(x),
        ),
{
    let ghost s0 = Seq::new(s@.len(), |i: int| module_view(s@[i]));
    let ghost xv = module_view(x);
    let mut i: usize = 0;
    assert(s0.skip(0) =~= s0);
    assert(s0.take(0) + s0 =~= s0);
    while i < s.len()
        invariant
            s0 == Seq::new(old(s)@.len(), |i: int| module_view(old(s)@[i])),
            xv == module_view(x),
            s@ == old(s)@,
            i <= s@.len(),
            insert_module(s0, xv) == s0.take(i as int) + insert_module(s0.skip(i as int), xv),
        decreases s.len() - i,
    {
        let ghost rest = s0.skip(i as int);
        assert(rest[0] == s0[i as int]);
        let before = x.files > s[i].files || (x.files == s[i].files && str_lt(x.path.as_str(), s[i].path.as_str()));
        if before {
            s.insert(i, x);
            proof {
                assert(Seq::new(s@.len(), |i: int| module_view(s@[i])) =~= s0.insert(i as int, xv));
                assert(s0.insert(i as int, xv) =~= s0.take(i as int) + (seq![xv] + rest));
            }
            return;
        }
        proof {
            assert(rest.drop_first() =~= s0.skip(i + 1));
            assert(s0.take(i as int) + (seq![s0[i as int]] + insert_module(s0.skip(i + 1), xv)) =~= s0.take(i + 1)
                + insert_module(s0.skip(i + 1), xv));
        }
        i = i + 1;
    }
    s.push(x);
    proof {
        assert(Seq::new(s@.len(), |i: int| module_view(s@[i])) =~= s0.push(xv));
        assert(s0.skip(s0.len() as int) =~= Seq::<(Seq<char>, nat, bool)>::empty());
        assert(s0.take(s0.len() as int) + seq![xv] =~= s0.push(xv));
    }
}

fn subtree_count_exec(prefix: &str, files: &[SourceFile], t: &str) -> (r: usize)
    ensures
        r as nat == subtree_count(prefix@, files@, t@),
{
    let mut c: usize = 0;
    let mut i: usize = 0;
    assert(files@.take(0) =~= Seq::<SourceFile>::empty());
    while i < files.len()
        invariant
            i <= files@.len(),
            c as nat == subtree_count(prefix@, files@.take(i as int), t@),
            c <= i,
        decreases files.len() - i,
    {
        assert(files@.take(i + 1).drop_last() =~= files@.take(i as int));
        match subtree_of_exec(prefix, files[i].rel_path.as_str()) {
            Some(x) => {
                if eq(x.as_str(), t) {
                    c = c + 1;
                }
            },
            None => {},
        }
        i = i + 1;
    }
    assert(files@.take(files@.len() as int) =~= files@);
    c
}

/// The five largest top-level subtrees of the scope.
pub fn large_subtrees(scope_rel: &str, files: &[SourceFile]) -> (r: Vec<ModuleSummary>)
    ensures
        Seq::new(r@.len(), |i: int| module_view(r@[i])) == large_subtrees_spec(scope_rel@, files@),
{
    let prefix = scope_prefix_exec(scope_rel);
    let mut keys: Vec<String> = Vec::new();
    let mut i: usize = 0;
    assert(files@.take(0) =~= Seq::<SourceFile>::empty());
    while i < files.len()
        invariant
            prefix@ == scope_prefix(scope_rel@),
            i <= files@.len(),
            crate::rg::views(keys@) == subtrees_of(prefix@, files@.take(i as int)),
        decreases files.len() - i,
    {
        assert(files@.take(i + 1).drop_last() =~= files@.take(i as int));
        match subtree_of_exec(prefix.as_str(), files[i].rel_path.as_str()) {
            Some(t) => insert_key_exec(&mut keys, t.as_str()),
            None => {},
        }
        i = i + 1;
    }
    assert(files@.take(files@.len() as int) =~= files@);
    let ghost kv = crate::rg::views(keys@);
    let mut out: Vec<ModuleSummary> = Vec::new();
    let mut k: usize = 0;
    assert(Seq::new(out@.len(), |i: int| module_view(out@[i])) =~= Seq::<(Seq<char>, nat, bool)>::empty());
    while k < keys.len()
        invariant
            prefix@ == scope_prefix(scope_rel@),
            kv == crate::rg::views(keys@),
            kv == subtrees_of(prefix@, files@),
            k <= keys@.len(),
            Seq::new(out@.len(), |i: int| module_view(out@[i])) == subtrees_upto(prefix@, files@, kv, k as int),
        decreases keys.len() - k,
    {
        let t = keys[k].as_str();
        assert(kv[k as int] == t@);
        let c = subtree_count_exec(prefix.as_str(), files, t);
        let name = crate::strutil::path_base(t);
        insert_module_exec(&mut out, ModuleSummary { path: String::from_str(t), files: c, collapsed: collapsed_dir(name) });
        k = k + 1;
    }
    let ghost all = Seq::new(out@.len(), |i: int| module_view(out@[i]));
    if out.len() > 5 {
        out.truncate(5);
        assert(Seq::new(out@.len(), |i: int| module_view(out@[i])) =~= all.take(5));
    }
    out
}


/// The paths of the modules worth suggesting: not collapsed, not empty.
pub open spec fn suggestion_candidates(modules: Seq<ModuleSummary>) -> Seq<Seq<char>>
    decreases modules.len(),
{
    if modules.len() == 0 {
        Seq::empty()
    } else {
        let c = suggestion_candidates(modules.drop_last());
        let m = modules.last();
        if !m.collapsed && m.files > 0 {
            c.push(m.path@)
        } else {
            c
        }
    }
}

/// The file count of the first module with path `p`, or zero.
pub open spec fn files_of_path(modules: Seq<ModuleSummary>, p: Seq<char>) -> nat
    decreases modules.len(),
{
    if modules.len() == 0 {
        0
    } else if modules[0].path@ == p {
        modules[0].files as nat
    } else {
        files_of_path(modules.drop_first(), p)
    }
}

/// Suggestion order: more files first, then by path.
pub open spec fn suggestion_before(modules: Seq<ModuleSummary>, a: Seq<char>, b: Seq<char>) -> bool {
    files_of_path(modules, a) > files_of_path(modules, b) || (files_of_path(modules, a) == files_of_path(modules, b)
        && seq_lt(a, b))
}

/// Inserts a path before the first one it sorts before.
pub open spec fn insert_suggestion(modules: Seq<ModuleSummary>, s: Seq<Seq<char>>, x: Seq<char>) -> Seq<Seq<char>>
    decreases s.len(),
{
    if s.len() == 0 {
        seq![x]
    } else if suggestion_before(modules, x, s[0]) {
        seq![x] + s
    } else {
        seq![s[0]] + insert_suggestion(modules, s.drop_first(), x)
    }
}

/// A stable sort of paths into suggestion order.
pub open spec fn sort_suggestions(modules: Seq<ModuleSummary>, s: Seq<Seq<char>>) -> Seq<Seq<char>>
    decreases s.len(),
{
    if s.len() == 0 {
        Seq::empty()
    } else {
        insert_suggestion(modules, sort_suggestions(modules, s.drop_last()), s.last())
    }
}

/// The fallback directories to suggest, in order.
pub open spec fn fallback_dirs() -> Seq<Seq<char>> {
    seq!["src"@, "tests"@, "crates"@]
}

/// Tops up fewer than two suggestions from the fallback directories
/// `fbs[k..]`, skipping those already suggested, until there are two.
pub open spec fn top_up(c: Seq<Seq<char>>, scope_rel: Seq<char>, fbs: Seq<Seq<char>>, k: int) -> Seq<Seq<char>>
    decreases fbs.len() - k,
{
    if k < 0 || k >= fbs.len() {
        c
    } else {
        let p = source_path_spec(scope_rel, fbs[k]);
        let c2 = if c.contains(p) {
            c
        } else {
            c.push(p)
        };
        if c2.len() == 2 {
            c2
        } else {
            top_up(c2, scope_rel, fbs, k + 1)
        }
    }
}

/// The suggested next commands: `greppy map <dir>/` for the three largest
/// modules worth it; with fewer than two, topped up with `src`, `tests`,
/// `crates`.
pub open spec fn suggestions_spec(scope_rel: Seq<char>, modules: Seq<ModuleSummary>) -> Seq<Seq<char>> {
    let sorted = sort_suggestions(modules, suggestion_candidates(modules));
    let top = if sorted.len() > 3 {
        sorted.take(3)
    } else {
        sorted
    };
    let all = if top.len() < 2 {
        top_up(top, scope_rel, fallback_dirs(), 0)
    } else {
        top
    };
    let shown = if all.len() > 3 {
        all.take(3)
    } else {
        all
    };
    Seq::new(shown.len(), |i: int| "greppy map "@ + shown[i] + seq!['/'])
}

fn files_of_path_exec(modules: &[ModuleSummary], p: &str) -> (r: usize)
    ensures
        r as nat == files_of_path(modules@, p@),
{
    let mut i: usize = 0;
    assert(modules@.skip(0) =~= modules@);
    while i < modules.len()
        invariant
            i <= modules@.len(),
            files_of_path(modules@, p@) == files_of_path(modules@.skip(i as int), p@),
        decreases modules.len() - i,
    {
        assert(modules@.skip(i as int)[0] == modules@[i as int]);
        if eq(modules[i].path.as_str(), p) {
            return modules[i].files;
        }
        assert(modules@.skip(i as int).drop_first() =~= modules@.skip(i + 1));
        i = i + 1;
    }
    0
}

fn insert_suggestion_exec(modules: &[ModuleSummary], s: &mut Vec<String>, x: String)
    ensures
        crate::rg::views(final(s)@) == insert_suggestion(modules@, crate::rg::views(old(s)@), x@),
{
    let ghost s0 = crate::rg::views(s@);
    let ghost xv = x@;
    let xf = files_of_path_exec(modules, x.as_str());
    let mut i: usize = 0;
    assert(s0.skip(0) =~= s0);
    assert(s0.take(0) + s0 =~= s0);
    while i < s.len()
        invariant
            s0 == crate::rg::views(old(s)@),
            xv == x@,
            xf as nat == files_of_path(modules@, xv),
            s@ == old(s)@,
            i <= s@.len(),
            insert_suggestion(modules@, s0, xv) == s0.take(i as int) + insert_suggestion(modules@, s0.skip(i as int), xv),
        decreases s.len() - i,
    {
        let ghost rest = s0.skip(i as int);
        assert(rest[0] == s0[i as int]);
        let yf = files_of_path_exec(modules, s[i].as_str());
        let before = xf > yf || (xf == yf && str_lt(x.as_str(), s[i].as_str()));
        if before {
            s.insert(i, x);
            proof {
                assert(crate::rg::views(s@) =~= s0.insert(i as int, xv));
                assert(s0.insert(i as int, xv) =~= s0.take(i as int) + (seq![xv] + rest));
            }
            return;
        }
        proof {
            assert(rest.drop_first() =~= s0.skip(i + 1));
            assert(s0.take(i as int) + (seq![s0[i as int]] + insert_suggestion(modules@, s0.skip(i + 1), xv))
                =~= s0.take(i + 1) + insert_suggestion(modules@, s0.skip(i + 1), xv));
        }
        i = i + 1;
    }
    s.push(x);
    proof {
        assert(crate::rg::views(s@) =~= s0.push(xv));
        assert(s0.skip(s0.len() as int) =~= Seq::<Seq<char>>::empty());
        assert(s0.take(s0.len() as int) + seq![xv] =~= s0.push(xv));
    }
}

fn contains_string(v: &Vec<String>, p: &str) -> (r: bool)
    ensures
        r == crate::rg::views(v@).contains(p@),
{
    let mut i: usize = 0;
    while i < v.len()
        invariant
            i <= v@.len(),
            forall|q: int| 0 <= q < i ==> #[trigger] v@[q]@ != p@,
        decreases v.len() - i,
    {
        if eq(v[i].as_str(), p) {
            assert(crate::rg::views(v@)[i as int] == p@);
            return true;
        }
        i = i + 1;
    }
    assert(!crate::rg::views(v@).contains(p@)) by {
        if crate::rg::views(v@).contains(p@) {
            let q = choose|q: int| 0 <= q < crate::rg::views(v@).len() && crate::rg::views(v@)[q] == p@;
            assert(v@[q]@ == p@);
        }
    }
    false
}

/// The next `greppy map` commands to try.
pub fn suggestions(scope_rel: &str, modules: &[ModuleSummary]) -> (r: Vec<String>)
    ensures
        crate::rg::views(r@) == suggestions_spec(scope_rel@, modules@),
{
    let mut sorted: Vec<String> = Vec::new();
    let mut i: usize = 0;
    assert(modules@.take(0) =~= Seq::<ModuleSummary>::empty());
    assert(crate::rg::views(sorted@) =~= Seq::<Seq<char>>::empty());
    while i < modules.len()
        invariant
            i <= modules@.len(),
            crate::rg::views(sorted@) == sort_suggestions(modules@, suggestion_candidates(modules@.take(i as int))),
        decreases modules.len() - i,
    {
        assert(modules@.take(i + 1).drop_last() =~= modules@.take(i as int));
        let m = &modules[i];
        if !m.collapsed && m.files > 0 {
            let ghost c = suggestion_candidates(modules@.take(i as int));
            assert(c.push(m.path@).drop_last() =~= c);
            insert_suggestion_exec(modules, &mut sorted, m.path.clone());
        }
        i = i + 1;
    }
    assert(modules@.take(modules@.len() as int) =~= modules@);
    let ghost full = crate::rg::views(sorted@);
    if sorted.len() > 3 {
        sorted.truncate(3);
        assert(crate::rg::views(sorted@) =~= full.take(3));
    }
    if sorted.len() < 2 {
        let ghost top = crate::rg::views(sorted@);
        let fbs: [&str; 3] = ["src", "tests", "crates"];
        proof {
            reveal_strlit("src");
            reveal_strlit("tests");
            reveal_strlit("crates");
            assert(fbs@.map_values(|x: &str| x@) =~= fallback_dirs());
        }
        let mut k: usize = 0;
        while k < 3 && sorted.len() < 2
            invariant
                k <= 3,
                fbs@.map_values(|x: &str| x@) == fallback_dirs(),
                crate::rg::views(sorted@).len() <= 2,
                crate::rg::views(sorted@).len() < 2 ==> top_up(top, scope_rel@, fallback_dirs(), 0) == top_up(
                    crate::rg::views(sorted@),
                    scope_rel@,
                    fallback_dirs(),
                    k as int,
                ),
                crate::rg::views(sorted@).len() == 2 ==> top_up(top, scope_rel@, fallback_dirs(), 0)
                    == crate::rg::views(sorted@),
            decreases 3 - k,
        {
            let p = source_path(scope_rel, fbs[k]);
            assert(fallback_dirs()[k as int] == fbs@[k as int]@);
            if !contains_string(&sorted, p.as_str()) {
                let ghost before = crate::rg::views(sorted@);
                sorted.push(p);
                assert(crate::rg::views(sorted@) =~= before.push(source_path_spec(scope_rel@, fallback_dirs()[k as int])));
            }
            k = k + 1;
        }
    }
    let ghost all = crate::rg::views(sorted@);
    let mut out: Vec<String> = Vec::new();
    let mut j: usize = 0;
    let n = if sorted.len() > 3 {
        3
    } else {
        sorted.len()
    };
    while j < n
        invariant
            n <= sorted@.len(),
            all == crate::rg::views(sorted@),
            j <= n,
            crate::rg::views(out@) == Seq::new(j as nat, |q: int| "greppy map "@ + all[q] + seq!['/']),
        decreases n - j,
    {
        let mut line = String::from_str("greppy map ");
        line.append(sorted[j].as_str());
        push_char(&mut line, '/');
        proof {
            reveal_strlit("greppy map ");
        }
        assert(line@ =~= "greppy map "@ + all[j as int] + seq!['/']);
        let ghost before = crate::rg::views(out@);
        let ghost lv = line@;
        out.push(line);
        assert(crate::rg::views(out@) =~= before.push(lv));
        assert(crate::rg::views(out@) =~= Seq::new((j + 1) as nat, |q: int| "greppy map "@ + all[q] + seq!['/']));
        j = j + 1;
    }
    proof {
        let shown = if all.len() > 3 {
            all.take(3)
        } else {
            all
        };
        assert(crate::rg::views(out@) =~= Seq::new(shown.len(), |i: int| "greppy map "@ + shown[i] + seq!['/']));
    }
    out
}


/// The project files found in the scope that build commands come from.
#[derive(Debug, Clone)]
pub struct BuildFiles {
    pub cargo_toml: bool,
    pub go_mod: bool,
    pub pytest_ini: bool,
    pub pyproject_toml: bool,
    pub tox_ini: bool,
    pub package_json: bool,
}

/// A file named `name` in the scope is among the listed files.
pub open spec fn listed_spec(scope_rel: Seq<char>, files: Seq<SourceFile>, name: Seq<char>) -> bool {
    exists|i: int| 0 <= i < files.len() && #[trigger] files[i].rel_path@ == source_path_spec(scope_rel, name)
}

/// Whether a file named `name` in the scope is among the listed files.
pub fn listed(scope_rel: &str, files: &[SourceFile], name: &str) -> (r: bool)
    ensures
        r == listed_spec(scope_rel@, files@, name@),
{
    let path = source_path(scope_rel, name);
    let mut i: usize = 0;
    while i < files.len()
        invariant
            path@ == source_path_spec(scope_rel@, name@),
            i <= files@.len(),
            forall|q: int| 0 <= q < i ==> #[trigger] files@[q].rel_path@ != path@,
        decreases files.len() - i,
    {
        if eq(files[i].rel_path.as_str(), path.as_str()) {
            return true;
        }
        i = i + 1;
    }
    false
}

/// A makefile line declares `target`: it starts with the target followed
/// by `:` or ` :`.
pub open spec fn declares_target(line: Seq<char>, target: Seq<char>) -> bool {
    sw(line, target) && (sw(line.skip(target.len() as int), ":"@) || sw(line.skip(target.len() as int), " :"@))
}

/// The makefile declares `target` on one of its lines.
pub open spec fn make_has_target(content: Seq<char>, target: Seq<char>) -> bool {
    exists|i: int|
        0 <= i < crate::changes::rust_lines(content).len() && declares_target(
            #[trigger] crate::changes::rust_lines(content)[i],
            target,
        )
}

fn declares_target_exec(line: &str, target: &str) -> (r: bool)
    ensures
        r == declares_target(line@, target@),
{
    if !crate::strutil::starts_with(line, target) {
        return false;
    }
    let n = line.unicode_len();
    let t = target.unicode_len();
    let rest = line.substring_char(t, n);
    assert(rest@ =~= line@.skip(target@.len() as int));
    crate::strutil::starts_with(rest, ":") || crate::strutil::starts_with(rest, " :")
}

fn make_has_target_exec(content: &str, target: &str) -> (r: bool)
    ensures
        r == make_has_target(content@, target@),
{
    let ls = crate::changes::lines_of(content);
    let ghost lv = crate::changes::rust_lines(content@);
    let mut i: usize = 0;
    while i < ls.len()
        invariant
            crate::rg::views(ls@) == lv,
            lv == crate::changes::rust_lines(content@),
            i <= ls@.len(),
            forall|q: int| 0 <= q < i ==> !declares_target(#[trigger] lv[q], target@),
        decreases ls.len() - i,
    {
        assert(lv[i as int] == ls@[i as int]@);
        if declares_target_exec(ls[i].as_str(), target) {
            assert(declares_target(lv[i as int], target@));
            return true;
        }
        i = i + 1;
    }
    false
}

/// The commands of the project files other than the package and the
/// makefile, in order.
pub open spec fn base_entries(scope_rel: Seq<char>, present: BuildFiles) -> Seq<(Seq<char>, Seq<char>)> {
    (if present.cargo_toml {
        seq![("cargo test"@, source_path_spec(scope_rel, "Cargo.toml"@))]
    } else {
        Seq::empty()
    }) + (if present.go_mod {
        seq![("go test ./..."@, source_path_spec(scope_rel, "go.mod"@))]
    } else {
        Seq::empty()
    }) + (if present.pytest_ini {
        seq![("pytest"@, source_path_spec(scope_rel, "pytest.ini"@))]
    } else if present.pyproject_toml {
        seq![("pytest"@, source_path_spec(scope_rel, "pyproject.toml"@))]
    } else {
        Seq::empty()
    }) + (if present.tox_ini {
        seq![("tox"@, source_path_spec(scope_rel, "tox.ini"@))]
    } else {
        Seq::empty()
    })
}

/// The `make test` and `make check` commands of a makefile that declares
/// those targets.
pub open spec fn make_entries(scope_rel: Seq<char>, makefile: Option<(Seq<char>, Seq<char>)>) -> Seq<(Seq<char>, Seq<char>)> {
    match makefile {
        Some((name, content)) => (if make_has_target(content, "test"@) {
            seq![("make test"@, source_path_spec(scope_rel, name))]
        } else {
            Seq::empty()
        }) + (if make_has_target(content, "check"@) {
            seq![("make check"@, source_path_spec(scope_rel, name))]
        } else {
            Seq::empty()
        }),
        None => Seq::empty(),
    }
}

/// The (command, source) pairs found, in the order they are recorded.
pub open spec fn command_entries(
    scope_rel: Seq<char>,
    present: BuildFiles,
    package_scripts: Seq<Seq<char>>,
    makefile: Option<(Seq<char>, Seq<char>)>,
) -> Seq<(Seq<char>, Seq<char>)> {
    base_entries(scope_rel, present) + (if present.package_json {
        package_entries(scope_rel, package_scripts)
    } else {
        Seq::empty()
    }) + make_entries(scope_rel, makefile)
}

/// The npm commands of the package scripts whose names start with `test`.
pub open spec fn package_entries(scope_rel: Seq<char>, scripts: Seq<Seq<char>>) -> Seq<(Seq<char>, Seq<char>)>
    decreases scripts.len(),
{
    if scripts.len() == 0 {
        Seq::empty()
    } else {
        let rest = package_entries(scope_rel, scripts.drop_last());
        let name = scripts.last();
        if sw(name, "test"@) {
            rest.push(
                (
                    if name == "test"@ {
                        "npm test"@
                    } else {
                        "npm run "@ + name
                    },
                    source_path_spec(scope_rel, "package.json"@),
                ),
            )
        } else {
            rest
        }
    }
}

/// Records a command in a command-ordered table, replacing the source of
/// a command already there.
pub open spec fn command_insert(s: Seq<(Seq<char>, Seq<char>)>, e: (Seq<char>, Seq<char>)) -> Seq<(Seq<char>, Seq<char>)>
    decreases s.len(),
{
    if s.len() == 0 {
        seq![e]
    } else if s[0].0 == e.0 {
        s.update(0, e)
    } else if seq_lt(e.0, s[0].0) {
        seq![e] + s
    } else {
        seq![s[0]] + command_insert(s.drop_first(), e)
    }
}

/// The entries recorded one by one.
pub open spec fn command_table(es: Seq<(Seq<char>, Seq<char>)>) -> Seq<(Seq<char>, Seq<char>)>
    decreases es.len(),
{
    if es.len() == 0 {
        Seq::empty()
    } else {
        command_insert(command_table(es.drop_last()), es.last())
    }
}

/// A command as plain values.
pub open spec fn command_view(c: BuildCommand) -> (Seq<char>, Seq<char>) {
    (c.command@, c.source@)
}

fn command_insert_exec(t: &mut Vec<BuildCommand>, e: BuildCommand)
    ensures
        command_views(final(t)@) == command_insert(command_views(old(t)@), command_view(e)),
{
    let ghost s0 = command_views(t@);
    let ghost ev = command_view(e);
    let mut i: usize = 0;
    assert(s0.skip(0) =~= s0);
    assert(s0.take(0) + s0 =~= s0);
    while i < t.len()
        invariant
            s0 == command_views(old(t)@),
            ev == command_view(e),
            t@ == old(t)@,
            i <= t@.len(),
            command_insert(s0, ev) == s0.take(i as int) + command_insert(s0.skip(i as int), ev),
        decreases t.len() - i,
    {
        let ghost rest = s0.skip(i as int);
        assert(rest[0] == s0[i as int]);
        if eq(t[i].command.as_str(), e.command.as_str()) {
            t.set(i, e);
            proof {
                assert(command_views(t@) =~= s0.update(i as int, ev));
                assert(s0.update(i as int, ev) =~= s0.take(i as int) + rest.update(0, ev));
            }
            return;
        }
        if str_lt(e.command.as_str(), t[i].command.as_str()) {
            t.insert(i, e);
            proof {
                assert(command_views(t@) =~= s0.insert(i as int, ev));
                assert(s0.insert(i as int, ev) =~= s0.take(i as int) + (seq![ev] + rest));
            }
            return;
        }
        proof {
            assert(rest.drop_first() =~= s0.skip(i + 1));
            assert(s0.take(i as int) + (seq![s0[i as int]] + command_insert(s0.skip(i + 1), ev)) =~= s0.take(i + 1)
                + command_insert(s0.skip(i + 1), ev));
        }
        i = i + 1;
    }
    t.push(e);
    proof {
        assert(command_views(t@) =~= s0.push(ev));
        assert(s0.skip(s0.len() as int) =~= Seq::<(Seq<char>, Seq<char>)>::empty());
        assert(s0.take(s0.len() as int) + seq![ev] =~= s0.push(ev));
    }
}

fn entry(command: &str, scope_rel: &str, name: &str) -> (r: BuildCommand)
    ensures
        command_view(r) == (command@, source_path_spec(scope_rel@, name@)),
{
    BuildCommand { command: String::from_str(command), source: source_path(scope_rel, name) }
}

/// The plain values of commands.
pub open spec fn command_views(v: Seq<BuildCommand>) -> Seq<(Seq<char>, Seq<char>)> {
    Seq::new(v.len(), |i: int| command_view(v[i]))
}

fn push_entry(es: &mut Vec<BuildCommand>, e: BuildCommand)
    ensures
        command_views(final(es)@) == command_views(old(es)@).push(command_view(e)),
{
    es.push(e);
    assert(command_views(es@) =~= command_views(old(es)@).push(command_view(e)));
}

fn base_entries_exec(scope_rel: &str, present: &BuildFiles) -> (r: Vec<BuildCommand>)
    ensures
        command_views(r@) == base_entries(scope_rel@, *present),
{
    proof {
        reveal_strlit("cargo test");
        reveal_strlit("Cargo.toml");
        reveal_strlit("go test ./...");
        reveal_strlit("go.mod");
        reveal_strlit("pytest");
        reveal_strlit("pytest.ini");
        reveal_strlit("pyproject.toml");
        reveal_strlit("tox");
        reveal_strlit("tox.ini");
    }
    let mut es: Vec<BuildCommand> = Vec::new();
    if present.cargo_toml {
        push_entry(&mut es, entry("cargo test", scope_rel, "Cargo.toml"));
    }
    if present.go_mod {
        push_entry(&mut es, entry("go test ./...", scope_rel, "go.mod"));
    }
    if present.pytest_ini {
        push_entry(&mut es, entry("pytest", scope_rel, "pytest.ini"));
    } else if present.pyproject_toml {
        push_entry(&mut es, entry("pytest", scope_rel, "pyproject.toml"));
    }
    if present.tox_ini {
        push_entry(&mut es, entry("tox", scope_rel, "tox.ini"));
    }
    assert(command_views(es@) =~= base_entries(scope_rel@, *present));
    es
}

fn package_entries_exec(scope_rel: &str, package_scripts: &[String]) -> (r: Vec<BuildCommand>)
    ensures
        command_views(r@) == package_entries(scope_rel@, crate::rg::views(package_scripts@)),
{
    proof {
        reveal_strlit("npm test");
        reveal_strlit("npm run ");
        reveal_strlit("test");
    }
    let ghost scripts = crate::rg::views(package_scripts@);
    let mut es: Vec<BuildCommand> = Vec::new();
    let mut i: usize = 0;
    assert(scripts.take(0) =~= Seq::<Seq<char>>::empty());
    assert(command_views(es@) =~= Seq::<(Seq<char>, Seq<char>)>::empty());
    while i < package_scripts.len()
        invariant
            scripts == crate::rg::views(package_scripts@),
            i <= package_scripts@.len(),
            command_views(es@) == package_entries(scope_rel@, scripts.take(i as int)),
        decreases package_scripts.len() - i,
    {
        assert(scripts.take(i + 1).drop_last() =~= scripts.take(i as int));
        assert(scripts.take(i + 1).last() == package_scripts@[i as int]@);
        let name = package_scripts[i].as_str();
        if crate::strutil::starts_with(name, "test") {
            let command = if eq(name, "test") {
                String::from_str("npm test")
            } else {
                let mut c = String::from_str("npm run ");
                c.append(name);
                c
            };
            let e = BuildCommand { command, source: source_path(scope_rel, "package.json") };
            push_entry(&mut es, e);
        }
        i = i + 1;
    }
    assert(scripts.take(scripts.len() as int) =~= scripts);
    es
}

fn make_entries_exec(scope_rel: &str, makefile: Option<(&str, &str)>) -> (r: Vec<BuildCommand>)
    ensures
        command_views(r@) == make_entries(
            scope_rel@,
            match makefile {
                Some((n, c)) => Some((n@, c@)),
                None => None,
            },
        ),
{
    proof {
        reveal_strlit("make test");
        reveal_strlit("make check");
        reveal_strlit("test");
        reveal_strlit("check");
    }
    let mut es: Vec<BuildCommand> = Vec::new();
    match makefile {
        Some((name, content)) => {
            if make_has_target_exec(content, "test") {
                push_entry(&mut es, entry("make test", scope_rel, name));
            }
            if make_has_target_exec(content, "check") {
                push_entry(&mut es, entry("make check", scope_rel, name));
            }
        },
        None => {},
    }
    assert(command_views(es@) =~= make_entries(
        scope_rel@,
        match makefile {
            Some((n, c)) => Some((n@, c@)),
            None => None,
        },
    ));
    es
}

/// The build and test commands of the scope, by command, each with the
/// file it came from: `cargo test`, `go test ./...`, `pytest`, `tox`, the
/// package's `test*` scripts, and the makefile's `test` and `check`
/// targets. `package_scripts` are the script names of `package.json` and
/// `makefile` the name and text of the first makefile present, when they
/// could be read.
pub fn build_commands(
    scope_rel: &str,
    present: &BuildFiles,
    package_scripts: &[String],
    makefile: Option<(&str, &str)>,
) -> (r: Vec<BuildCommand>)
    ensures
        command_views(r@) == command_table(
            command_entries(
                scope_rel@,
                *present,
                crate::rg::views(package_scripts@),
                match makefile {
                    Some((n, c)) => Some((n@, c@)),
                    None => None,
                },
            ),
        ),
{
    let mut es = base_entries_exec(scope_rel, present);
    if present.package_json {
        let mut npm = package_entries_exec(scope_rel, package_scripts);
        let ghost a = command_views(es@);
        es.append(&mut npm);
        assert(command_views(es@) =~= a + package_entries(scope_rel@, crate::rg::views(package_scripts@)));
    }
    let mut mk = make_entries_exec(scope_rel, makefile);
    let ghost b = command_views(es@);
    es.append(&mut mk);
    let ghost ev = command_views(es@);
    assert(ev =~= command_entries(
        scope_rel@,
        *present,
        crate::rg::views(package_scripts@),
        match makefile {
            Some((n, c)) => Some((n@, c@)),
            None => None,
        },
    ));
    let mut t: Vec<BuildCommand> = Vec::new();
    let mut k: usize = 0;
    assert(ev.take(0) =~= Seq::<(Seq<char>, Seq<char>)>::empty());
    assert(command_views(t@) =~= Seq::<(Seq<char>, Seq<char>)>::empty());
    while k < es.len()
        invariant
            ev == command_views(es@),
            k <= es@.len(),
            command_views(t@) == command_table(ev.take(k as int)),
        decreases es.len() - k,
    {
        assert(ev.take(k + 1).drop_last() =~= ev.take(k as int));
        let e = BuildCommand { command: es[k].command.clone(), source: es[k].source.clone() };
        command_insert_exec(&mut t, e);
        k = k + 1;
    }
    assert(ev.take(ev.len() as int) =~= ev);
    t
}


/// `n` spaces.
pub open spec fn spaces(n: nat) -> Seq<char> {
    Seq::new(n, |i: int| ' ')
}

/// `s` padded with spaces on the right to at least `w` characters.
pub open spec fn pad_right_spec(s: Seq<char>, w: nat) -> Seq<char> {
    if s.len() >= w {
        s
    } else {
        s + spaces((w - s.len()) as nat)
    }
}

/// `s` padded with spaces on the left to at least `w` characters.
pub open spec fn pad_left_spec(s: Seq<char>, w: nat) -> Seq<char> {
    if s.len() >= w {
        s
    } else {
        spaces((w - s.len()) as nat) + s
    }
}

fn push_spaces(s: &mut String, n: usize)
    ensures
        final(s)@ == old(s)@ + spaces(n as nat),
{
    let mut k: usize = 0;
    while k < n
        invariant
            k <= n,
            s@ == old(s)@ + spaces(k as nat),
        decreases n - k,
    {
        push_char(s, ' ');
        assert(old(s)@ + spaces((k + 1) as nat) =~= (old(s)@ + spaces(k as nat)).push(' '));
        k = k + 1;
    }
}

/// Appends `t` padded on the right to `w` characters.
pub(crate) fn push_padded_right(s: &mut String, t: &str, w: usize)
    ensures
        final(s)@ == old(s)@ + pad_right_spec(t@, w as nat),
{
    let n = t.unicode_len();
    s.append(t);
    if n < w {
        push_spaces(s, w - n);
    }
    assert(s@ =~= old(s)@ + pad_right_spec(t@, w as nat));
}

/// Appends `t` padded on the left to `w` characters.
fn push_padded_left(s: &mut String, t: &str, w: usize)
    ensures
        final(s)@ == old(s)@ + pad_left_spec(t@, w as nat),
{
    let n = t.unicode_len();
    if n < w {
        push_spaces(s, w - n);
    }
    s.append(t);
    assert(s@ =~= old(s)@ + pad_left_spec(t@, w as nat));
}

/// The line of a language: name, file count, and whether it is indexed
/// (`yes`, `no` or `partial i/n`).
pub open spec fn language_line(l: (Seq<char>, nat, nat)) -> Seq<char> {
    let coverage = if l.2 == l.1 {
        "yes"@
    } else if l.2 == 0 {
        "no"@
    } else {
        "partial "@ + digits_spec(l.2) + seq!['/'] + digits_spec(l.1)
    };
    "  "@ + pad_right_spec(l.0, 12) + seq![' '] + pad_left_spec(digits_spec(l.1), 5) + " files  indexed: "@ + coverage
}

/// The line of a module or subtree, marked when collapsed.
pub open spec fn module_line(m: (Seq<char>, nat, bool), mark: bool) -> Seq<char> {
    "  "@ + pad_right_spec(m.0, 28) + seq![' '] + pad_left_spec(digits_spec(m.1), 5) + " files"@ + if mark
        && m.2 {
        "  [collapsed]"@
    } else {
        Seq::empty()
    }
}

/// The line of a build command.
pub open spec fn command_line(c: (Seq<char>, Seq<char>)) -> Seq<char> {
    "  "@ + c.0 + "  ("@ + c.1 + seq![')']
}

/// At most `limit` item lines, and how many were left out; a placeholder
/// when there is none.
pub open spec fn limited(items: Seq<Seq<char>>, limit: nat) -> Seq<Seq<char>> {
    if items.len() == 0 {
        seq!["  (none detected)"@]
    } else if items.len() > limit {
        items.take(limit as int).push("  ... "@ + digits_spec((items.len() - limit) as nat) + " more"@)
    } else {
        items
    }
}

/// The one-screen text of a map.
pub open spec fn render_map_spec(
    workspace: Seq<char>,
    scope_rel: Seq<char>,
    languages: Seq<(Seq<char>, nat, nat)>,
    modules: Seq<(Seq<char>, nat, bool)>,
    test_roots: Seq<Seq<char>>,
    commands: Seq<(Seq<char>, Seq<char>)>,
    subtrees: Seq<(Seq<char>, nat, bool)>,
    suggestions: Seq<Seq<char>>,
) -> Seq<Seq<char>> {
    seq!["project: "@ + workspace, "scope: "@ + scope_rel, Seq::empty(), "languages:"@] + limited(
        Seq::new(languages.len(), |i: int| language_line(languages[i])),
        10,
    ) + seq![Seq::empty(), "modules:"@] + limited(Seq::new(modules.len(), |i: int| module_line(modules[i], true)), 12)
        + seq![Seq::empty(), "test roots:"@] + limited(Seq::new(test_roots.len(), |i: int| "  "@ + test_roots[i]), 6)
        + seq![Seq::empty(), "build/test commands:"@] + limited(
        Seq::new(commands.len(), |i: int| command_line(commands[i])),
        7,
    ) + seq![Seq::empty(), "largest subtrees:"@] + limited(
        Seq::new(subtrees.len(), |i: int| module_line(subtrees[i], false)),
        5,
    ) + seq![Seq::empty()] + Seq::new(suggestions.len(), |i: int| "try: "@ + suggestions[i])
}

fn language_line_exec(l: &LanguageSummary) -> (r: String)
    ensures
        r@ == language_line(lang_summary_view(*l)),
{
    proof {
        reveal_strlit("  ");
        reveal_strlit(" files  indexed: ");
        reveal_strlit("yes");
        reveal_strlit("no");
        reveal_strlit("partial ");
    }
    let mut s = String::from_str("  ");
    push_padded_right(&mut s, l.language.as_str(), 12);
    push_char(&mut s, ' ');
    push_padded_left(&mut s, digits_string(l.files as u64).as_str(), 5);
    s.append(" files  indexed: ");
    if l.indexed_files == l.files {
        s.append("yes");
    } else if l.indexed_files == 0 {
        s.append("no");
    } else {
        s.append("partial ");
        s.append(digits_string(l.indexed_files as u64).as_str());
        push_char(&mut s, '/');
        s.append(digits_string(l.files as u64).as_str());
    }
    assert(s@ =~= language_line(lang_summary_view(*l)));
    s
}

fn module_line_exec(m: &ModuleSummary, mark: bool) -> (r: String)
    ensures
        r@ == module_line(module_view(*m), mark),
{
    proof {
        reveal_strlit("  ");
        reveal_strlit(" files");
        reveal_strlit("  [collapsed]");
    }
    let mut s = String::from_str("  ");
    push_padded_right(&mut s, m.path.as_str(), 28);
    push_char(&mut s, ' ');
    push_padded_left(&mut s, digits_string(m.files as u64).as_str(), 5);
    s.append(" files");
    if mark && m.collapsed {
        s.append("  [collapsed]");
    }
    assert(s@ =~= module_line(module_view(*m), mark));
    s
}

fn push_limited(lines: &mut Vec<String>, items: Vec<String>, limit: usize)
    ensures
        crate::rg::views(final(lines)@) == crate::rg::views(old(lines)@) + limited(crate::rg::views(items@), limit as nat),
{
    proof {
        reveal_strlit("  (none detected)");
        reveal_strlit("  ... ");
        reveal_strlit(" more");
    }
    let ghost l0 = crate::rg::views(lines@);
    let ghost iv = crate::rg::views(items@);
    if items.len() == 0 {
        lines.push(String::from_str("  (none detected)"));
        assert(crate::rg::views(lines@) =~= l0 + limited(iv, limit as nat));
        return;
    }
    let n = if items.len() > limit {
        limit
    } else {
        items.len()
    };
    let mut i: usize = 0;
    while i < n
        invariant
            n <= items@.len(),
            iv == crate::rg::views(items@),
            i <= n,
            crate::rg::views(lines@) == l0 + iv.take(i as int),
        decreases n - i,
    {
        let ghost before = crate::rg::views(lines@);
        lines.push(items[i].clone());
        assert(crate::rg::views(lines@) =~= before.push(iv[i as int]));
        assert(iv.take(i + 1) =~= iv.take(i as int).push(iv[i as int]));
        i = i + 1;
    }
    if items.len() > limit {
        let mut m = String::from_str("  ... ");
        m.append(digits_string((items.len() - limit) as u64).as_str());
        m.append(" more");
        let ghost before = crate::rg::views(lines@);
        let ghost mv = m@;
        lines.push(m);
        assert(crate::rg::views(lines@) =~= before.push(mv));
    } else {
        assert(iv.take(iv.len() as int) =~= iv);
    }
    assert(crate::rg::views(lines@) =~= l0 + limited(iv, limit as nat));
}

pub(crate) fn push_line(lines: &mut Vec<String>, s: &str)
    ensures
        crate::rg::views(final(lines)@) == crate::rg::views(old(lines)@).push(s@),
{
    lines.push(String::from_str(s));
    assert(crate::rg::views(lines@) =~= crate::rg::views(old(lines)@).push(s@));
}

pub(crate) fn push_string(lines: &mut Vec<String>, s: String)
    ensures
        crate::rg::views(final(lines)@) == crate::rg::views(old(lines)@).push(s@),
{
    let ghost sv = s@;
    lines.push(s);
    assert(crate::rg::views(lines@) =~= crate::rg::views(old(lines)@).push(sv));
}

fn language_lines(languages: &[LanguageSummary]) -> (r: Vec<String>)
    ensures
        crate::rg::views(r@) == Seq::new(languages@.len(), |k: int| language_line(lang_summary_view(languages@[k]))),
{
    let mut items: Vec<String> = Vec::new();
    let mut i: usize = 0;
    while i < languages.len()
        invariant
            i <= languages@.len(),
            crate::rg::views(items@) == Seq::new(i as nat, |k: int| language_line(lang_summary_view(languages@[k]))),
        decreases languages.len() - i,
    {
        push_string(&mut items, language_line_exec(&languages[i]));
        assert(crate::rg::views(items@) =~= Seq::new((i + 1) as nat, |k: int| language_line(lang_summary_view(languages@[k]))));
        i = i + 1;
    }
    items
}

fn module_lines(modules: &[ModuleSummary], mark: bool) -> (r: Vec<String>)
    ensures
        crate::rg::views(r@) == Seq::new(modules@.len(), |k: int| module_line(module_view(modules@[k]), mark)),
{
    let mut items: Vec<String> = Vec::new();
    let mut i: usize = 0;
    while i < modules.len()
        invariant
            i <= modules@.len(),
            crate::rg::views(items@) == Seq::new(i as nat, |k: int| module_line(module_view(modules@[k]), mark)),
        decreases modules.len() - i,
    {
        push_string(&mut items, module_line_exec(&modules[i], mark));
        assert(crate::rg::views(items@) =~= Seq::new((i + 1) as nat, |k: int| module_line(module_view(modules@[k]), mark)));
        i = i + 1;
    }
    items
}

pub(crate) fn prefixed_lines(prefix: &str, values: &[String]) -> (r: Vec<String>)
    ensures
        crate::rg::views(r@) == Seq::new(values@.len(), |k: int| prefix@ + values@[k]@),
{
    let mut items: Vec<String> = Vec::new();
    let mut i: usize = 0;
    while i < values.len()
        invariant
            i <= values@.len(),
            crate::rg::views(items@) == Seq::new(i as nat, |k: int| prefix@ + values@[k]@),
        decreases values.len() - i,
    {
        let mut l = String::from_str(prefix);
        l.append(values[i].as_str());
        push_string(&mut items, l);
        assert(crate::rg::views(items@) =~= Seq::new((i + 1) as nat, |k: int| prefix@ + values@[k]@));
        i = i + 1;
    }
    items
}

fn command_lines(commands: &[BuildCommand]) -> (r: Vec<String>)
    ensures
        crate::rg::views(r@) == Seq::new(commands@.len(), |k: int| command_line(command_view(commands@[k]))),
{
    proof {
        reveal_strlit("  ");
        reveal_strlit("  (");
    }
    let mut items: Vec<String> = Vec::new();
    let mut i: usize = 0;
    while i < commands.len()
        invariant
            i <= commands@.len(),
            crate::rg::views(items@) == Seq::new(i as nat, |k: int| command_line(command_view(commands@[k]))),
        decreases commands.len() - i,
    {
        let mut l = String::from_str("  ");
        l.append(commands[i].command.as_str());
        l.append("  (");
        l.append(commands[i].source.as_str());
        push_char(&mut l, ')');
        assert(l@ =~= command_line(command_view(commands@[i as int])));
        push_string(&mut items, l);
        assert(crate::rg::views(items@) =~= Seq::new((i + 1) as nat, |k: int| command_line(command_view(commands@[k]))));
        i = i + 1;
    }
    items
}

/// Renders the map as lines of text.
pub fn render_text(
    workspace: &str,
    scope_rel: &str,
    languages: &[LanguageSummary],
    modules: &[ModuleSummary],
    test_roots: &[String],
    commands: &[BuildCommand],
    large_subtrees: &[ModuleSummary],
    suggestions: &[String],
) -> (r: Vec<String>)
    ensures
        crate::rg::views(r@) == render_map_spec(
            workspace@,
            scope_rel@,
            Seq::new(languages@.len(), |i: int| lang_summary_view(languages@[i])),
            Seq::new(modules@.len(), |i: int| module_view(modules@[i])),
            crate::rg::views(test_roots@),
            command_views(commands@),
            Seq::new(large_subtrees@.len(), |i: int| module_view(large_subtrees@[i])),
            crate::rg::views(suggestions@),
        ),
{
    proof {
        reveal_strlit("project: ");
        reveal_strlit("scope: ");
        reveal_strlit("");
        reveal_strlit("languages:");
        reveal_strlit("modules:");
        reveal_strlit("test roots:");
        reveal_strlit("build/test commands:");
        reveal_strlit("largest subtrees:");
        reveal_strlit("try: ");
        reveal_strlit("  ");
    }
    assert(""@ =~= Seq::<char>::empty());
    let mut lines: Vec<String> = Vec::new();
    let mut p = String::from_str("project: ");
    p.append(workspace);
    push_string(&mut lines, p);
    let mut sc = String::from_str("scope: ");
    sc.append(scope_rel);
    push_string(&mut lines, sc);
    push_line(&mut lines, "");
    push_line(&mut lines, "languages:");
    push_limited(&mut lines, language_lines(languages), 10);
    push_line(&mut lines, "");
    push_line(&mut lines, "modules:");
    push_limited(&mut lines, module_lines(modules, true), 12);
    push_line(&mut lines, "");
    push_line(&mut lines, "test roots:");
    push_limited(&mut lines, prefixed_lines("  ", test_roots), 6);
    push_line(&mut lines, "");
    push_line(&mut lines, "build/test commands:");
    push_limited(&mut lines, command_lines(commands), 7);
    push_line(&mut lines, "");
    push_line(&mut lines, "largest subtrees:");
    push_limited(&mut lines, module_lines(large_subtrees, false), 5);
    push_line(&mut lines, "");
    let mut tries = prefixed_lines("try: ", suggestions);
    let ghost before = crate::rg::views(lines@);
    let ghost tv = crate::rg::views(tries@);
    lines.append(&mut tries);
    assert(crate::rg::views(lines@) =~= before + tv);
    proof {
        let lv = Seq::new(languages@.len(), |i: int| lang_summary_view(languages@[i]));
        let mv = Seq::new(modules@.len(), |i: int| module_view(modules@[i]));
        let sv = Seq::new(large_subtrees@.len(), |i: int| module_view(large_subtrees@[i]));
        assert(Seq::new(languages@.len(), |k: int| language_line(lang_summary_view(languages@[k]))) =~= Seq::new(
            lv.len(),
            |k: int| language_line(lv[k]),
        ));
        assert(Seq::new(modules@.len(), |k: int| module_line(module_view(modules@[k]), true)) =~= Seq::new(
            mv.len(),
            |k: int| module_line(mv[k], true),
        ));
        assert(Seq::new(test_roots@.len(), |k: int| "  "@ + test_roots@[k]@) =~= Seq::new(
            crate::rg::views(test_roots@).len(),
            |k: int| "  "@ + crate::rg::views(test_roots@)[k],
        ));
        assert(Seq::new(commands@.len(), |k: int| command_line(command_view(commands@[k]))) =~= Seq::new(
            command_views(commands@).len(),
            |k: int| command_line(command_views(commands@)[k]),
        ));
        assert(Seq::new(large_subtrees@.len(), |k: int| module_line(module_view(large_subtrees@[k]), false)) =~= Seq::new(
            sv.len(),
            |k: int| module_line(sv[k], false),
        ));
        assert(Seq::new(suggestions@.len(), |k: int| "try: "@ + suggestions@[k]@) =~= Seq::new(
            crate::rg::views(suggestions@).len(),
            |k: int| "try: "@ + crate::rg::views(suggestions@)[k],
        ));
    }
    assert(crate::rg::views(lines@) =~= render_map_spec(
        workspace@,
        scope_rel@,
        Seq::new(languages@.len(), |i: int| lang_summary_view(languages@[i])),
        Seq::new(modules@.len(), |i: int| module_view(modules@[i])),
        crate::rg::views(test_roots@),
        command_views(commands@),
        Seq::new(large_subtrees@.len(), |i: int| module_view(large_subtrees@[i])),
        crate::rg::views(suggestions@),
    ));
    lines
}


/// TypeScript is its own language in the map: a path whose extension
/// (after the last `.` of its file name, in any ASCII case) is `ts`, `tsx`,
/// `mts` or `cts` has language `typescript`, and one whose extension is
/// `js`, `jsx`, `mjs` or `cjs` has language `javascript`, a different one.
pub proof fn lemma_typescript_is_its_own_language(path: Seq<char>)
    ensures
        ({
            let file = base_spec(path);
            let ext = ascii_lower(file.skip(last_index(file, '.') + 1));
            &&& last_index(file, '.') >= 0 && (ext == "ts"@ || ext == "tsx"@ || ext == "mts"@ || ext == "cts"@)
                ==> language_for_path_spec(path) == Some("typescript"@)
            &&& last_index(file, '.') >= 0 && (ext == "js"@ || ext == "jsx"@ || ext == "mjs"@ || ext == "cjs"@)
                ==> language_for_path_spec(path) == Some("javascript"@)
        }),
        "typescript"@ != "javascript"@,
{
    reveal_strlit("typescript");
    reveal_strlit("javascript");
    reveal_strlit("ts");
    reveal_strlit("tsx");
    reveal_strlit("mts");
    reveal_strlit("cts");
    reveal_strlit("js");
    reveal_strlit("jsx");
    reveal_strlit("mjs");
    reveal_strlit("cjs");
    reveal_strlit("rs");
    reveal_strlit("py");
    reveal_strlit("pyi");
    assert("typescript"@[0] != "javascript"@[0]);
    assert("ts"@[0] != "rs"@[0]);
    assert("ts"@[0] != "py"@[0]);
    assert("ts"@.len() != "pyi"@.len());
    assert("ts"@[0] != "js"@[0]);
    assert("ts"@.len() != "jsx"@.len());
    assert("ts"@.len() != "mjs"@.len());
    assert("ts"@.len() != "cjs"@.len());
    assert("ts"@.len() != "tsx"@.len());
    assert("ts"@.len() != "mts"@.len());
    assert("ts"@.len() != "cts"@.len());
    assert("tsx"@.len() != "rs"@.len());
    assert("tsx"@.len() != "py"@.len());
    assert("tsx"@[0] != "pyi"@[0]);
    assert("tsx"@.len() != "js"@.len());
    assert("tsx"@[0] != "jsx"@[0]);
    assert("tsx"@[0] != "mjs"@[0]);
    assert("tsx"@[0] != "cjs"@[0]);
    assert("tsx"@.len() != "ts"@.len());
    assert("tsx"@[0] != "mts"@[0]);
    assert("tsx"@[0] != "cts"@[0]);
    assert("mts"@.len() != "rs"@.len());
    assert("mts"@.len() != "py"@.len());
    assert("mts"@[0] != "pyi"@[0]);
    assert("mts"@.len() != "js"@.len());
    assert("mts"@[0] != "jsx"@[0]);
    assert("mts"@[1] != "mjs"@[1]);
    assert("mts"@[0] != "cjs"@[0]);
    assert("mts"@.len() != "ts"@.len());
    assert("mts"@[0] != "tsx"@[0]);
    assert("mts"@[0] != "cts"@[0]);
    assert("cts"@.len() != "rs"@.len());
    assert("cts"@.len() != "py"@.len());
    assert("cts"@[0] != "pyi"@[0]);
    assert("cts"@.len() != "js"@.len());
    assert("cts"@[0] != "jsx"@[0]);
    assert("cts"@[0] != "mjs"@[0]);
    assert("cts"@[1] != "cjs"@[1]);
    assert("cts"@.len() != "ts"@.len());
    assert("cts"@[0] != "tsx"@[0]);
    assert("cts"@[0] != "mts"@[0]);
    assert("js"@[0] != "rs"@[0]);
    assert("js"@[0] != "py"@[0]);
    assert("js"@.len() != "pyi"@.len());
    assert("js"@.len() != "jsx"@.len());
    assert("js"@.len() != "mjs"@.len());
    assert("js"@.len() != "cjs"@.len());
    assert("js"@[0] != "ts"@[0]);
    assert("js"@.len() != "tsx"@.len());
    assert("js"@.len() != "mts"@.len());
    assert("js"@.len() != "cts"@.len());
    assert("jsx"@.len() != "rs"@.len());
    assert("jsx"@.len() != "py"@.len());
    assert("jsx"@[0] != "pyi"@[0]);
    assert("jsx"@.len() != "js"@.len());
    assert("jsx"@[0] != "mjs"@[0]);
    assert("jsx"@[0] != "cjs"@[0]);
    assert("jsx"@.len() != "ts"@.len());
    assert("jsx"@[0] != "tsx"@[0]);
    assert("jsx"@[0] != "mts"@[0]);
    assert("jsx"@[0] != "cts"@[0]);
    assert("mjs"@.len() != "rs"@.len());
    assert("mjs"@.len() != "py"@.len());
    assert("mjs"@[0] != "pyi"@[0]);
    assert("mjs"@.len() != "js"@.len());
    assert("mjs"@[0] != "jsx"@[0]);
    assert("mjs"@[0] != "cjs"@[0]);
    assert("mjs"@.len() != "ts"@.len());
    assert("mjs"@[0] != "tsx"@[0]);
    assert("mjs"@[1] != "mts"@[1]);
    assert("mjs"@[0] != "cts"@[0]);
    assert("cjs"@.len() != "rs"@.len());
    assert("cjs"@.len() != "py"@.len());
    assert("cjs"@[0] != "pyi"@[0]);
    assert("cjs"@.len() != "js"@.len());
    assert("cjs"@[0] != "jsx"@[0]);
    assert("cjs"@[0] != "mjs"@[0]);
    assert("cjs"@.len() != "ts"@.len());
    assert("cjs"@[0] != "tsx"@[0]);
    assert("cjs"@[0] != "mts"@[0]);
    assert("cjs"@[1] != "cts"@[1]);
    assert(language_of_ext("ts"@) == Some("typescript"@));
    assert(language_of_ext("tsx"@) == Some("typescript"@));
    assert(language_of_ext("mts"@) == Some("typescript"@));
    assert(language_of_ext("cts"@) == Some("typescript"@));
    assert(language_of_ext("js"@) == Some("javascript"@));
    assert(language_of_ext("jsx"@) == Some("javascript"@));
    assert(language_of_ext("mjs"@) == Some("javascript"@));
    assert(language_of_ext("cjs"@) == Some("javascript"@));
}

} // verus!
