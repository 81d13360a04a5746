//! ripgrep-style invocations: recognising them, and translating the common,
//! safely mappable flag subset to a real-grep argument list. Flags whose
//! meaning grep cannot reproduce are refused with a message that names the
//! flag and the closest alternative, never translated into a silently
//! different search.

use vstd::prelude::*;
use crate::strutil::occurs_at;
use crate::strutil::starts_with;
use crate::text::chars_of;
use crate::text::first_index;
use crate::text::push_char;
use crate::text::split_once;
use crate::text::str_eq;
use vstd::string::*;

verus! {

broadcast use vstd::string::group_string_axioms;

/// Whether `c` has Unicode's `Uppercase` property (std's
/// `char::is_uppercase`).
pub uninterp spec fn char_is_uppercase(c: char) -> bool;

/// Whether `c` is uppercase: among ASCII characters exactly `A` to `Z`,
/// beyond ASCII Unicode's `Uppercase` property.
pub open spec fn upper_char(c: char) -> bool {
    if c <= '\u{7f}' {
        'A' <= c && c <= 'Z'
    } else {
        char_is_uppercase(c)
    }
}

/// std's `char::is_uppercase`. Its result depends on the character alone;
/// among ASCII characters exactly `A` to `Z` are uppercase. The Unicode
/// table beyond ASCII is not spelled out here.
#[verifier::external_body]
fn is_uppercase(c: char) -> (r: bool)
    ensures
        r == char_is_uppercase(c),
        r == upper_char(c),
{
    c.is_uppercase()
}

/// Tokens that only exist in ripgrep's flag surface.
pub open spec fn rg_only_exact() -> Seq<Seq<char>> {
    seq![
        "--smart-case"@, "-S"@, "--files"@, "--type-list"@, "--type-add"@, "--type-clear"@,
        "--type-not"@, "--hidden"@, "--no-ignore"@, "--no-ignore-vcs"@, "--no-ignore-parent"@,
        "--no-ignore-dot"@, "--no-ignore-global"@, "--no-ignore-files"@, "--no-config"@,
        "--no-heading"@, "--heading"@, "--vimgrep"@, "--column"@, "--pcre2"@, "--multiline"@,
        "--multiline-dotall"@, "-uu"@, "-uuu"@, "--follow"@, "--iglob"@, "--glob"@, "-g"@, "-t"@,
        "--type"@, "--case-sensitive"@, "--passthru"@, "--count-matches"@, "--search-zip"@,
        "--crlf"@, "--trim"@, "--stats"@, "--json"@, "--sort"@, "--sortr"@, "--engine"@,
        "--threads"@, "--max-columns"@, "--max-columns-preview"@, "--max-depth"@,
        "--max-filesize"@, "--replace"@, "--one-file-system"@, "--pretty"@,
    ]
}

/// Prefixes (`--flag=`) that only ripgrep has.
pub open spec fn rg_only_prefix() -> Seq<Seq<char>> {
    seq![
        "--glob="@, "--iglob="@, "--type="@, "--type-not="@, "--type-add="@, "--max-columns="@,
        "--max-depth="@, "--max-filesize="@, "--sort="@, "--sortr="@, "--engine="@,
        "--threads="@, "--replace="@, "--colors="@,
    ]
}

/// ASCII letter or digit.
pub open spec fn is_ascii_alnum(c: char) -> bool {
    ('a' <= c <= 'z') || ('A' <= c <= 'Z') || ('0' <= c <= '9')
}

/// A token marks a ripgrep invocation: an rg-only flag, an rg-only
/// `--flag=` prefix, or an attached type selector such as `-tpy`.
pub open spec fn rg_token(s: Seq<char>) -> bool {
    ||| rg_only_exact().contains(s)
    ||| exists|k: int| 0 <= k < rg_only_prefix().len() && occurs_at(s, #[trigger] rg_only_prefix()[k], 0)
    ||| (occurs_at(s, "-t"@, 0) && s.len() > 2 && forall|j: int| 2 <= j < s.len() ==> is_ascii_alnum(
        #[trigger] s[j],
    ))
}

/// The answer for the tokens from `i` on: the first `--` ends the search
/// with `false`, the first rg-style token before it gives `true`.
pub open spec fn rg_style_from(args: Seq<Seq<char>>, i: int) -> bool
    decreases args.len() - i,
{
    if i < 0 || i >= args.len() {
        false
    } else if args[i] == "--"@ {
        false
    } else if rg_token(args[i]) {
        true
    } else {
        rg_style_from(args, i + 1)
    }
}

/// The views of a list of strings.
pub open spec fn views(v: Seq<String>) -> Seq<Seq<char>> {
    Seq::new(v.len(), |i: int| v[i]@)
}

fn in_list(s: &str, list: &Vec<&str>) -> (r: bool)
    ensures
        r == Seq::new(list@.len(), |i: int| list@[i]@).contains(s@),
{
    let ghost l = Seq::new(list@.len(), |i: int| list@[i]@);
    let mut i: usize = 0;
    while i < list.len()
        invariant
            l == Seq::new(list@.len(), |i: int| list@[i]@),
            i <= list@.len(),
            forall|k: int| 0 <= k < i ==> l[k] != s@,
        decreases list.len() - i,
    {
        if str_eq(s, list[i]) {
            assert(l[i as int] == s@);
            return true;
        }
        i = i + 1;
    }
    false
}

fn exact_list() -> (r: Vec<&'static str>)
    ensures
        Seq::new(r@.len(), |i: int| r@[i]@) == rg_only_exact(),
{
    let v = vec![
        "--smart-case", "-S", "--files", "--type-list", "--type-add", "--type-clear",
        "--type-not", "--hidden", "--no-ignore", "--no-ignore-vcs", "--no-ignore-parent",
        "--no-ignore-dot", "--no-ignore-global", "--no-ignore-files", "--no-config",
        "--no-heading", "--heading", "--vimgrep", "--column", "--pcre2", "--multiline",
        "--multiline-dotall", "-uu", "-uuu", "--follow", "--iglob", "--glob", "-g", "-t",
        "--type", "--case-sensitive", "--passthru", "--count-matches", "--search-zip",
        "--crlf", "--trim", "--stats", "--json", "--sort", "--sortr", "--engine",
        "--threads", "--max-columns", "--max-columns-preview", "--max-depth",
        "--max-filesize", "--replace", "--one-file-system", "--pretty",
    ];
    assert(Seq::new(v@.len(), |i: int| v@[i]@) =~= rg_only_exact());
    v
}

fn prefix_list() -> (r: Vec<&'static str>)
    ensures
        Seq::new(r@.len(), |i: int| r@[i]@) == rg_only_prefix(),
{
    let v = vec![
        "--glob=", "--iglob=", "--type=", "--type-not=", "--type-add=", "--max-columns=",
        "--max-depth=", "--max-filesize=", "--sort=", "--sortr=", "--engine=", "--threads=",
        "--replace=", "--colors=",
    ];
    assert(Seq::new(v@.len(), |i: int| v@[i]@) =~= rg_only_prefix());
    v
}

fn is_rg_token(s: &str) -> (r: bool)
    ensures
        r == rg_token(s@),
{
    let exact = exact_list();
    if in_list(s, &exact) {
        return true;
    }
    let prefixes = prefix_list();
    let ghost pl = rg_only_prefix();
    let mut k: usize = 0;
    while k < prefixes.len()
        invariant
            Seq::new(prefixes@.len(), |i: int| prefixes@[i]@) == pl,
            pl == rg_only_prefix(),
            k <= prefixes@.len(),
            forall|j: int| 0 <= j < k ==> !occurs_at(s@, #[trigger] pl[j], 0),
        decreases prefixes.len() - k,
    {
        if starts_with(s, prefixes[k]) {
            assert(occurs_at(s@, pl[k as int], 0));
            return true;
        }
        k = k + 1;
    }
    let v = chars_of(s);
    if v.len() > 2 && v[0] == '-' && v[1] == 't' {
        proof {
            reveal_strlit("-t");
            assert(s@.subrange(0, 2) =~= "-t"@);
        }
        let mut j: usize = 2;
        while j < v.len()
            invariant
                v@ == s@,
                2 <= j <= v@.len(),
                !rg_only_exact().contains(s@),
                forall|q: int| 0 <= q < rg_only_prefix().len() ==> !occurs_at(s@, #[trigger] rg_only_prefix()[q], 0),
                forall|q: int| 2 <= q < j ==> is_ascii_alnum(#[trigger] s@[q]),
            decreases v.len() - j,
        {
            let c = v[j];
            if !(('a' <= c && c <= 'z') || ('A' <= c && c <= 'Z') || ('0' <= c && c <= '9')) {
                assert(!is_ascii_alnum(s@[j as int]));
                return false;
            }
            j = j + 1;
        }
        return true;
    }
    proof {
        reveal_strlit("-t");
        if occurs_at(s@, "-t"@, 0) && s@.len() > 2 {
            assert(s@[0] == "-t"@[0]);
            assert(s@[1] == "-t"@[1]);
        }
    }
    false
}

/// Heuristic: does this argument list (no program name) look like a
/// ripgrep invocation rather than a grep one? Everything after `--` is
/// positional and never counts.
pub fn is_rg_style(args: &[String]) -> (r: bool)
    ensures
        r == rg_style_from(views(args@), 0),
{
    let ghost a = views(args@);
    let mut i: usize = 0;
    while i < args.len()
        invariant
            a == views(args@),
            i <= args@.len(),
            rg_style_from(a, 0) == rg_style_from(a, i as int),
        decreases args.len() - i,
    {
        let tok = args[i].as_str();
        if str_eq(tok, "--") {
            return false;
        }
        if is_rg_token(tok) {
            return true;
        }
        i = i + 1;
    }
    false
}

/// The hint for flags that need real ripgrep.
pub open spec fn hint_install() -> Seq<char> {
    "Install ripgrep, or restate the search with plain grep flags."@
}

/// The refusal for a flag grep cannot reproduce, with a hint.
pub open spec fn refuse_msg(flag: Seq<char>, hint: Seq<char>) -> Seq<char> {
    "greppy: ripgrep flag '"@ + flag
        + "' has no grep translation and no ripgrep binary was found (checked GREPPY_REAL_RG, system paths, PATH). "@
        + hint
}

fn refuse(flag: &str, hint: &str) -> (r: String)
    ensures
        r@ == refuse_msg(flag@, hint@),
{
    let mut m = String::from_str("greppy: ripgrep flag '");
    m.append(flag);
    m.append(
        "' has no grep translation and no ripgrep binary was found (checked GREPPY_REAL_RG, system paths, PATH). ",
    );
    m.append(hint);
    m
}

/// The refusal for a flag whose value is missing.
pub open spec fn missing_value_msg(flag: Seq<char>) -> Seq<char> {
    "greppy: ripgrep flag '"@ + flag + "' is missing its value"@
}

/// The refusal for an invocation with no pattern.
pub open spec fn no_pattern_msg() -> Seq<char> {
    "greppy: ripgrep-style invocation without a pattern (use PATTERN [PATH..])"@
}

/// File-name globs for ripgrep's common `--type` names, separated by
/// spaces.
pub open spec fn type_globs_spec(name: Seq<char>) -> Option<Seq<char>> {
    if name == "rust"@ {
        Some("*.rs"@)
    } else if name == "py"@ || name == "python"@ {
        Some("*.py *.pyi"@)
    } else if name == "js"@ || name == "javascript"@ {
        Some("*.js *.jsx *.mjs *.cjs"@)
    } else if name == "ts"@ || name == "typescript"@ {
        Some("*.ts *.tsx"@)
    } else if name == "go"@ || name == "golang"@ {
        Some("*.go"@)
    } else if name == "java"@ {
        Some("*.java"@)
    } else if name == "c"@ {
        Some("*.c *.h"@)
    } else if name == "cpp"@ || name == "cxx"@ {
        Some("*.cpp *.cc *.cxx *.hpp *.hh *.hxx *.h"@)
    } else if name == "cs"@ || name == "csharp"@ {
        Some("*.cs"@)
    } else if name == "rb"@ || name == "ruby"@ {
        Some("*.rb *.gemspec Rakefile"@)
    } else if name == "php"@ {
        Some("*.php"@)
    } else if name == "swift"@ {
        Some("*.swift"@)
    } else if name == "kotlin"@ {
        Some("*.kt *.kts"@)
    } else if name == "scala"@ {
        Some("*.scala *.sbt"@)
    } else if name == "sh"@ || name == "shell"@ {
        Some("*.sh *.bash *.zsh *.ksh"@)
    } else if name == "md"@ || name == "markdown"@ {
        Some("*.md *.markdown"@)
    } else if name == "json"@ {
        Some("*.json"@)
    } else if name == "yaml"@ {
        Some("*.yaml *.yml"@)
    } else if name == "toml"@ {
        Some("*.toml"@)
    } else if name == "html"@ {
        Some("*.html *.htm"@)
    } else if name == "css"@ {
        Some("*.css"@)
    } else if name == "sql"@ {
        Some("*.sql"@)
    } else if name == "xml"@ {
        Some("*.xml"@)
    } else if name == "txt"@ {
        Some("*.txt"@)
    } else if name == "lua"@ {
        Some("*.lua"@)
    } else if name == "haskell"@ || name == "hs"@ {
        Some("*.hs"@)
    } else if name == "elixir"@ || name == "ex"@ {
        Some("*.ex *.exs"@)
    } else if name == "erlang"@ {
        Some("*.erl *.hrl"@)
    } else if name == "r"@ {
        Some("*.r *.R"@)
    } else if name == "dart"@ {
        Some("*.dart"@)
    } else if name == "zig"@ {
        Some("*.zig"@)
    } else if name == "vue"@ {
        Some("*.vue"@)
    } else if name == "svelte"@ {
        Some("*.svelte"@)
    } else if name == "protobuf"@ || name == "proto"@ {
        Some("*.proto"@)
    } else if name == "cmake"@ {
        Some("CMakeLists.txt *.cmake"@)
    } else if name == "make"@ || name == "mk"@ {
        Some("Makefile makefile GNUmakefile *.mk"@)
    } else if name == "docker"@ {
        Some("Dockerfile *.dockerfile"@)
    } else if name == "tex"@ {
        Some("*.tex *.sty *.cls *.bib"@)
    } else {
        None
    }
}

/// The globs of a ripgrep type name, space-separated.
pub fn type_globs(name: &str) -> (r: Option<&'static str>)
    ensures
        match type_globs_spec(name@) {
            Some(g) => r is Some && r.unwrap()@ == g,
            None => r is None,
        },
{
    if str_eq(name, "rust") {
        Some("*.rs")
    } else if str_eq(name, "py") || str_eq(name, "python") {
        Some("*.py *.pyi")
    } else if str_eq(name, "js") || str_eq(name, "javascript") {
        Some("*.js *.jsx *.mjs *.cjs")
    } else if str_eq(name, "ts") || str_eq(name, "typescript") {
        Some("*.ts *.tsx")
    } else if str_eq(name, "go") || str_eq(name, "golang") {
        Some("*.go")
    } else if str_eq(name, "java") {
        Some("*.java")
    } else if str_eq(name, "c") {
        Some("*.c *.h")
    } else if str_eq(name, "cpp") || str_eq(name, "cxx") {
        Some("*.cpp *.cc *.cxx *.hpp *.hh *.hxx *.h")
    } else if str_eq(name, "cs") || str_eq(name, "csharp") {
        Some("*.cs")
    } else if str_eq(name, "rb") || str_eq(name, "ruby") {
        Some("*.rb *.gemspec Rakefile")
    } else if str_eq(name, "php") {
        Some("*.php")
    } else if str_eq(name, "swift") {
        Some("*.swift")
    } else if str_eq(name, "kotlin") {
        Some("*.kt *.kts")
    } else if str_eq(name, "scala") {
        Some("*.scala *.sbt")
    } else if str_eq(name, "sh") || str_eq(name, "shell") {
        Some("*.sh *.bash *.zsh *.ksh")
    } else if str_eq(name, "md") || str_eq(name, "markdown") {
        Some("*.md *.markdown")
    } else if str_eq(name, "json") {
        Some("*.json")
    } else if str_eq(name, "yaml") {
        Some("*.yaml *.yml")
    } else if str_eq(name, "toml") {
        Some("*.toml")
    } else if str_eq(name, "html") {
        Some("*.html *.htm")
    } else if str_eq(name, "css") {
        Some("*.css")
    } else if str_eq(name, "sql") {
        Some("*.sql")
    } else if str_eq(name, "xml") {
        Some("*.xml")
    } else if str_eq(name, "txt") {
        Some("*.txt")
    } else if str_eq(name, "lua") {
        Some("*.lua")
    } else if str_eq(name, "haskell") || str_eq(name, "hs") {
        Some("*.hs")
    } else if str_eq(name, "elixir") || str_eq(name, "ex") {
        Some("*.ex *.exs")
    } else if str_eq(name, "erlang") {
        Some("*.erl *.hrl")
    } else if str_eq(name, "r") {
        Some("*.r *.R")
    } else if str_eq(name, "dart") {
        Some("*.dart")
    } else if str_eq(name, "zig") {
        Some("*.zig")
    } else if str_eq(name, "vue") {
        Some("*.vue")
    } else if str_eq(name, "svelte") {
        Some("*.svelte")
    } else if str_eq(name, "protobuf") || str_eq(name, "proto") {
        Some("*.proto")
    } else if str_eq(name, "cmake") {
        Some("CMakeLists.txt *.cmake")
    } else if str_eq(name, "make") || str_eq(name, "mk") {
        Some("Makefile makefile GNUmakefile *.mk")
    } else if str_eq(name, "docker") {
        Some("Dockerfile *.dockerfile")
    } else if str_eq(name, "tex") {
        Some("*.tex *.sty *.cls *.bib")
    } else {
        None
    }
}

/// What the walk over the arguments has collected so far.
pub struct TModel {
    pub flags: Seq<Seq<char>>,
    pub patterns: Seq<Seq<char>>,
    pub pattern_files: Seq<Seq<char>>,
    pub paths: Seq<Seq<char>>,
    pub fixed_strings: bool,
    pub pcre: bool,
    pub smart_case: bool,
    pub explicit_icase: bool,
    pub follow: bool,
}

/// Nothing collected yet.
pub open spec fn empty_model() -> TModel {
    TModel {
        flags: Seq::empty(),
        patterns: Seq::empty(),
        pattern_files: Seq::empty(),
        paths: Seq::empty(),
        fixed_strings: false,
        pcre: false,
        smart_case: false,
        explicit_icase: false,
        follow: false,
    }
}

/// `t` with more grep flags.
pub open spec fn add_flags(t: TModel, f: Seq<Seq<char>>) -> TModel {
    TModel { flags: t.flags + f, ..t }
}

/// A positional argument: the pattern while none was given yet, else a path.
pub open spec fn positional(t: TModel, tok: Seq<char>) -> TModel {
    if t.patterns.len() == 0 && t.pattern_files.len() == 0 && t.paths.len() == 0 {
        TModel { patterns: t.patterns.push(tok), ..t }
    } else {
        TModel { paths: t.paths.push(tok), ..t }
    }
}

/// The hint for path-shaped globs.
pub open spec fn hint_glob() -> Seq<char> {
    "grep --include/--exclude match basenames only; path-shaped globs need real ripgrep."@
}

/// The hint for unknown types.
pub open spec fn hint_type() -> Seq<char> {
    "Unknown type for the grep fallback; use --glob '*.EXT' or install ripgrep."@
}

/// The hint for `--replace`.
pub open spec fn hint_replace() -> Seq<char> {
    "grep never rewrites files; for guarded in-place rewrites use `greppy edit regex-cas`."@
}

/// A `--glob` value: `!body` excludes files and directories named `body`,
/// `body` includes files; globs with a `/` are refused.
pub open spec fn glob_spec(t: TModel, s: Seq<char>) -> Result<TModel, Seq<char>> {
    let neg = s.len() > 0 && s[0] == '!';
    let body = if neg {
        s.drop_first()
    } else {
        s
    };
    if body.contains('/') {
        Err(refuse_msg("--glob "@ + s, hint_glob()))
    } else if neg {
        Ok(add_flags(t, seq!["--exclude="@ + body, "--exclude-dir="@ + body]))
    } else {
        Ok(add_flags(t, seq!["--include="@ + body]))
    }
}

/// `--include=g` (or `--exclude=g`) for each glob of the list.
pub open spec fn glob_flags(globs: Seq<Seq<char>>, negated: bool) -> Seq<Seq<char>> {
    Seq::new(
        globs.len(),
        |k: int|
            if negated {
                "--exclude="@ + globs[k]
            } else {
                "--include="@ + globs[k]
            },
    )
}

/// A `--type` (or `--type-not`) value: the type's globs as includes (or
/// excludes); unknown types are refused.
pub open spec fn type_spec(t: TModel, name: Seq<char>, negated: bool) -> Result<TModel, Seq<char>> {
    match type_globs_spec(name) {
        None => Err(
            refuse_msg(
                "--type"@ + (if negated {
                    "-not"@
                } else {
                    ""@
                }) + " "@ + name,
                hint_type(),
            ),
        ),
        Some(g) => Ok(add_flags(t, glob_flags(crate::strutil::split_fields(g, ' '), negated))),
    }
}

fn push_str_vec(v: &mut Vec<String>, s: &str)
    ensures
        views(final(v)@) == views(old(v)@).push(s@),
{
    let ghost before = v@;
    v.push(String::from_str(s));
    assert(views(v@) =~= views(before).push(s@));
}

fn concat_str(a: &str, b: &str) -> (r: String)
    ensures
        r@ == a@ + b@,
{
    let mut m = String::from_str(a);
    m.append(b);
    m
}

/// The translation state of the walk.
pub struct Translation {
    pub flags: Vec<String>,
    pub patterns: Vec<String>,
    pub pattern_files: Vec<String>,
    pub paths: Vec<String>,
    pub fixed_strings: bool,
    pub pcre: bool,
    pub smart_case: bool,
    pub explicit_icase: bool,
    pub follow: bool,
}

impl Translation {
    /// What the state holds, as plain values.
    pub open spec fn model(&self) -> TModel {
        TModel {
            flags: views(self.flags@),
            patterns: views(self.patterns@),
            pattern_files: views(self.pattern_files@),
            paths: views(self.paths@),
            fixed_strings: self.fixed_strings,
            pcre: self.pcre,
            smart_case: self.smart_case,
            explicit_icase: self.explicit_icase,
            follow: self.follow,
        }
    }

    /// Nothing collected yet.
    pub fn new() -> (r: Translation)
        ensures
            r.model() == empty_model(),
    {
        let r = Translation {
            flags: Vec::new(),
            patterns: Vec::new(),
            pattern_files: Vec::new(),
            paths: Vec::new(),
            fixed_strings: false,
            pcre: false,
            smart_case: false,
            explicit_icase: false,
            follow: false,
        };
        assert(r.model().flags =~= Seq::<Seq<char>>::empty());
        assert(r.model().patterns =~= Seq::<Seq<char>>::empty());
        assert(r.model().pattern_files =~= Seq::<Seq<char>>::empty());
        assert(r.model().paths =~= Seq::<Seq<char>>::empty());
        r
    }

    fn add_flag(&mut self, f: &str)
        ensures
            final(self).model() == add_flags(old(self).model(), seq![f@]),
    {
        push_str_vec(&mut self.flags, f);
        assert(self.model().flags =~= add_flags(old(self).model(), seq![f@]).flags);
    }

    fn add_positional(&mut self, tok: &str)
        ensures
            final(self).model() == positional(old(self).model(), tok@),
    {
        if self.patterns.len() == 0 && self.pattern_files.len() == 0 && self.paths.len() == 0 {
            push_str_vec(&mut self.patterns, tok);
        } else {
            push_str_vec(&mut self.paths, tok);
        }
    }

    /// Applies a `--glob` value.
    fn glob(&mut self, val: &str) -> (r: Result<(), String>)
        ensures
            match glob_spec(old(self).model(), val@) {
                Ok(t) => r is Ok && final(self).model() == t,
                Err(m) => r is Err && r->Err_0@ == m,
            },
    {
        let (negated, body) = match split_once(val, '!') {
            Some((before, rest)) if before.unicode_len() == 0 => (true, rest),
            _ => (false, val),
        };
        proof {
            if val@.len() > 0 && val@[0] == '!' {
                crate::text::lemma_first_index_unique(val@, '!', 0);
                assert(val@.skip(1) =~= val@.drop_first());
            } else if first_index(val@, '!') >= 0 {
                let k = first_index(val@, '!');
                assert(crate::text::is_first_index(val@, '!', k)) by {
                    assert(exists|i: int| crate::text::is_first_index(val@, '!', i));
                }
                assert(k != 0);
            }
        }
        if crate::strutil::contains(body, "/") {
            proof {
                reveal_strlit("/");
                let i = choose|i: int| occurs_at(body@, "/"@, i);
                assert(body@[i] == "/"@[0]);
            }
            let flag = concat_str("--glob ", val);
            return Err(refuse(flag.as_str(), "grep --include/--exclude match basenames only; path-shaped globs need real ripgrep."));
        }
        proof {
            reveal_strlit("/");
            if body@.contains('/') {
                let i = choose|i: int| 0 <= i < body@.len() && body@[i] == '/';
                assert(body@.subrange(i, i + 1) =~= "/"@);
                assert(occurs_at(body@, "/"@, i));
            }
        }
        if negated {
            let a = concat_str("--exclude=", body);
            let b = concat_str("--exclude-dir=", body);
            self.add_flag(a.as_str());
            self.add_flag(b.as_str());
            assert(self.model().flags =~= add_flags(
                old(self).model(),
                seq!["--exclude="@ + body@, "--exclude-dir="@ + body@],
            ).flags);
        } else {
            let a = concat_str("--include=", body);
            self.add_flag(a.as_str());
        }
        Ok(())
    }

    /// Applies a `--type` or `--type-not` value.
    #[verifier::rlimit(40)]
    fn type_selector(&mut self, name: &str, negated: bool) -> (r: Result<(), String>)
        ensures
            match type_spec(old(self).model(), name@, negated) {
                Ok(t) => r is Ok && final(self).model() == t,
                Err(m) => r is Err && r->Err_0@ == m,
            },
    {
        let globs = match type_globs(name) {
            Some(g) => g,
            None => {
                let mut flag = String::from_str("--type");
                if negated {
                    flag.append("-not");
                }
                flag.append(" ");
                flag.append(name);
                proof {
                    reveal_strlit("");
                    assert(flag@ =~= "--type"@ + (if negated {
                        "-not"@
                    } else {
                        ""@
                    }) + " "@ + name@);
                }
                return Err(refuse(flag.as_str(), "Unknown type for the grep fallback; use --glob '*.EXT' or install ripgrep."));
            },
        };
        let parts = crate::strutil::split(globs, ' ');
        let ghost gs = parts@.map_values(|x: &str| x@);
        let ghost t0 = self.model();
        let mut k: usize = 0;
        while k < parts.len()
            invariant
                gs == parts@.map_values(|x: &str| x@),
                k <= parts@.len(),
                self.model() == add_flags(t0, glob_flags(gs.take(k as int), negated)),
            decreases parts.len() - k,
        {
            let f = if negated {
                concat_str("--exclude=", parts[k])
            } else {
                concat_str("--include=", parts[k])
            };
            let ghost before = self.model();
            self.add_flag(f.as_str());
            assert(glob_flags(gs.take(k + 1), negated) =~= glob_flags(gs.take(k as int), negated).push(f@));
            assert(self.model().flags =~= add_flags(t0, glob_flags(gs.take(k + 1), negated)).flags);
            k = k + 1;
        }
        assert(gs.take(parts@.len() as int) =~= gs);
        Ok(())
    }
}

/// What a long flag does in the translation.
#[derive(Clone, Copy, PartialEq, Eq, Structural)]
pub enum LongFlag {
    IgnoreCase,
    FixedStrings,
    Pcre2,
    SmartCase,
    Follow,
    /// Maps to the grep flag with this index in `grep_flag`.
    Push(u8),
    MaxCount,
    /// Context flag: 0 after, 1 before, 2 both.
    Context(u8),
    Color,
    Regexp,
    File,
    Glob,
    Type,
    TypeNot,
    Drop,
    DropValue,
    Engine,
    RefuseFiles,
    RefuseReplace,
    RefuseFormat,
    RefuseInstall,
}

/// The grep flag that a directly mappable long flag becomes.
pub open spec fn grep_flag(k: u8) -> Seq<char> {
    if k == 0 {
        "-v"@
    } else if k == 1 {
        "-w"@
    } else if k == 2 {
        "-x"@
    } else if k == 3 {
        "-c"@
    } else if k == 4 {
        "-l"@
    } else if k == 5 {
        "-L"@
    } else if k == 6 {
        "-o"@
    } else if k == 7 {
        "-q"@
    } else if k == 8 {
        "-n"@
    } else if k == 9 {
        "-H"@
    } else if k == 10 {
        "-h"@
    } else if k == 11 {
        "-a"@
    } else if k == 12 {
        "--null"@
    } else if k == 13 {
        "-b"@
    } else if k == 14 {
        "--line-buffered"@
    } else {
        "-s"@
    }
}

fn grep_flag_str(k: u8) -> (r: &'static str)
    ensures
        r@ == grep_flag(k),
{
    if k == 0 {
        "-v"
    } else if k == 1 {
        "-w"
    } else if k == 2 {
        "-x"
    } else if k == 3 {
        "-c"
    } else if k == 4 {
        "-l"
    } else if k == 5 {
        "-L"
    } else if k == 6 {
        "-o"
    } else if k == 7 {
        "-q"
    } else if k == 8 {
        "-n"
    } else if k == 9 {
        "-H"
    } else if k == 10 {
        "-h"
    } else if k == 11 {
        "-a"
    } else if k == 12 {
        "--null"
    } else if k == 13 {
        "-b"
    } else if k == 14 {
        "--line-buffered"
    } else {
        "-s"
    }
}

/// The grep context flag for a context kind.
pub open spec fn context_flag(k: u8) -> Seq<char> {
    if k == 0 {
        "-A"@
    } else if k == 1 {
        "-B"@
    } else {
        "-C"@
    }
}

/// How a long flag (without any `=value`) translates.
pub open spec fn long_kind_spec(n: Seq<char>) -> LongFlag {
    if n == "--ignore-case"@ {
        LongFlag::IgnoreCase
    } else if n == "--invert-match"@ {
        LongFlag::Push(0)
    } else if n == "--word-regexp"@ {
        LongFlag::Push(1)
    } else if n == "--line-regexp"@ {
        LongFlag::Push(2)
    } else if n == "--count"@ {
        LongFlag::Push(3)
    } else if n == "--files-with-matches"@ {
        LongFlag::Push(4)
    } else if n == "--files-without-match"@ {
        LongFlag::Push(5)
    } else if n == "--only-matching"@ {
        LongFlag::Push(6)
    } else if n == "--quiet"@ {
        LongFlag::Push(7)
    } else if n == "--line-number"@ {
        LongFlag::Push(8)
    } else if n == "--with-filename"@ {
        LongFlag::Push(9)
    } else if n == "--no-filename"@ {
        LongFlag::Push(10)
    } else if n == "--text"@ {
        LongFlag::Push(11)
    } else if n == "--null"@ {
        LongFlag::Push(12)
    } else if n == "--byte-offset"@ {
        LongFlag::Push(13)
    } else if n == "--line-buffered"@ {
        LongFlag::Push(14)
    } else if n == "--no-messages"@ {
        LongFlag::Push(15)
    } else if n == "--fixed-strings"@ {
        LongFlag::FixedStrings
    } else if n == "--pcre2"@ {
        LongFlag::Pcre2
    } else if n == "--smart-case"@ {
        LongFlag::SmartCase
    } else if n == "--follow"@ {
        LongFlag::Follow
    } else if n == "--max-count"@ {
        LongFlag::MaxCount
    } else if n == "--after-context"@ {
        LongFlag::Context(0)
    } else if n == "--before-context"@ {
        LongFlag::Context(1)
    } else if n == "--context"@ {
        LongFlag::Context(2)
    } else if n == "--color"@ {
        LongFlag::Color
    } else if n == "--regexp"@ {
        LongFlag::Regexp
    } else if n == "--file"@ {
        LongFlag::File
    } else if n == "--glob"@ || n == "--iglob"@ {
        LongFlag::Glob
    } else if n == "--type"@ {
        LongFlag::Type
    } else if n == "--type-not"@ {
        LongFlag::TypeNot
    } else if dropped_flags().contains(n) {
        LongFlag::Drop
    } else if dropped_value_flags().contains(n) {
        LongFlag::DropValue
    } else if n == "--engine"@ {
        LongFlag::Engine
    } else if n == "--files"@ {
        LongFlag::RefuseFiles
    } else if n == "--replace"@ {
        LongFlag::RefuseReplace
    } else if n == "--json"@ || n == "--vimgrep"@ || n == "--column"@ {
        LongFlag::RefuseFormat
    } else {
        LongFlag::RefuseInstall
    }
}

/// Flags with no grep concept whose dropping only widens the search or
/// changes cosmetics.
pub open spec fn dropped_flags() -> Seq<Seq<char>> {
    seq![
        "--case-sensitive"@, "--no-line-number"@, "--heading"@, "--no-heading"@, "--hidden"@,
        "--no-ignore"@, "--no-ignore-vcs"@, "--no-ignore-parent"@, "--no-ignore-dot"@,
        "--no-ignore-global"@, "--no-ignore-files"@, "--no-config"@, "--no-require-git"@,
        "--crlf"@, "--trim"@, "--stats"@, "--binary"@, "--no-mmap"@, "--mmap"@, "--pretty"@,
        "--one-file-system"@, "--block-buffered"@, "--no-unicode"@, "--unicode"@,
    ]
}

/// Cosmetic or performance flags whose value is consumed and dropped.
pub open spec fn dropped_value_flags() -> Seq<Seq<char>> {
    seq![
        "--colors"@, "--sort"@, "--sortr"@, "--threads"@, "--max-columns"@, "--max-filesize"@,
        "--regex-size-limit"@, "--dfa-size-limit"@, "--ignore-file"@, "--context-separator"@,
        "--field-context-separator"@, "--field-match-separator"@, "--hyperlink-format"@,
    ]
}

fn dropped_list() -> (r: Vec<&'static str>)
    ensures
        Seq::new(r@.len(), |i: int| r@[i]@) == dropped_flags(),
{
    let v = vec![
        "--case-sensitive", "--no-line-number", "--heading", "--no-heading", "--hidden",
        "--no-ignore", "--no-ignore-vcs", "--no-ignore-parent", "--no-ignore-dot",
        "--no-ignore-global", "--no-ignore-files", "--no-config", "--no-require-git",
        "--crlf", "--trim", "--stats", "--binary", "--no-mmap", "--mmap", "--pretty",
        "--one-file-system", "--block-buffered", "--no-unicode", "--unicode",
    ];
    assert(Seq::new(v@.len(), |i: int| v@[i]@) =~= dropped_flags());
    v
}

fn dropped_value_list() -> (r: Vec<&'static str>)
    ensures
        Seq::new(r@.len(), |i: int| r@[i]@) == dropped_value_flags(),
{
    let v = vec![
        "--colors", "--sort", "--sortr", "--threads", "--max-columns", "--max-filesize",
        "--regex-size-limit", "--dfa-size-limit", "--ignore-file", "--context-separator",
        "--field-context-separator", "--field-match-separator", "--hyperlink-format",
    ];
    assert(Seq::new(v@.len(), |i: int| v@[i]@) =~= dropped_value_flags());
    v
}

/// How a long flag translates.
pub fn long_kind(n: &str) -> (r: LongFlag)
    ensures
        r == long_kind_spec(n@),
{
    if str_eq(n, "--ignore-case") {
        LongFlag::IgnoreCase
    } else if str_eq(n, "--invert-match") {
        LongFlag::Push(0)
    } else if str_eq(n, "--word-regexp") {
        LongFlag::Push(1)
    } else if str_eq(n, "--line-regexp") {
        LongFlag::Push(2)
    } else if str_eq(n, "--count") {
        LongFlag::Push(3)
    } else if str_eq(n, "--files-with-matches") {
        LongFlag::Push(4)
    } else if str_eq(n, "--files-without-match") {
        LongFlag::Push(5)
    } else if str_eq(n, "--only-matching") {
        LongFlag::Push(6)
    } else if str_eq(n, "--quiet") {
        LongFlag::Push(7)
    } else if str_eq(n, "--line-number") {
        LongFlag::Push(8)
    } else if str_eq(n, "--with-filename") {
        LongFlag::Push(9)
    } else if str_eq(n, "--no-filename") {
        LongFlag::Push(10)
    } else if str_eq(n, "--text") {
        LongFlag::Push(11)
    } else if str_eq(n, "--null") {
        LongFlag::Push(12)
    } else if str_eq(n, "--byte-offset") {
        LongFlag::Push(13)
    } else if str_eq(n, "--line-buffered") {
        LongFlag::Push(14)
    } else if str_eq(n, "--no-messages") {
        LongFlag::Push(15)
    } else if str_eq(n, "--fixed-strings") {
        LongFlag::FixedStrings
    } else if str_eq(n, "--pcre2") {
        LongFlag::Pcre2
    } else if str_eq(n, "--smart-case") {
        LongFlag::SmartCase
    } else if str_eq(n, "--follow") {
        LongFlag::Follow
    } else if str_eq(n, "--max-count") {
        LongFlag::MaxCount
    } else if str_eq(n, "--after-context") {
        LongFlag::Context(0)
    } else if str_eq(n, "--before-context") {
        LongFlag::Context(1)
    } else if str_eq(n, "--context") {
        LongFlag::Context(2)
    } else if str_eq(n, "--color") {
        LongFlag::Color
    } else if str_eq(n, "--regexp") {
        LongFlag::Regexp
    } else if str_eq(n, "--file") {
        LongFlag::File
    } else if str_eq(n, "--glob") || str_eq(n, "--iglob") {
        LongFlag::Glob
    } else if str_eq(n, "--type") {
        LongFlag::Type
    } else if str_eq(n, "--type-not") {
        LongFlag::TypeNot
    } else if in_list(n, &dropped_list()) {
        LongFlag::Drop
    } else if in_list(n, &dropped_value_list()) {
        LongFlag::DropValue
    } else if str_eq(n, "--engine") {
        LongFlag::Engine
    } else if str_eq(n, "--files") {
        LongFlag::RefuseFiles
    } else if str_eq(n, "--replace") {
        LongFlag::RefuseReplace
    } else if str_eq(n, "--json") || str_eq(n, "--vimgrep") || str_eq(n, "--column") {
        LongFlag::RefuseFormat
    } else {
        LongFlag::RefuseInstall
    }
}

/// The value of a flag taken from the next argument.
pub open spec fn next_value_spec(args: Seq<Seq<char>>, i: int, flag: Seq<char>) -> Result<(Seq<char>, int), Seq<char>> {
    if 0 <= i && i + 1 < args.len() {
        Ok((args[i + 1], i + 1))
    } else {
        Err(missing_value_msg(flag))
    }
}

/// A long flag at argument `i`, with its attached `=value` if any: the new
/// state and the index of the last argument it consumed.
pub open spec fn long_step_spec(args: Seq<Seq<char>>, i: int, t: TModel, name: Seq<char>, attached: Option<Seq<char>>) -> Result<(TModel, int), Seq<char>> {
    let v = match attached {
        Some(a) => Ok((a, i)),
        None => next_value_spec(args, i, name),
    };
    match long_kind_spec(name) {
        LongFlag::IgnoreCase => Ok((TModel { explicit_icase: true, ..t }, i)),
        LongFlag::FixedStrings => Ok((TModel { fixed_strings: true, ..t }, i)),
        LongFlag::Pcre2 => Ok((TModel { pcre: true, ..t }, i)),
        LongFlag::SmartCase => Ok((TModel { smart_case: true, ..t }, i)),
        LongFlag::Follow => Ok((TModel { follow: true, ..t }, i)),
        LongFlag::Push(k) => Ok((add_flags(t, seq![grep_flag(k)]), i)),
        LongFlag::Drop => Ok((t, i)),
        LongFlag::RefuseFiles => Err(
            refuse_msg("--files"@, "List files with `find PATH -type f`, or install ripgrep."@),
        ),
        LongFlag::RefuseReplace => Err(refuse_msg("--replace"@, hint_replace())),
        LongFlag::RefuseFormat => Err(refuse_msg(name, "This output format needs real ripgrep."@)),
        LongFlag::RefuseInstall => Err(refuse_msg(name, hint_install())),
        _ => match v {
            Err(m) => Err(m),
            Ok((val, j)) => match long_kind_spec(name) {
                LongFlag::MaxCount => Ok((add_flags(t, seq!["-m"@, val]), j)),
                LongFlag::Context(k) => Ok((add_flags(t, seq![context_flag(k), val]), j)),
                LongFlag::Color => Ok((add_flags(t, seq!["--color="@ + val]), j)),
                LongFlag::Regexp => Ok((TModel { patterns: t.patterns.push(val), ..t }, j)),
                LongFlag::File => Ok((TModel { pattern_files: t.pattern_files.push(val), ..t }, j)),
                LongFlag::Glob => match glob_spec(t, val) {
                    Err(m) => Err(m),
                    Ok(t2) => Ok((t2, j)),
                },
                LongFlag::Type => match type_spec(t, val, false) {
                    Err(m) => Err(m),
                    Ok(t2) => Ok((t2, j)),
                },
                LongFlag::TypeNot => match type_spec(t, val, true) {
                    Err(m) => Err(m),
                    Ok(t2) => Ok((t2, j)),
                },
                LongFlag::Engine => Ok((if val == "pcre2"@ {
                    TModel { pcre: true, ..t }
                } else {
                    t
                }, j)),
                _ => Ok((t, j)),
            },
        },
    }
}

/// Short flags that take a value (attached or the next argument).
pub open spec fn takes_value(c: char) -> bool {
    c == 'e' || c == 'f' || c == 'g' || c == 't' || c == 'T' || c == 'A' || c == 'B' || c == 'C'
        || c == 'm' || c == 'M' || c == 'j' || c == 'r' || c == 'E'
}

/// The short flag `-c` spelled out.
pub open spec fn dash(c: char) -> Seq<char> {
    seq!['-', c]
}

/// A value-taking short flag `c` with value `val`.
pub open spec fn short_value_spec(t: TModel, c: char, val: Seq<char>) -> Result<TModel, Seq<char>> {
    if c == 'e' {
        Ok(TModel { patterns: t.patterns.push(val), ..t })
    } else if c == 'f' {
        Ok(TModel { pattern_files: t.pattern_files.push(val), ..t })
    } else if c == 'g' {
        glob_spec(t, val)
    } else if c == 't' {
        type_spec(t, val, false)
    } else if c == 'T' {
        type_spec(t, val, true)
    } else if c == 'A' || c == 'B' || c == 'C' || c == 'm' {
        Ok(add_flags(t, seq![dash(c), val]))
    } else if c == 'r' {
        Err(refuse_msg("-r (--replace)"@, hint_replace()))
    } else if c == 'E' {
        Err(refuse_msg("-E (--encoding)"@, hint_install()))
    } else {
        Ok(t)
    }
}

/// A short flag `c` that takes no value.
pub open spec fn short_flag_spec(t: TModel, c: char) -> Result<TModel, Seq<char>> {
    if c == 'i' {
        Ok(TModel { explicit_icase: true, ..t })
    } else if c == 'v' || c == 'w' || c == 'x' || c == 'c' || c == 'l' || c == 'o' || c == 'q'
        || c == 'n' || c == 'H' || c == 'a' {
        Ok(add_flags(t, seq![dash(c)]))
    } else if c == 'I' {
        Ok(add_flags(t, seq!["-h"@]))
    } else if c == 'F' {
        Ok(TModel { fixed_strings: true, ..t })
    } else if c == 'P' {
        Ok(TModel { pcre: true, ..t })
    } else if c == 'S' {
        Ok(TModel { smart_case: true, ..t })
    } else if c == 'L' {
        Ok(TModel { follow: true, ..t })
    } else if c == '0' {
        Ok(add_flags(t, seq!["--null"@]))
    } else if c == 'N' || c == 's' || c == 'u' || c == 'p' {
        Ok(t)
    } else if c == 'U' {
        Err(refuse_msg("-U (--multiline)"@, hint_install()))
    } else if c == 'z' {
        Err(refuse_msg("-z (--search-zip)"@, hint_install()))
    } else {
        Err(refuse_msg(dash(c), hint_install()))
    }
}

/// The short-flag cluster `cl` of argument `i`, from its `ci`-th flag on:
/// a value-taking flag consumes the rest of the cluster, or the next
/// argument when nothing follows it.
pub open spec fn cluster_spec(args: Seq<Seq<char>>, i: int, t: TModel, cl: Seq<char>, ci: int) -> Result<(TModel, int), Seq<char>>
    decreases cl.len() - ci,
{
    if ci < 0 || ci >= cl.len() {
        Ok((t, i))
    } else if takes_value(cl[ci]) {
        let v = if ci + 1 < cl.len() {
            Ok((cl.subrange(ci + 1, cl.len() as int), i))
        } else {
            next_value_spec(args, i, dash(cl[ci]))
        };
        match v {
            Err(m) => Err(m),
            Ok((val, j)) => match short_value_spec(t, cl[ci], val) {
                Err(m) => Err(m),
                Ok(t2) => Ok((t2, j)),
            },
        }
    } else {
        match short_flag_spec(t, cl[ci]) {
            Err(m) => Err(m),
            Ok(t2) => cluster_spec(args, i, t2, cl, ci + 1),
        }
    }
}

/// One step of the walk at argument `i`: the new state, the next index and
/// whether only positionals follow.
pub open spec fn step_spec(args: Seq<Seq<char>>, i: int, t: TModel, po: bool) -> Result<(TModel, int, bool), Seq<char>> {
    let tok = args[i];
    if po {
        Ok((positional(t, tok), i + 1, true))
    } else if tok == "--"@ {
        Ok((t, i + 1, true))
    } else if occurs_at(tok, "--"@, 0) {
        let k = first_index(tok, '=');
        let name = if k >= 0 {
            tok.take(k)
        } else {
            tok
        };
        let attached = if k >= 0 {
            Some(tok.skip(k + 1))
        } else {
            None
        };
        match long_step_spec(args, i, t, name, attached) {
            Err(m) => Err(m),
            Ok((t2, j)) => Ok((t2, j + 1, false)),
        }
    } else if tok.len() > 1 && tok[0] == '-' {
        match cluster_spec(args, i, t, tok.drop_first(), 0) {
            Err(m) => Err(m),
            Ok((t2, j)) => Ok((t2, j + 1, false)),
        }
    } else {
        Ok((positional(t, tok), i + 1, false))
    }
}

/// A short-flag cluster consumes its own argument and at most the next.
pub proof fn lemma_cluster_advances(args: Seq<Seq<char>>, i: int, t: TModel, cl: Seq<char>, ci: int)
    requires
        0 <= i < args.len(),
    ensures
        cluster_spec(args, i, t, cl, ci) is Ok ==> i <= cluster_spec(args, i, t, cl, ci)->Ok_0.1 < args.len(),
    decreases cl.len() - ci,
{
    if 0 <= ci < cl.len() && !takes_value(cl[ci]) {
        match short_flag_spec(t, cl[ci]) {
            Err(_) => {},
            Ok(t2) => lemma_cluster_advances(args, i, t2, cl, ci + 1),
        }
    }
}

/// Every step of the walk moves past at least one argument.
pub proof fn lemma_step_advances(args: Seq<Seq<char>>, i: int, t: TModel, po: bool)
    requires
        0 <= i < args.len(),
    ensures
        step_spec(args, i, t, po) is Ok ==> i < step_spec(args, i, t, po)->Ok_0.1 <= args.len(),
{
    let tok = args[i];
    if !po && tok != "--"@ && !occurs_at(tok, "--"@, 0) && tok.len() > 1 && tok[0] == '-' {
        lemma_cluster_advances(args, i, t, tok.drop_first(), 0);
    }
}

/// The walk from argument `i` to the end.
pub open spec fn run_spec(args: Seq<Seq<char>>, i: int, t: TModel, po: bool) -> Result<TModel, Seq<char>>
    decreases args.len() - i,
{
    if i < 0 || i >= args.len() {
        Ok(t)
    } else {
        match step_spec(args, i, t, po) {
            Err(m) => Err(m),
            Ok((t2, j, po2)) => {
                proof {
                    lemma_step_advances(args, i, t, po);
                }
                run_spec(args, j, t2, po2)
            },
        }
    }
}

/// Whether some pattern holds an uppercase letter.
pub open spec fn any_upper(ps: Seq<Seq<char>>) -> bool {
    exists|k: int, j: int| 0 <= k < ps.len() && 0 <= j < ps[k].len() && upper_char(#[trigger] ps[k][j])
}

/// `flag, item` for each item.
pub open spec fn with_flag(flag: Seq<char>, items: Seq<Seq<char>>) -> Seq<Seq<char>>
    decreases items.len(),
{
    if items.len() == 0 {
        Seq::empty()
    } else {
        with_flag(flag, items.drop_last()) + seq![flag, items.last()]
    }
}

/// The grep engine flag: PCRE, fixed strings, or ripgrep's default dialect's
/// closest match, extended regular expressions.
pub open spec fn engine_flag(t: TModel) -> Seq<char> {
    if t.pcre {
        "-P"@
    } else if t.fixed_strings {
        "-F"@
    } else {
        "-E"@
    }
}

/// Case-insensitive search: asked for, or smart case with inspectable
/// patterns none of which holds an uppercase letter.
pub open spec fn insensitive(t: TModel) -> bool {
    t.explicit_icase || (t.smart_case && t.pattern_files.len() == 0 && !any_upper(t.patterns))
}

/// Engine, case handling, collected flags, `-e` patterns, `-f` files.
pub open spec fn head_spec(t: TModel) -> Seq<Seq<char>> {
    seq![engine_flag(t)] + (if insensitive(t) {
        seq!["-i"@]
    } else {
        Seq::empty()
    }) + t.flags + with_flag("-e"@, t.patterns) + with_flag("-f"@, t.pattern_files)
}

/// Recursion and paths (the current directory by default), unless stdin
/// is searched.
pub open spec fn tail_spec(t: TModel, stdin_piped: bool) -> Seq<Seq<char>> {
    if t.paths.len() == 0 && stdin_piped {
        Seq::empty()
    } else {
        seq![if t.follow {
            "-R"@
        } else {
            "-r"@
        }, "--"@] + (if t.paths.len() == 0 {
            seq!["."@]
        } else {
            t.paths
        })
    }
}

/// The grep argument list for a finished walk.
pub open spec fn finish_spec(t: TModel, stdin_piped: bool) -> Result<Seq<Seq<char>>, Seq<char>> {
    if t.patterns.len() == 0 && t.pattern_files.len() == 0 {
        Err(no_pattern_msg())
    } else {
        Ok(head_spec(t) + tail_spec(t, stdin_piped))
    }
}

/// The translation of a ripgrep-style argument list.
pub open spec fn translate_spec(args: Seq<Seq<char>>, stdin_piped: bool) -> Result<Seq<Seq<char>>, Seq<char>> {
    match run_spec(args, 0, empty_model(), false) {
        Err(m) => Err(m),
        Ok(t) => finish_spec(t, stdin_piped),
    }
}

fn missing_value(flag: &str) -> (r: String)
    ensures
        r@ == missing_value_msg(flag@),
{
    let mut m = String::from_str("greppy: ripgrep flag '");
    m.append(flag);
    m.append("' is missing its value");
    m
}

fn next_value(args: &[String], i: usize, flag: &str) -> (r: Result<(String, usize), String>)
    ensures
        match next_value_spec(views(args@), i as int, flag@) {
            Ok((v, j)) => r is Ok && r->Ok_0.0@ == v && r->Ok_0.1 == j,
            Err(m) => r is Err && r->Err_0@ == m,
        },
{
    if i < args.len() && i + 1 < args.len() {
        Ok((args[i + 1].clone(), i + 1))
    } else {
        Err(missing_value(flag))
    }
}

fn long_step(args: &[String], i: usize, t: &mut Translation, name: &str, attached: Option<&str>) -> (r: Result<usize, String>)
    requires
        i < args@.len(),
    ensures
        match long_step_spec(
            views(args@),
            i as int,
            old(t).model(),
            name@,
            match attached {
                Some(a) => Some(a@),
                None => None,
            },
        ) {
            Ok((t2, j)) => r == Ok::<usize, String>(j as usize) && final(t).model() == t2,
            Err(m) => r is Err && r->Err_0@ == m,
        },
{
    let kind = long_kind(name);
    match kind {
        LongFlag::IgnoreCase => {
            t.explicit_icase = true;
            return Ok(i);
        },
        LongFlag::FixedStrings => {
            t.fixed_strings = true;
            return Ok(i);
        },
        LongFlag::Pcre2 => {
            t.pcre = true;
            return Ok(i);
        },
        LongFlag::SmartCase => {
            t.smart_case = true;
            return Ok(i);
        },
        LongFlag::Follow => {
            t.follow = true;
            return Ok(i);
        },
        LongFlag::Push(k) => {
            t.add_flag(grep_flag_str(k));
            return Ok(i);
        },
        LongFlag::Drop => {
            return Ok(i);
        },
        LongFlag::RefuseFiles => {
            return Err(refuse("--files", "List files with `find PATH -type f`, or install ripgrep."));
        },
        LongFlag::RefuseReplace => {
            return Err(refuse("--replace", "grep never rewrites files; for guarded in-place rewrites use `greppy edit regex-cas`."));
        },
        LongFlag::RefuseFormat => {
            return Err(refuse(name, "This output format needs real ripgrep."));
        },
        LongFlag::RefuseInstall => {
            return Err(refuse(name, "Install ripgrep, or restate the search with plain grep flags."));
        },
        _ => {},
    }
    let (val, j) = match attached {
        Some(a) => (String::from_str(a), i),
        None => match next_value(args, i, name) {
            Ok(p) => p,
            Err(m) => return Err(m),
        },
    };
    match kind {
        LongFlag::MaxCount => {
            let ghost t0 = t.model();
            t.add_flag("-m");
            t.add_flag(val.as_str());
            assert(t.model().flags =~= add_flags(t0, seq!["-m"@, val@]).flags);
        },
        LongFlag::Context(k) => {
            let ghost t0 = t.model();
            let f = if k == 0 {
                "-A"
            } else if k == 1 {
                "-B"
            } else {
                "-C"
            };
            t.add_flag(f);
            t.add_flag(val.as_str());
            assert(t.model().flags =~= add_flags(t0, seq![context_flag(k), val@]).flags);
        },
        LongFlag::Color => {
            let f = concat_str("--color=", val.as_str());
            t.add_flag(f.as_str());
        },
        LongFlag::Regexp => {
            push_str_vec(&mut t.patterns, val.as_str());
        },
        LongFlag::File => {
            push_str_vec(&mut t.pattern_files, val.as_str());
        },
        LongFlag::Glob => {
            match t.glob(val.as_str()) {
                Ok(()) => {},
                Err(m) => return Err(m),
            }
        },
        LongFlag::Type => {
            match t.type_selector(val.as_str(), false) {
                Ok(()) => {},
                Err(m) => return Err(m),
            }
        },
        LongFlag::TypeNot => {
            match t.type_selector(val.as_str(), true) {
                Ok(()) => {},
                Err(m) => return Err(m),
            }
        },
        LongFlag::Engine => {
            if str_eq(val.as_str(), "pcre2") {
                t.pcre = true;
            }
        },
        _ => {},
    }
    Ok(j)
}

fn is_value_flag(c: char) -> (r: bool)
    ensures
        r == takes_value(c),
{
    c == 'e' || c == 'f' || c == 'g' || c == 't' || c == 'T' || c == 'A' || c == 'B' || c == 'C'
        || c == 'm' || c == 'M' || c == 'j' || c == 'r' || c == 'E'
}

fn dash_str(c: char) -> (r: String)
    ensures
        r@ == dash(c),
{
    let mut s = String::new();
    push_char(&mut s, '-');
    push_char(&mut s, c);
    proof {
        assert(s@ =~= dash(c));
    }
    s
}

fn short_value(t: &mut Translation, c: char, val: &str) -> (r: Result<(), String>)
    ensures
        match short_value_spec(old(t).model(), c, val@) {
            Ok(t2) => r is Ok && final(t).model() == t2,
            Err(m) => r is Err && r->Err_0@ == m,
        },
{
    if c == 'e' {
        push_str_vec(&mut t.patterns, val);
        Ok(())
    } else if c == 'f' {
        push_str_vec(&mut t.pattern_files, val);
        Ok(())
    } else if c == 'g' {
        t.glob(val)
    } else if c == 't' {
        t.type_selector(val, false)
    } else if c == 'T' {
        t.type_selector(val, true)
    } else if c == 'A' || c == 'B' || c == 'C' || c == 'm' {
        let ghost t0 = t.model();
        let f = dash_str(c);
        t.add_flag(f.as_str());
        t.add_flag(val);
        assert(t.model().flags =~= add_flags(t0, seq![dash(c), val@]).flags);
        Ok(())
    } else if c == 'r' {
        Err(refuse("-r (--replace)", "grep never rewrites files; for guarded in-place rewrites use `greppy edit regex-cas`."))
    } else if c == 'E' {
        Err(refuse("-E (--encoding)", "Install ripgrep, or restate the search with plain grep flags."))
    } else {
        Ok(())
    }
}

fn short_flag(t: &mut Translation, c: char) -> (r: Result<(), String>)
    ensures
        match short_flag_spec(old(t).model(), c) {
            Ok(t2) => r is Ok && final(t).model() == t2,
            Err(m) => r is Err && r->Err_0@ == m,
        },
{
    if c == 'i' {
        t.explicit_icase = true;
        Ok(())
    } else if c == 'v' || c == 'w' || c == 'x' || c == 'c' || c == 'l' || c == 'o' || c == 'q'
        || c == 'n' || c == 'H' || c == 'a' {
        let f = dash_str(c);
        t.add_flag(f.as_str());
        Ok(())
    } else if c == 'I' {
        t.add_flag("-h");
        Ok(())
    } else if c == 'F' {
        t.fixed_strings = true;
        Ok(())
    } else if c == 'P' {
        t.pcre = true;
        Ok(())
    } else if c == 'S' {
        t.smart_case = true;
        Ok(())
    } else if c == 'L' {
        t.follow = true;
        Ok(())
    } else if c == '0' {
        t.add_flag("--null");
        Ok(())
    } else if c == 'N' || c == 's' || c == 'u' || c == 'p' {
        Ok(())
    } else if c == 'U' {
        Err(refuse("-U (--multiline)", "Install ripgrep, or restate the search with plain grep flags."))
    } else if c == 'z' {
        Err(refuse("-z (--search-zip)", "Install ripgrep, or restate the search with plain grep flags."))
    } else {
        let f = dash_str(c);
        Err(refuse(f.as_str(), "Install ripgrep, or restate the search with plain grep flags."))
    }
}

fn cluster(args: &[String], i: usize, t: &mut Translation, cl: &Vec<char>) -> (r: Result<usize, String>)
    requires
        i < args@.len(),
    ensures
        match cluster_spec(views(args@), i as int, old(t).model(), cl@, 0) {
            Ok((t2, j)) => r == Ok::<usize, String>(j as usize) && final(t).model() == t2,
            Err(m) => r is Err && r->Err_0@ == m,
        },
{
    let ghost a = views(args@);
    let ghost whole = cluster_spec(a, i as int, old(t).model(), cl@, 0);
    let mut ci: usize = 0;
    while ci < cl.len()
        invariant
            a == views(args@),
            i < args@.len(),
            ci <= cl@.len(),
            whole == cluster_spec(a, i as int, old(t).model(), cl@, 0),
            whole == cluster_spec(a, i as int, t.model(), cl@, ci as int),
        decreases cl.len() - ci,
    {
        let c = cl[ci];
        if is_value_flag(c) {
            let (val, j) = if ci + 1 < cl.len() {
                let rest = crate::text::string_from_chars(slice_chars(cl, ci + 1));
                (rest, i)
            } else {
                let f = dash_str(c);
                match next_value(args, i, f.as_str()) {
                    Ok(p) => p,
                    Err(m) => return Err(m),
                }
            };
            match short_value(t, c, val.as_str()) {
                Ok(()) => {},
                Err(m) => return Err(m),
            }
            return Ok(j);
        }
        match short_flag(t, c) {
            Ok(()) => {},
            Err(m) => return Err(m),
        }
        ci = ci + 1;
    }
    Ok(i)
}

fn slice_chars(v: &Vec<char>, from: usize) -> (r: &[char])
    requires
        from <= v@.len(),
    ensures
        r@ == v@.subrange(from as int, v@.len() as int),
{
    let (_, tail) = v.as_slice().split_at(from);
    tail
}

fn step(args: &[String], i: usize, t: &mut Translation, po: bool) -> (r: Result<(usize, bool), String>)
    requires
        i < args@.len(),
    ensures
        match step_spec(views(args@), i as int, old(t).model(), po) {
            Ok((t2, j, po2)) => r == Ok::<(usize, bool), String>((j as usize, po2)) && final(t).model()
                == t2,
            Err(m) => r is Err && r->Err_0@ == m,
        },
{
    let tok = args[i].as_str();
    assert(tok@ == views(args@)[i as int]);
    if po {
        t.add_positional(tok);
        return Ok((i + 1, true));
    }
    if str_eq(tok, "--") {
        return Ok((i + 1, true));
    }
    if starts_with(tok, "--") {
        let (name, attached) = match split_once(tok, '=') {
            Some((n, a)) => (n, Some(a)),
            None => (tok, None),
        };
        let j = match long_step(args, i, t, name, attached) {
            Ok(j) => j,
            Err(m) => return Err(m),
        };
        proof {
            lemma_long_step_bound(views(args@), i as int, old(t).model(), name@, match attached {
                Some(a) => Some(a@),
                None => None,
            });
        }
        return Ok((j + 1, false));
    }
    let v = chars_of(tok);
    if v.len() > 1 && v[0] == '-' {
        let cl = crate::text::chars_of(crate::text::str_skip_first(tok));
        assert(cl@ =~= tok@.drop_first());
        let j = match cluster(args, i, t, &cl) {
            Ok(j) => j,
            Err(m) => return Err(m),
        };
        proof {
            lemma_cluster_advances(views(args@), i as int, old(t).model(), cl@, 0);
        }
        return Ok((j + 1, false));
    }
    t.add_positional(tok);
    Ok((i + 1, false))
}

proof fn lemma_long_step_bound(args: Seq<Seq<char>>, i: int, t: TModel, name: Seq<char>, attached: Option<Seq<char>>)
    requires
        0 <= i < args.len(),
    ensures
        long_step_spec(args, i, t, name, attached) is Ok ==> i <= long_step_spec(args, i, t, name, attached)->Ok_0.1 < args.len(),
{
}

fn has_upper(ps: &Vec<String>) -> (r: bool)
    ensures
        r == any_upper(views(ps@)),
{
    let ghost a = views(ps@);
    let mut k: usize = 0;
    while k < ps.len()
        invariant
            a == views(ps@),
            k <= ps@.len(),
            forall|x: int, y: int| 0 <= x < k && 0 <= y < a[x].len() ==> !upper_char(#[trigger] a[x][y]),
        decreases ps.len() - k,
    {
        let v = chars_of(ps[k].as_str());
        let mut j: usize = 0;
        while j < v.len()
            invariant
                a == views(ps@),
                k < ps@.len(),
                v@ == a[k as int],
                j <= v@.len(),
                forall|y: int| 0 <= y < j ==> !upper_char(#[trigger] a[k as int][y]),
            decreases v.len() - j,
        {
            if is_uppercase(v[j]) {
                assert(upper_char(a[k as int][j as int]));
                return true;
            }
            j = j + 1;
        }
        k = k + 1;
    }
    false
}

fn push_with_flag(out: &mut Vec<String>, flag: &str, items: &Vec<String>)
    ensures
        views(final(out)@) == views(old(out)@) + with_flag(flag@, views(items@)),
{
    let ghost base = views(out@);
    let ghost its = views(items@);
    let mut k: usize = 0;
    assert(its.take(0) =~= Seq::<Seq<char>>::empty());
    assert(base + with_flag(flag@, its.take(0)) =~= base);
    while k < items.len()
        invariant
            its == views(items@),
            k <= items@.len(),
            views(out@) == base + with_flag(flag@, its.take(k as int)),
        decreases items.len() - k,
    {
        push_str_vec(out, flag);
        push_str_vec(out, items[k].as_str());
        assert(its.take(k + 1).drop_last() =~= its.take(k as int));
        assert(views(out@) =~= base + with_flag(flag@, its.take(k + 1)));
        k = k + 1;
    }
    assert(its.take(items@.len() as int) =~= its);
}

fn push_all(out: &mut Vec<String>, items: &Vec<String>)
    ensures
        views(final(out)@) == views(old(out)@) + views(items@),
{
    let ghost base = views(out@);
    let mut k: usize = 0;
    while k < items.len()
        invariant
            k <= items@.len(),
            views(out@) == base + views(items@).take(k as int),
        decreases items.len() - k,
    {
        push_str_vec(out, items[k].as_str());
        assert(views(items@).take(k + 1) =~= views(items@).take(k as int).push(items@[k as int]@));
        k = k + 1;
    }
    assert(views(items@).take(items@.len() as int) =~= views(items@));
}

fn finish_head(t: &Translation) -> (r: Vec<String>)
    ensures
        views(r@) == head_spec(t.model()),
{
    let mut out: Vec<String> = Vec::new();
    let engine = if t.pcre {
        "-P"
    } else if t.fixed_strings {
        "-F"
    } else {
        "-E"
    };
    push_str_vec(&mut out, engine);
    let upper = has_upper(&t.patterns);
    let icase = t.explicit_icase || (t.smart_case && t.pattern_files.len() == 0 && !upper);
    if icase {
        push_str_vec(&mut out, "-i");
    }
    let ghost h1 = views(out@);
    assert(h1 =~= seq![engine_flag(t.model())] + (if insensitive(t.model()) {
        seq!["-i"@]
    } else {
        Seq::<Seq<char>>::empty()
    }));
    push_all(&mut out, &t.flags);
    push_with_flag(&mut out, "-e", &t.patterns);
    push_with_flag(&mut out, "-f", &t.pattern_files);
    out
}

fn finish_tail(t: &Translation, stdin_piped: bool, out: &mut Vec<String>)
    ensures
        views(final(out)@) == views(old(out)@) + tail_spec(t.model(), stdin_piped),
{
    let ghost base = views(out@);
    if t.paths.len() == 0 && stdin_piped {
        assert(views(out@) =~= base + tail_spec(t.model(), stdin_piped));
        return;
    }
    push_str_vec(out, if t.follow {
        "-R"
    } else {
        "-r"
    });
    push_str_vec(out, "--");
    if t.paths.len() == 0 {
        push_str_vec(out, ".");
    } else {
        push_all(out, &t.paths);
    }
    assert(views(out@) =~= base + tail_spec(t.model(), stdin_piped));
}

fn finish(t: Translation, stdin_piped: bool) -> (r: Result<Vec<String>, String>)
    ensures
        match finish_spec(t.model(), stdin_piped) {
            Ok(o) => r is Ok && views(r->Ok_0@) == o,
            Err(m) => r is Err && r->Err_0@ == m,
        },
{
    if t.patterns.len() == 0 && t.pattern_files.len() == 0 {
        return Err(String::from_str("greppy: ripgrep-style invocation without a pattern (use PATTERN [PATH..])"));
    }
    let mut out = finish_head(&t);
    finish_tail(&t, stdin_piped, &mut out);
    Ok(out)
}

/// Translates a ripgrep-style argument list (no program name) into a
/// real-grep argument list, or refuses with a message naming the flag that
/// grep cannot reproduce and the closest alternative. With no path and
/// `stdin_piped`, ripgrep searches stdin, so no recursion or path is added.
pub fn translate_to_grep(args: &[String], stdin_piped: bool) -> (r: Result<Vec<String>, String>)
    ensures
        match translate_spec(views(args@), stdin_piped) {
            Ok(o) => r is Ok && views(r->Ok_0@) == o,
            Err(m) => r is Err && r->Err_0@ == m,
        },
{
    let ghost a = views(args@);
    let mut t = Translation::new();
    let mut i: usize = 0;
    let mut po = false;
    while i < args.len()
        invariant
            a == views(args@),
            i <= args@.len(),
            run_spec(a, 0, empty_model(), false) == run_spec(a, i as int, t.model(), po),
        decreases args.len() - i,
    {
        let ghost t0 = t.model();
        let ghost i0 = i;
        let ghost po0 = po;
        match step(args, i, &mut t, po) {
            Ok((j, p)) => {
                proof {
                    lemma_step_advances(a, i0 as int, t0, po0);
                }
                i = j;
                po = p;
            },
            Err(m) => {
                return Err(m);
            },
        }
    }
    finish(t, stdin_piped)
}


/// Two argument lists that agree from index `i` on.
pub open spec fn same_from(a: Seq<Seq<char>>, b: Seq<Seq<char>>, i: int) -> bool {
    a.len() == b.len() && forall|k: int| i <= k < a.len() ==> #[trigger] a[k] == b[k]
}

proof fn lemma_cluster_suffix(a: Seq<Seq<char>>, b: Seq<Seq<char>>, i: int, t: TModel, cl: Seq<char>, ci: int)
    requires
        0 <= i,
        same_from(a, b, i),
    ensures
        cluster_spec(a, i, t, cl, ci) == cluster_spec(b, i, t, cl, ci),
    decreases cl.len() - ci,
{
    assert(next_value_spec(a, i, dash(cl[ci])) == next_value_spec(b, i, dash(cl[ci])));
    if 0 <= ci < cl.len() && !takes_value(cl[ci]) {
        match short_flag_spec(t, cl[ci]) {
            Err(_) => {},
            Ok(t2) => lemma_cluster_suffix(a, b, i, t2, cl, ci + 1),
        }
    }
}

proof fn lemma_step_suffix(a: Seq<Seq<char>>, b: Seq<Seq<char>>, i: int, t: TModel, po: bool)
    requires
        0 <= i < a.len(),
        same_from(a, b, i),
    ensures
        step_spec(a, i, t, po) == step_spec(b, i, t, po),
{
    let tok = a[i];
    assert(b[i] == tok);
    let k = first_index(tok, '=');
    let name = if k >= 0 {
        tok.take(k)
    } else {
        tok
    };
    assert(next_value_spec(a, i, name) == next_value_spec(b, i, name));
    assert(long_step_spec(a, i, t, name, None) == long_step_spec(b, i, t, name, None));
    if tok.len() > 1 {
        lemma_cluster_suffix(a, b, i, t, tok.drop_first(), 0);
    }
}

/// The walk from argument `i` on reads only the arguments from `i` on.
pub proof fn lemma_run_suffix(a: Seq<Seq<char>>, b: Seq<Seq<char>>, i: int, t: TModel, po: bool)
    requires
        0 <= i,
        same_from(a, b, i),
    ensures
        run_spec(a, i, t, po) == run_spec(b, i, t, po),
    decreases a.len() - i,
{
    if i < a.len() {
        lemma_step_suffix(a, b, i, t, po);
        lemma_step_advances(a, i, t, po);
        match step_spec(a, i, t, po) {
            Err(_) => {},
            Ok((t2, j, po2)) => {
                lemma_run_suffix(a, b, j, t2, po2);
            },
        }
    }
}

proof fn lemma_no_equals(s: Seq<char>)
    requires
        forall|k: int| 0 <= k < s.len() ==> s[k] != '=',
    ensures
        first_index(s, '=') == -1,
{
    assert(!exists|i: int| crate::text::is_first_index(s, '=', i));
}

/// A long flag spelled as a whole argument and its one-letter short
/// spelling translate alike, whatever follows: when the long flag takes
/// no value and has the effect of the short flag `c` on every state.
proof fn lemma_long_as_short(long: Seq<char>, c: char, rest: Seq<Seq<char>>, stdin_piped: bool)
    requires
        long.len() > 2,
        long[0] == '-',
        long[1] == '-',
        forall|k: int| 0 <= k < long.len() ==> long[k] != '=',
        c != '-',
        !takes_value(c),
        forall|a: Seq<Seq<char>>, i: int, t: TModel|
            #[trigger] long_step_spec(a, i, t, long, None) == match short_flag_spec(t, c) {
                Ok(t2) => Ok::<(TModel, int), Seq<char>>((t2, i)),
                Err(m) => Err(m),
            },
    ensures
        translate_spec(seq![long] + rest, stdin_piped) == translate_spec(seq![dash(c)] + rest, stdin_piped),
{
    reveal_strlit("--");
    let a = seq![long] + rest;
    let b = seq![dash(c)] + rest;
    let e = empty_model();
    assert("--"@.len() == 2);
    assert(a[0] == long);
    assert(b[0] == dash(c));
    lemma_no_equals(long);
    assert(long != "--"@);
    assert(occurs_at(long, "--"@, 0)) by {
        reveal_strlit("--");
        assert(long.subrange(0, 2) =~= "--"@);
    }
    assert(!occurs_at(dash(c), "--"@, 0)) by {
        reveal_strlit("--");
        assert(dash(c).subrange(0, 2)[1] == c);
    }
    assert(dash(c) != "--"@) by {
        reveal_strlit("--");
        assert(dash(c)[1] == c);
    }
    assert(dash(c).drop_first() =~= seq![c]);
    assert(long_step_spec(a, 0, e, long, None) == match short_flag_spec(e, c) {
        Ok(t2) => Ok::<(TModel, int), Seq<char>>((t2, 0)),
        Err(m) => Err(m),
    });
    match short_flag_spec(e, c) {
        Ok(t2) => {
            assert(cluster_spec(b, 0, t2, seq![c], 1) == Ok::<(TModel, int), Seq<char>>((t2, 0)));
            assert(cluster_spec(b, 0, e, seq![c], 0) == Ok::<(TModel, int), Seq<char>>((t2, 0)));
            assert(step_spec(b, 0, e, false) == Ok::<(TModel, int, bool), Seq<char>>((t2, 1, false)));
            assert(step_spec(a, 0, e, false) == Ok::<(TModel, int, bool), Seq<char>>((t2, 1, false)));
        },
        Err(m) => {
            assert(cluster_spec(b, 0, e, seq![c], 0) == Err::<(TModel, int), Seq<char>>(m));
        },
    }
    assert(step_spec(a, 0, e, false) == step_spec(b, 0, e, false));
    lemma_step_advances(a, 0, e, false);
    match step_spec(a, 0, e, false) {
        Err(_) => {},
        Ok((t2, j, po2)) => {
            assert(j == 1);
            assert(same_from(a, b, 1)) by {
                assert forall|k: int| 1 <= k < a.len() implies #[trigger] a[k] == b[k] by {
                    assert(a[k] == rest[k - 1]);
                    assert(b[k] == rest[k - 1]);
                }
            }
            lemma_run_suffix(a, b, 1, t2, po2);
        },
    }
}

/// ripgrep's `--files-with-matches` lists the files that have a match,
/// exactly as its short spelling `-l` does, and becomes grep's `-l`:
/// whatever follows it, both translate alike, and on its own state the
/// flag adds `-l` (never `-L`, the files without a match).
pub proof fn lemma_files_with_matches_is_dash_l(rest: Seq<Seq<char>>, stdin_piped: bool)
    ensures
        translate_spec(seq!["--files-with-matches"@] + rest, stdin_piped) == translate_spec(
            seq!["-l"@] + rest,
            stdin_piped,
        ),
        forall|a: Seq<Seq<char>>, i: int, t: TModel|
            #[trigger] long_step_spec(a, i, t, "--files-with-matches"@, None) == Ok::<(TModel, int), Seq<char>>(
                (add_flags(t, seq!["-l"@]), i),
            ),
{
    reveal_strlit("--files-with-matches");
    reveal_strlit("-l");
    reveal_strlit("-L");
    reveal_strlit("--ignore-case");
    reveal_strlit("--invert-match");
    reveal_strlit("--word-regexp");
    reveal_strlit("--line-regexp");
    reveal_strlit("--count");
    let long = "--files-with-matches"@;
    assert(long_kind_spec(long) == LongFlag::Push(4));
    assert(dash('l') =~= "-l"@);
    assert forall|a: Seq<Seq<char>>, i: int, t: TModel|
        #[trigger] long_step_spec(a, i, t, long, None) == match short_flag_spec(t, 'l') {
            Ok(t2) => Ok::<(TModel, int), Seq<char>>((t2, i)),
            Err(m) => Err(m),
        } by {}
    lemma_long_as_short(long, 'l', rest, stdin_piped);
}

} // verus!
