//! Idempotent `ensure-import`: make sure a module (or a name from it) is
//! imported. Present: `already-satisfied`, nothing written. Absent: one
//! import line inserted after the last top-level import (or at the start
//! of the file). The name bound from another module: `invalid-result`,
//! nothing written.
//!
//! The syntax tree is the parser's business; this module takes the
//! top-level nodes (kind and byte span) it found.

use vstd::prelude::*;
use crate::certificate::Status;
use crate::plan::PlannedOp;
use crate::plan::PlannedModel;
use crate::plan::planned_model;
use crate::plan::utf8;
use crate::strutil::occurs_at;
use crate::text::utf8_lossy;
use crate::text::trim_ws;
use crate::text::chars_of;
use crate::text::push_char;
use vstd::string::*;

verus! {

broadcast use vstd::string::group_string_axioms;

/// The languages `ensure-import` writes imports for.
#[derive(Debug, Clone, Copy, PartialEq, Eq, Structural)]
pub enum ImportLanguage {
    Python,
    Rust,
    Go,
    TypeScript,
    JavaScript,
    /// Any other language: no import can be written.
    Other,
}

/// The import line written for `module` (and `name`), per language.
pub open spec fn import_line_spec(language: ImportLanguage, module: Seq<char>, name: Option<Seq<char>>) -> Option<Seq<char>> {
    match language {
        ImportLanguage::Python => match name {
            Some(n) => Some("from "@ + module + " import "@ + n),
            None => Some("import "@ + module),
        },
        ImportLanguage::Rust => match name {
            Some(n) => Some("use "@ + module + "::"@ + n + seq![';']),
            None => Some("use "@ + module + seq![';']),
        },
        ImportLanguage::Go => Some("import \""@ + module + seq!['"']),
        ImportLanguage::TypeScript | ImportLanguage::JavaScript => match name {
            Some(n) => Some("import { "@ + n + " } from \""@ + module + "\";"@),
            None => Some("import \""@ + module + "\";"@),
        },
        ImportLanguage::Other => None,
    }
}

/// The import line written for `module` (and `name`), if the language has
/// one.
pub fn import_line(language: ImportLanguage, module: &str, name: Option<&str>) -> (r: Option<String>)
    ensures
        match r {
            Some(s) => import_line_spec(language, module@, match name {
                Some(n) => Some(n@),
                None => None,
            }) == Some(s@),
            None => import_line_spec(language, module@, match name {
                Some(n) => Some(n@),
                None => None,
            }) is None,
        },
{
    match language {
        ImportLanguage::Python => match name {
            Some(n) => {
                let mut s = String::from_str("from ");
                s.append(module);
                s.append(" import ");
                s.append(n);
                Some(s)
            },
            None => {
                let mut s = String::from_str("import ");
                s.append(module);
                Some(s)
            },
        },
        ImportLanguage::Rust => match name {
            Some(n) => {
                let mut s = String::from_str("use ");
                s.append(module);
                s.append("::");
                s.append(n);
                push_char(&mut s, ';');
                Some(s)
            },
            None => {
                let mut s = String::from_str("use ");
                s.append(module);
                push_char(&mut s, ';');
                Some(s)
            },
        },
        ImportLanguage::Go => {
            let mut s = String::from_str("import \"");
            s.append(module);
            push_char(&mut s, '"');
            Some(s)
        },
        ImportLanguage::TypeScript | ImportLanguage::JavaScript => match name {
            Some(n) => {
                let mut s = String::from_str("import { ");
                s.append(n);
                s.append(" } from \"");
                s.append(module);
                s.append("\";");
                Some(s)
            },
            None => {
                let mut s = String::from_str("import \"");
                s.append(module);
                s.append("\";");
                Some(s)
            },
        },
        ImportLanguage::Other => None,
    }
}

/// The syntax node kinds of import statements, per language.
pub open spec fn import_kinds_spec(language: ImportLanguage) -> Seq<Seq<char>> {
    match language {
        ImportLanguage::Python => seq!["import_statement"@, "import_from_statement"@],
        ImportLanguage::Rust => seq!["use_declaration"@],
        ImportLanguage::Go => seq!["import_declaration"@],
        ImportLanguage::TypeScript | ImportLanguage::JavaScript => seq!["import_statement"@],
        ImportLanguage::Other => Seq::empty(),
    }
}

/// Whether a node kind is an import statement of the language.
pub fn is_import_kind(language: ImportLanguage, kind: &str) -> (r: bool)
    ensures
        r == import_kinds_spec(language).contains(kind@),
{
    proof {
        reveal_strlit("import_statement");
        reveal_strlit("import_from_statement");
        reveal_strlit("use_declaration");
        reveal_strlit("import_declaration");
    }
    let r = match language {
        ImportLanguage::Python => crate::text::str_eq(kind, "import_statement") || crate::text::str_eq(
            kind,
            "import_from_statement",
        ),
        ImportLanguage::Rust => crate::text::str_eq(kind, "use_declaration"),
        ImportLanguage::Go => crate::text::str_eq(kind, "import_declaration"),
        ImportLanguage::TypeScript | ImportLanguage::JavaScript => crate::text::str_eq(kind, "import_statement"),
        ImportLanguage::Other => false,
    };
    proof {
        let ks = import_kinds_spec(language);
        if r {
            if language == ImportLanguage::Python && kind@ == "import_from_statement"@ {
                assert(ks[1] == kind@);
            } else {
                assert(ks[0] == kind@);
            }
        } else {
            assert forall|i: int| 0 <= i < ks.len() implies ks[i] != kind@ by {}
        }
    }
    r
}

/// Whether `c` is alphabetic or numeric in Unicode's sense (std's
/// `char::is_alphanumeric`).
pub uninterp spec fn char_is_alphanumeric(c: char) -> bool;

/// Whether `c` is alphanumeric: among ASCII characters exactly the letters
/// and digits, beyond ASCII Unicode's alphabetic or numeric characters.
pub open spec fn alnum_char(c: char) -> bool {
    if c <= '\u{7f}' {
        ('a' <= c && c <= 'z') || ('A' <= c && c <= 'Z') || ('0' <= c && c <= '9')
    } else {
        char_is_alphanumeric(c)
    }
}

/// std's `char::is_alphanumeric`. Its result depends on the character
/// alone; among ASCII characters exactly the letters and digits are
/// alphanumeric. The Unicode tables beyond ASCII are not spelled out here.
#[verifier::external_body]
fn is_alphanumeric(c: char) -> (r: bool)
    ensures
        r == char_is_alphanumeric(c),
        r == alnum_char(c),
{
    c.is_alphanumeric()
}

/// A character that belongs to an identifier token.
pub open spec fn is_word_char(c: char) -> bool {
    alnum_char(c) || c == '_'
}

/// The tokens of `s` between non-word characters, as `str::split` with
/// that predicate gives them (empty ones included).
pub open spec fn word_tokens(s: Seq<char>) -> Seq<Seq<char>>
    decreases s.len(),
{
    if s.len() == 0 {
        seq![Seq::empty()]
    } else {
        let t = word_tokens(s.drop_last());
        if !is_word_char(s.last()) {
            t.push(Seq::empty())
        } else {
            t.update(t.len() - 1, t.last().push(s.last()))
        }
    }
}

proof fn lemma_word_tokens_nonempty(s: Seq<char>)
    ensures
        word_tokens(s).len() >= 1,
    decreases s.len(),
{
    if s.len() > 0 {
        lemma_word_tokens_nonempty(s.drop_last());
    }
}

/// Whether `name` is one of the word tokens of `text`.
pub fn mentions_token(text: &str, name: &str) -> (r: bool)
    ensures
        r == word_tokens(text@).contains(name@),
{
    let v = chars_of(text);
    let mut toks: Vec<String> = Vec::new();
    toks.push(String::new());
    let mut i: usize = 0;
    assert(text@.take(0) =~= Seq::<char>::empty());
    assert(crate::rg::views(toks@) =~= word_tokens(text@.take(0)));
    while i < v.len()
        invariant
            v@ == text@,
            i <= v@.len(),
            crate::rg::views(toks@) == word_tokens(text@.take(i as int)),
            toks@.len() >= 1,
        decreases v.len() - i,
    {
        let c = v[i];
        let ghost t = text@.take(i + 1);
        assert(t.drop_last() =~= text@.take(i as int));
        assert(t.last() == c);
        let ghost w0 = crate::rg::views(toks@);
        if !(is_alphanumeric(c) || c == '_') {
            toks.push(String::new());
            assert(crate::rg::views(toks@) =~= w0.push(Seq::empty()));
        } else {
            let mut last = toks.pop().unwrap();
            push_char(&mut last, c);
            let ghost lv = last@;
            toks.push(last);
            assert(crate::rg::views(toks@) =~= w0.update(w0.len() - 1, w0.last().push(c)));
        }
        i = i + 1;
    }
    assert(text@.take(v@.len() as int) =~= text@);
    let mut k: usize = 0;
    while k < toks.len()
        invariant
            crate::rg::views(toks@) == word_tokens(text@),
            k <= toks@.len(),
            forall|q: int| 0 <= q < k ==> #[trigger] toks@[q]@ != name@,
        decreases toks.len() - k,
    {
        if crate::text::str_eq(toks[k].as_str(), name) {
            assert(word_tokens(text@)[k as int] == name@);
            return true;
        }
        k = k + 1;
    }
    assert(!word_tokens(text@).contains(name@)) by {
        if word_tokens(text@).contains(name@) {
            let q = choose|q: int| 0 <= q < word_tokens(text@).len() && word_tokens(text@)[q] == name@;
            assert(toks@[q]@ == name@);
        }
    }
    false
}

/// A top-level syntax node: its kind and byte span.
#[derive(Debug, Clone)]
pub struct TopNode {
    pub kind: String,
    pub start_byte: usize,
    pub end_byte: usize,
}

/// What the existing imports say about `module` and `name`.
#[derive(Debug, Clone)]
pub struct ImportScan {
    /// Where a new import goes: after the last top-level import and its
    /// line feed, or the start of the file.
    pub insert_at: usize,
    /// An import already binds `name` from `module` (or imports `module`).
    pub satisfied: bool,
    /// The trimmed text of an import that binds `name` from another module.
    pub conflict: Option<String>,
}

/// The scan state as plain values: insertion point, satisfied, conflict.
pub open spec fn scan_view(s: ImportScan) -> (int, bool, Option<Seq<char>>) {
    (s.insert_at as int, s.satisfied, match s.conflict {
        Some(c) => Some(c@),
        None => None,
    })
}

/// The scan of the first `n` nodes: each import node moves the insertion
/// point past it (and its line feed), and tells whether it satisfies or
/// conflicts; a later import's verdict replaces an earlier conflict text.
pub open spec fn scan_spec(
    kinds: Seq<Seq<char>>,
    nodes: Seq<TopNode>,
    content: Seq<u8>,
    module: Seq<char>,
    name: Option<Seq<char>>,
    n: int,
) -> (int, bool, Option<Seq<char>>)
    decreases n,
{
    if n <= 0 {
        (0, false, None)
    } else {
        let prev = scan_spec(kinds, nodes, content, module, name, n - 1);
        let node = nodes[n - 1];
        if !kinds.contains(node.kind@) {
            prev
        } else {
            let text = utf8_lossy(content.subrange(node.start_byte as int, node.end_byte as int));
            let end = if (node.end_byte as int) < content.len() && content[node.end_byte as int] == 10 {
                node.end_byte + 1
            } else {
                node.end_byte as int
            };
            let mentions_module = exists|i: int| occurs_at(text, module, i);
            match name {
                Some(nm) => {
                    let mentions_name = word_tokens(text).contains(nm);
                    if mentions_module && mentions_name {
                        (end, true, prev.2)
                    } else if mentions_name && !mentions_module {
                        (end, prev.1, Some(trim_ws(text)))
                    } else {
                        (end, prev.1, prev.2)
                    }
                },
                None => (end, prev.1 || mentions_module, prev.2),
            }
        }
    }
}

/// Nodes whose spans lie inside the content, start before end.
pub open spec fn nodes_in(nodes: Seq<TopNode>, len: int) -> bool {
    forall|i: int| 0 <= i < nodes.len() ==> #[trigger] nodes[i].start_byte <= nodes[i].end_byte <= len
}

/// Scans the file's top-level nodes for imports of `module` (and `name`).
pub fn scan_imports(language: ImportLanguage, nodes: &[TopNode], content: &[u8], module: &str, name: Option<&str>) -> (r: ImportScan)
    requires
        nodes_in(nodes@, content@.len() as int),
    ensures
        scan_view(r) == scan_spec(
            import_kinds_spec(language),
            nodes@,
            content@,
            module@,
            match name {
                Some(n) => Some(n@),
                None => None,
            },
            nodes@.len() as int,
        ),
{
    let ghost nm = match name {
        Some(n) => Some(n@),
        None => None,
    };
    let ghost kinds = import_kinds_spec(language);
    let mut scan = ImportScan { insert_at: 0, satisfied: false, conflict: None };
    let mut i: usize = 0;
    while i < nodes.len()
        invariant
            nodes_in(nodes@, content@.len() as int),
            kinds == import_kinds_spec(language),
            nm == match name {
                Some(n) => Some(n@),
                None => None::<Seq<char>>,
            },
            i <= nodes@.len(),
            scan_view(scan) == scan_spec(kinds, nodes@, content@, module@, nm, i as int),
        decreases nodes.len() - i,
    {
        let node = &nodes[i];
        assert(node.start_byte <= node.end_byte <= content@.len());
        if is_import_kind(language, node.kind.as_str()) {
            let bytes = crate::plan::slice_range(content, node.start_byte, node.end_byte);
            let text = crate::text::lossy_string(bytes);
            let mut end = node.end_byte;
            if end < content.len() && content[end] == 10 {
                end = end + 1;
            }
            scan.insert_at = end;
            let mentions_module = crate::strutil::contains(text.as_str(), module);
            match name {
                Some(n) => {
                    let mentions_name = mentions_token(text.as_str(), n);
                    if mentions_module && mentions_name {
                        scan.satisfied = true;
                    } else if mentions_name && !mentions_module {
                        scan.conflict = Some(String::from_str(crate::text::trim(text.as_str())));
                    }
                },
                None => {
                    if mentions_module {
                        scan.satisfied = true;
                    }
                },
            }
        }
        i = i + 1;
    }
    scan
}

/// The outcome of `ensure-import`: an insertion, or the status that ends
/// it without a write.
pub open spec fn ensure_import_spec(line: Option<Seq<char>>, scan: Option<(int, bool, Option<Seq<char>>)>) -> Result<PlannedModel, Status> {
    match line {
        None => Err(Status::NotFound),
        Some(l) => match scan {
            None => Err(Status::NotFound),
            Some(s) => if s.1 {
                Err(Status::AlreadySatisfied)
            } else if s.2 is Some {
                Err(Status::InvalidResult)
            } else {
                Ok(PlannedModel { id: "ensure-import"@, range: (s.0, s.0), replacement: utf8(l) + seq![10u8] })
            },
        },
    }
}

/// Decides `ensure-import` from the import line (none when the language
/// has no imports) and the scan (none when the file could not be parsed):
/// already imported is satisfied, a conflicting binding is refused, else
/// the line is inserted with its line feed.
pub fn ensure_import_plan(line: Option<String>, scan: Option<ImportScan>) -> (r: Result<PlannedOp, Status>)
    ensures
        match ensure_import_spec(
            match line {
                Some(l) => Some(l@),
                None => None,
            },
            match scan {
                Some(s) => Some(scan_view(s)),
                None => None,
            },
        ) {
            Ok(p) => r is Ok && planned_model(r->Ok_0) == p,
            Err(s) => r == Err::<PlannedOp, Status>(s),
        },
{
    proof {
        reveal_strlit("ensure-import");
    }
    let l = match line {
        Some(l) => l,
        None => {
            return Err(Status::NotFound);
        },
    };
    let s = match scan {
        Some(s) => s,
        None => {
            return Err(Status::NotFound);
        },
    };
    if s.satisfied {
        return Err(Status::AlreadySatisfied);
    }
    if s.conflict.is_some() {
        return Err(Status::InvalidResult);
    }
    let mut block = crate::plan::encode_str(l.as_str());
    block.push(10);
    let p = PlannedOp { id: String::from_str("ensure-import"), range: (s.insert_at, s.insert_at), replacement: block };
    assert(p.replacement@ =~= utf8(l@) + seq![10u8]);
    Ok(p)
}


proof fn lemma_tokens_end_with_word(x: Seq<char>, n: Seq<char>)
    requires
        x.len() > 0,
        !is_word_char(x.last()),
        forall|k: int| 0 <= k < n.len() ==> is_word_char(#[trigger] n[k]),
    ensures
        word_tokens(x + n).last() == n,
        word_tokens(x + n).len() == word_tokens(x).len(),
    decreases n.len(),
{
    if n.len() == 0 {
        assert(x + n =~= x);
        lemma_word_tokens_nonempty(x.drop_last());
    } else {
        let m = n.drop_last();
        assert forall|k: int| 0 <= k < m.len() implies is_word_char(#[trigger] m[k]) by {
            assert(m[k] == n[k]);
        }
        lemma_tokens_end_with_word(x, m);
        assert((x + n).drop_last() =~= x + m);
        assert((x + n).last() == n.last());
        assert(is_word_char(n[n.len() - 1]));
        lemma_word_tokens_nonempty(x + m);
        assert(m.push(n.last()) =~= n);
    }
}

proof fn lemma_tokens_prefix_stable(p: Seq<char>, y: Seq<char>)
    ensures
        word_tokens(p + y).len() >= word_tokens(p).len(),
        forall|k: int| 0 <= k < word_tokens(p).len() - 1 ==> #[trigger] word_tokens(p + y)[k] == word_tokens(p)[k],
    decreases y.len(),
{
    if y.len() == 0 {
        assert(p + y =~= p);
    } else {
        let z = y.drop_last();
        lemma_tokens_prefix_stable(p, z);
        assert((p + y).drop_last() =~= p + z);
        lemma_word_tokens_nonempty(p + z);
    }
}

/// `n` is a word token of `x + n + b` when `x` ends and `b` starts with a
/// character that is not part of a word, and every character of `n` is.
proof fn lemma_token_between(x: Seq<char>, n: Seq<char>, b: Seq<char>)
    requires
        x.len() > 0,
        !is_word_char(x.last()),
        b.len() > 0,
        !is_word_char(b[0]),
        forall|k: int| 0 <= k < n.len() ==> is_word_char(#[trigger] n[k]),
    ensures
        word_tokens(x + n + b).contains(n),
{
    lemma_tokens_end_with_word(x, n);
    lemma_word_tokens_nonempty(x);
    let q = x + n + b.take(1);
    assert(q.drop_last() =~= x + n);
    assert(q.last() == b[0]);
    let j = word_tokens(x + n).len() - 1;
    assert(word_tokens(q)[j] == n);
    lemma_tokens_prefix_stable(q, b.skip(1));
    assert(q + b.skip(1) =~= x + n + b);
    assert(word_tokens(x + n + b)[j] == n);
}

proof fn lemma_satisfied_stays(
    kinds: Seq<Seq<char>>,
    nodes: Seq<TopNode>,
    content: Seq<u8>,
    module: Seq<char>,
    name: Option<Seq<char>>,
    m: int,
    n: int,
)
    requires
        1 <= m <= n,
        scan_spec(kinds, nodes, content, module, name, m).1,
    ensures
        scan_spec(kinds, nodes, content, module, name, n).1,
    decreases n - m,
{
    if m < n {
        lemma_satisfied_stays(kinds, nodes, content, module, name, m, n - 1);
    }
}

/// `ensure-import` is idempotent: once a top-level import of the file reads
/// exactly the line that `ensure-import` writes (as after it inserted that
/// line), the scan finds the import satisfied and a second run writes
/// nothing. A name must be made of word characters; for Go, whose import
/// line does not mention the name, the law is stated without one.
pub proof fn lemma_ensure_import_idempotent(
    language: ImportLanguage,
    nodes: Seq<TopNode>,
    content: Seq<u8>,
    module: Seq<char>,
    name: Option<Seq<char>>,
    i: int,
)
    requires
        0 <= i < nodes.len(),
        import_kinds_spec(language).contains(nodes[i].kind@),
        import_line_spec(language, module, name) is Some,
        utf8_lossy(content.subrange(nodes[i].start_byte as int, nodes[i].end_byte as int)) == import_line_spec(
            language,
            module,
            name,
        )->Some_0,
        name matches Some(n) ==> language != ImportLanguage::Go && forall|k: int|
            0 <= k < n.len() ==> is_word_char(#[trigger] n[k]),
    ensures
        scan_spec(import_kinds_spec(language), nodes, content, module, name, nodes.len() as int).1,
        ensure_import_spec(
            import_line_spec(language, module, name),
            Some(scan_spec(import_kinds_spec(language), nodes, content, module, name, nodes.len() as int)),
        ) == Err::<PlannedModel, Status>(Status::AlreadySatisfied),
{
    reveal_strlit("from ");
    reveal_strlit(" import ");
    reveal_strlit("import ");
    reveal_strlit("use ");
    reveal_strlit("::");
    reveal_strlit("import \"");
    reveal_strlit("import { ");
    reveal_strlit(" } from \"");
    reveal_strlit("\";");
    let kinds = import_kinds_spec(language);
    let line = import_line_spec(language, module, name)->Some_0;
    let text = line;
    let at: int = match language {
        ImportLanguage::Python => match name {
            Some(n) => 5,
            None => 7,
        },
        ImportLanguage::Rust => 4,
        ImportLanguage::Go => 8,
        _ => match name {
            Some(n) => 18 + n.len() as int,
            None => 8,
        },
    };
    assert(occurs_at(text, module, at)) by {
        assert(text.subrange(at, at + module.len()) =~= module);
    }
    match name {
        Some(n) => {
            match language {
                ImportLanguage::Python => {
                    let x = "from "@ + module + " import "@;
                    assert(text =~= x + n);
                    assert(x.last() == ' ');
                    lemma_tokens_end_with_word(x, n);
                    lemma_word_tokens_nonempty(x);
                    assert(word_tokens(text)[word_tokens(text).len() - 1] == n);
                },
                ImportLanguage::Rust => {
                    let x = "use "@ + module + "::"@;
                    assert(text =~= x + n + seq![';']);
                    assert(x.last() == ':');
                    lemma_token_between(x, n, seq![';']);
                },
                _ => {
                    let x = "import { "@;
                    let b = " } from \""@ + module + "\";"@;
                    assert(text =~= x + n + b);
                    assert(x.last() == ' ');
                    assert(b[0] == ' ');
                    lemma_token_between(x, n, b);
                },
            }
            assert(word_tokens(text).contains(n));
        },
        None => {},
    }
    assert(scan_spec(kinds, nodes, content, module, name, i + 1).1);
    lemma_satisfied_stays(kinds, nodes, content, module, name, i + 1, nodes.len() as int);
}


/// Every import line `ensure-import` writes is a complete statement of its
/// language naming the module: a Rust line is `use <module>...;` (a `use`
/// declaration ends with `;`), a Python line starts with `from <module> `
/// or is `import <module>`, a Go line is `import "<module>"`, and a
/// TypeScript or JavaScript line ends with `";`.
pub proof fn lemma_import_lines_are_complete(language: ImportLanguage, module: Seq<char>, name: Option<Seq<char>>)
    ensures
        language != ImportLanguage::Other <==> import_line_spec(language, module, name) is Some,
        ({
            let l = import_line_spec(language, module, name)->Some_0;
            &&& language == ImportLanguage::Rust ==> l.len() >= 5 + module.len() && l.take(4) == "use "@
                && l.subrange(4, 4 + module.len() as int) == module && l.last() == ';'
            &&& language == ImportLanguage::Rust && name is None ==> l == "use "@ + module + ";"@
            &&& language == ImportLanguage::Python && name is None ==> l == "import "@ + module
            &&& language == ImportLanguage::Python && name is Some ==> l.len() >= 5 + module.len() + 1 && l.take(5)
                == "from "@ && l.subrange(5, 5 + module.len() as int) == module && l[5 + module.len() as int] == ' '
            &&& language == ImportLanguage::Go ==> l == "import \""@ + module + "\""@
            &&& (language == ImportLanguage::TypeScript || language == ImportLanguage::JavaScript) ==> l.len() >= 2
                && l.subrange(l.len() - 2, l.len() as int) == "\";"@
        }),
{
    reveal_strlit("use ");
    reveal_strlit(";");
    reveal_strlit("::");
    reveal_strlit("import ");
    reveal_strlit("from ");
    reveal_strlit(" import ");
    reveal_strlit("import \"");
    reveal_strlit("\"");
    reveal_strlit("\";");
    reveal_strlit("import { ");
    reveal_strlit(" } from \"");
    let l = import_line_spec(language, module, name)->Some_0;
    match language {
        ImportLanguage::Rust => {
            assert(l.take(4) =~= "use "@);
            assert(l.subrange(4, 4 + module.len() as int) =~= module);
            match name {
                None => {
                    assert(l =~= "use "@ + module + ";"@);
                },
                Some(n) => {},
            }
        },
        ImportLanguage::Python => match name {
            Some(n) => {
                assert(l.take(5) =~= "from "@);
                assert(l.subrange(5, 5 + module.len() as int) =~= module);
            },
            None => {},
        },
        ImportLanguage::Go => {
            assert(l =~= "import \""@ + module + "\""@);
        },
        ImportLanguage::TypeScript | ImportLanguage::JavaScript => {
            assert(l.subrange(l.len() - 2, l.len() as int) =~= "\";"@);
        },
        ImportLanguage::Other => {},
    }
}

} // verus!
