//! Structured-data addressing: `$.a.b[2].c` paths, and locating the bytes of
//! the value such a path names in JSON text, so that an edit replaces those
//! bytes and leaves every other byte of the document as it was.

use vstd::prelude::*;
use crate::text::first_index;
use crate::text::parse_usize;
use crate::text::parse_usize_spec;
use crate::text::split_once;
use vstd::string::*;
use crate::certificate::Status;

verus! {

broadcast use vstd::string::group_string_axioms;

/// One step of a data path.
#[derive(Debug, Clone, PartialEq, Eq)]
pub enum Seg {
    /// A mapping key.
    Key(String),
    /// An array index.
    Index(usize),
}

/// A path step as plain values.
pub enum SegModel {
    Key(Seq<char>),
    Index(usize),
}

/// The model of a step.
pub open spec fn seg_model(s: Seg) -> SegModel {
    match s {
        Seg::Key(k) => SegModel::Key(k@),
        Seg::Index(i) => SegModel::Index(i),
    }
}

/// The models of a path.
pub open spec fn segs_model(v: Seq<Seg>) -> Seq<SegModel> {
    Seq::new(v.len(), |i: int| seg_model(v[i]))
}

/// Why a data path was refused.
#[derive(Debug, Clone, Copy, PartialEq, Eq)]
pub enum PathError {
    /// A `[` has no closing `]`.
    UnclosedIndex,
    /// An index is not a decimal number.
    NonNumericIndex,
    /// The path names no step.
    EmptyPath,
}

/// The path without its `$.` or `$` prefix.
pub open spec fn path_body(p: Seq<char>) -> Seq<char> {
    if p.len() >= 2 && p[0] == '$' && p[1] == '.' {
        p.skip(2)
    } else if p.len() >= 1 && p[0] == '$' {
        p.skip(1)
    } else {
        p
    }
}

/// The `[n]` suffixes of a segment, from `rest` on.
pub open spec fn brackets_spec(rest: Seq<char>) -> Result<Seq<SegModel>, PathError>
    decreases rest.len(),
{
    if rest.len() > 0 && rest[0] == '[' {
        let inner = rest.drop_first();
        let e = first_index(inner, ']');
        if e < 0 {
            Err(PathError::UnclosedIndex)
        } else {
            match parse_usize_spec(inner.take(e)) {
                None => Err(PathError::NonNumericIndex),
                Some(n) => match brackets_spec(inner.skip(e + 1)) {
                    Err(x) => Err(x),
                    Ok(more) => Ok(seq![SegModel::Index(n)] + more),
                },
            }
        }
    } else {
        Ok(Seq::empty())
    }
}

/// The steps of one dot-separated segment: an optional key, then indexes.
pub open spec fn segment_spec(raw: Seq<char>) -> Result<Seq<SegModel>, PathError> {
    if raw.len() == 0 {
        Ok(Seq::empty())
    } else {
        let b = first_index(raw, '[');
        if b < 0 {
            Ok(seq![SegModel::Key(raw)])
        } else {
            let key = raw.take(b);
            match brackets_spec(raw.skip(b)) {
                Err(x) => Err(x),
                Ok(idx) => Ok(if key.len() > 0 {
                    seq![SegModel::Key(key)] + idx
                } else {
                    idx
                }),
            }
        }
    }
}

/// The steps of a list of segments; the first malformed one decides.
pub open spec fn segments_spec(parts: Seq<Seq<char>>) -> Result<Seq<SegModel>, PathError>
    decreases parts.len(),
{
    if parts.len() == 0 {
        Ok(Seq::empty())
    } else {
        match segments_spec(parts.drop_last()) {
            Err(x) => Err(x),
            Ok(a) => match segment_spec(parts.last()) {
                Err(x) => Err(x),
                Ok(b) => Ok(a + b),
            },
        }
    }
}

/// The steps of a `$.a.b[2].c` path.
pub open spec fn parse_path_spec(p: Seq<char>) -> Result<Seq<SegModel>, PathError> {
    match segments_spec(crate::strutil::split_fields(path_body(p), '.')) {
        Err(x) => Err(x),
        Ok(s) => if s.len() == 0 {
            Err(PathError::EmptyPath)
        } else {
            Ok(s)
        },
    }
}

fn push_seg(v: &mut Vec<Seg>, s: Seg)
    ensures
        segs_model(final(v)@) == segs_model(old(v)@).push(seg_model(s)),
{
    let ghost before = v@;
    let ghost m = seg_model(s);
    v.push(s);
    assert(segs_model(v@) =~= segs_model(before).push(m));
}

fn parse_brackets(rest0: &str, out: &mut Vec<Seg>) -> (r: Result<(), PathError>)
    ensures
        match brackets_spec(rest0@) {
            Err(x) => r == Err::<(), PathError>(x),
            Ok(s) => r is Ok && segs_model(final(out)@) == segs_model(old(out)@) + s,
        },
{
    let mut rest = rest0;
    let ghost base = segs_model(out@);
    let ghost whole = brackets_spec(rest0@);
    assert(base + Seq::<SegModel>::empty() =~= base);
    loop
        invariant
            whole == brackets_spec(rest0@),
            whole is Ok ==> whole == (match brackets_spec(rest@) {
                Err(x) => Err(x),
                Ok(s) => Ok(segs_model(out@).subrange(base.len() as int, segs_model(out@).len() as int) + s),
            }),
            whole is Err ==> brackets_spec(rest@) == whole,
            segs_model(out@).len() >= base.len(),
            segs_model(out@).subrange(0, base.len() as int) == base,
            segs_model(old(out)@) == base,
        ensures
            brackets_spec(rest@) == Ok::<Seq<SegModel>, PathError>(Seq::empty()),
        decreases rest@.len(),
    {
        let (open, inner) = match split_once(rest, '[') {
            Some(p) => p,
            None => {
                proof {
                    if rest@.len() > 0 && rest@[0] == '[' {
                        assert(crate::text::is_first_index(rest@, '[', 0));
                        crate::text::lemma_first_index_unique(rest@, '[', 0);
                    }
                }
                break;
            },
        };
        if open.unicode_len() != 0 {
            proof {
                let k = first_index(rest@, '[');
                assert(k > 0);
                if rest@[0] == '[' {
                    assert(crate::text::is_first_index(rest@, '[', 0));
                    crate::text::lemma_first_index_unique(rest@, '[', 0);
                }
            }
            break;
        }
        proof {
            assert(rest@.skip(1) =~= rest@.drop_first());
        }
        let (num, after) = match split_once(inner, ']') {
            Some(p) => p,
            None => {
                return Err(PathError::UnclosedIndex);
            },
        };
        let n = match parse_usize(num) {
            Some(n) => n,
            None => {
                return Err(PathError::NonNumericIndex);
            },
        };
        let ghost before = segs_model(out@);
        push_seg(out, Seg::Index(n));
        proof {
            let prev = before.subrange(base.len() as int, before.len() as int);
            assert(segs_model(out@).subrange(base.len() as int, segs_model(out@).len() as int) =~= prev
                + seq![SegModel::Index(n)]);
            assert(segs_model(out@).subrange(0, base.len() as int) =~= base);
            match brackets_spec(after@) {
                Err(x) => {},
                Ok(s) => {
                    assert(prev + (seq![SegModel::Index(n)] + s) =~= (prev + seq![SegModel::Index(n)])
                        + s);
                },
            }
        }
        rest = after;
    }
    proof {
        assert(brackets_spec(rest@) == Ok::<Seq<SegModel>, PathError>(Seq::empty()));
        let m = segs_model(out@);
        assert(m =~= base + m.subrange(base.len() as int, m.len() as int));
        assert(m.subrange(base.len() as int, m.len() as int) + Seq::<SegModel>::empty() =~= m.subrange(
            base.len() as int,
            m.len() as int,
        ));
    }
    Ok(())
}

/// Parses a `$.a.b[2].c` path into its steps.
pub fn parse_path(path: &str) -> (r: Result<Vec<Seg>, PathError>)
    ensures
        match parse_path_spec(path@) {
            Err(x) => r == Err::<Vec<Seg>, PathError>(x),
            Ok(s) => r is Ok && segs_model(r->Ok_0@) == s,
        },
{
    let v = crate::text::chars_of(path);
    let body = if v.len() >= 2 && v[0] == '$' && v[1] == '.' {
        path.substring_char(2, v.len())
    } else if v.len() >= 1 && v[0] == '$' {
        path.substring_char(1, v.len())
    } else {
        path
    };
    assert(body@ =~= path_body(path@));
    let parts = crate::strutil::split(body, '.');
    let ghost ps = parts@.map_values(|x: &str| x@);
    let mut out: Vec<Seg> = Vec::new();
    let mut i: usize = 0;
    assert(ps.take(0) =~= Seq::<Seq<char>>::empty());
    assert(segs_model(out@) =~= Seq::<SegModel>::empty());
    while i < parts.len()
        invariant
            ps == parts@.map_values(|x: &str| x@),
            ps == crate::strutil::split_fields(path_body(path@), '.'),
            i <= parts@.len(),
            segments_spec(ps.take(i as int)) == Ok::<Seq<SegModel>, PathError>(segs_model(out@)),
        decreases parts.len() - i,
    {
        let raw = parts[i];
        assert(ps.take(i + 1).drop_last() =~= ps.take(i as int));
        assert(ps.take(i + 1).last() == raw@);
        let ghost before = segs_model(out@);
        if raw.unicode_len() != 0 {
            match split_once(raw, '[') {
                Some((key, brackets)) => {
                    if key.unicode_len() != 0 {
                        push_seg(&mut out, Seg::Key(String::from_str(key)));
                    }
                    let ghost mid = segs_model(out@);
                    let ghost k = first_index(raw@, '[');
                    let mut tail = String::from_str("[");
                    tail.append(brackets);
                    proof {
                        reveal_strlit("[");
                        assert(tail@ =~= raw@.skip(k));
                    }
                    match parse_brackets(tail.as_str(), &mut out) {
                        Ok(()) => {},
                        Err(x) => {
                            proof {
                                lemma_segments_error_prefix(ps, i + 1);
                            }
                            return Err(x);
                        },
                    }
                    proof {
                        let idx = brackets_spec(raw@.skip(k))->Ok_0;
                        if key@.len() > 0 {
                            assert(segs_model(out@) =~= before + (seq![SegModel::Key(key@)] + idx));
                        } else {
                            assert(segs_model(out@) =~= before + idx);
                        }
                    }
                },
                None => {
                    push_seg(&mut out, Seg::Key(String::from_str(raw)));
                    assert(segs_model(out@) =~= before + seq![SegModel::Key(raw@)]);
                },
            }
        } else {
            assert(before + Seq::<SegModel>::empty() =~= before);
        }
        i = i + 1;
    }
    assert(ps.take(parts@.len() as int) =~= ps);
    if out.len() == 0 {
        return Err(PathError::EmptyPath);
    }
    Ok(out)
}

proof fn lemma_segments_error_prefix(parts: Seq<Seq<char>>, j: int)
    requires
        0 <= j <= parts.len(),
        segments_spec(parts.take(j)) is Err,
    ensures
        segments_spec(parts) == segments_spec(parts.take(j)),
    decreases parts.len(),
{
    if j == parts.len() {
        assert(parts.take(j) =~= parts);
    } else {
        assert(parts.drop_last().take(j) =~= parts.take(j));
        lemma_segments_error_prefix(parts.drop_last(), j);
    }
}

/// Whether the bytes are valid UTF-8 (std's `str::from_utf8` succeeds).
#[verifier::external_body]
fn is_utf8(b: &[u8]) -> (r: bool)
    ensures
        r == vstd::utf8::valid_utf8(b@),
{
    std::str::from_utf8(b).is_ok()
}

/// ASCII whitespace: space, tab, line feed, form feed, carriage return.
pub open spec fn is_json_ws(b: u8) -> bool {
    b == 0x20 || b == 0x09 || b == 0x0a || b == 0x0c || b == 0x0d
}

/// The first position from `pos` on that holds no ASCII whitespace.
pub open spec fn ws_end(b: Seq<u8>, pos: int) -> int
    decreases b.len() - pos,
{
    if pos < 0 || pos >= b.len() {
        pos
    } else if is_json_ws(b[pos]) {
        ws_end(b, pos + 1)
    } else {
        pos
    }
}

/// Whitespace skipped from `pos`; `None` only when `pos` is past the end.
pub open spec fn skip_ws_spec(b: Seq<u8>, pos: int) -> Option<int> {
    if pos > b.len() {
        None
    } else {
        Some(ws_end(b, pos))
    }
}

/// A JSON string's bytes from `i` on, decoded into `acc`: a backslash
/// keeps the byte after it; the closing quote ends the string. A backslash
/// before a multi-byte character is refused.
pub open spec fn string_body(b: Seq<u8>, i: int, acc: Seq<u8>) -> Option<(Seq<u8>, int)>
    decreases b.len() - i,
{
    if i < 0 || i >= b.len() {
        None
    } else if b[i] == 0x5c {
        if i + 1 >= b.len() || b[i + 1] >= 0x80 {
            None
        } else {
            string_body(b, i + 2, acc.push(b[i + 1]))
        }
    } else if b[i] == 0x22 {
        Some((acc, i + 1))
    } else {
        string_body(b, i + 1, acc.push(b[i]))
    }
}

/// The JSON string starting at `pos`: its decoded bytes and where it ends.
pub open spec fn string_spec(b: Seq<u8>, pos: int) -> Option<(Seq<u8>, int)> {
    if pos < 0 || pos >= b.len() || b[pos] != 0x22 {
        None
    } else {
        string_body(b, pos + 1, Seq::empty())
    }
}

/// Whether a byte ends an unquoted scalar.
pub open spec fn ends_scalar(x: u8) -> bool {
    x == 0x2c || x == 0x7d || x == 0x5d || x == 0x20 || x == 0x09 || x == 0x0d || x == 0x0a
}

/// Where the unquoted scalar at `i` ends.
pub open spec fn scalar_end(b: Seq<u8>, i: int) -> int
    decreases b.len() - i,
{
    if i < 0 || i >= b.len() || ends_scalar(b[i]) {
        i
    } else {
        scalar_end(b, i + 1)
    }
}

/// Where an object or array ends: brackets of its own kind are counted,
/// strings skipped whole.
pub open spec fn bracket_end(b: Seq<u8>, open: u8, close: u8, i: int, depth: int) -> Option<int>
    decreases b.len() - i,
{
    if i < 0 || i >= b.len() {
        None
    } else if b[i] == 0x22 {
        match string_spec(b, i) {
            None => None,
            Some((_, e)) => {
                proof {
                    lemma_string_end_after(b, i);
                }
                bracket_end(b, open, close, e, depth)
            },
        }
    } else if b[i] == open {
        bracket_end(b, open, close, i + 1, depth + 1)
    } else if b[i] == close {
        if depth - 1 == 0 {
            Some(i + 1)
        } else {
            bracket_end(b, open, close, i + 1, depth - 1)
        }
    } else {
        bracket_end(b, open, close, i + 1, depth)
    }
}

/// Where the JSON value starting at `pos` ends.
pub open spec fn value_end_spec(b: Seq<u8>, pos: int) -> Option<int> {
    if pos < 0 || pos >= b.len() {
        None
    } else if b[pos] == 0x22 {
        match string_spec(b, pos) {
            None => None,
            Some((_, e)) => Some(e),
        }
    } else if b[pos] == 0x7b {
        bracket_end(b, 0x7b, 0x7d, pos, 0)
    } else if b[pos] == 0x5b {
        bracket_end(b, 0x5b, 0x5d, pos, 0)
    } else {
        Some(scalar_end(b, pos))
    }
}

/// Skipping whitespace never moves backwards or past the end.
pub proof fn lemma_ws_end(b: Seq<u8>, pos: int)
    requires
        0 <= pos <= b.len(),
    ensures
        pos <= ws_end(b, pos) <= b.len(),
    decreases b.len() - pos,
{
    if pos < b.len() && is_json_ws(b[pos]) {
        lemma_ws_end(b, pos + 1);
    }
}

/// A string body ends after where it starts, within the bytes.
pub proof fn lemma_string_body_after(b: Seq<u8>, i: int, acc: Seq<u8>)
    ensures
        string_body(b, i, acc) is Some ==> i < string_body(b, i, acc)->Some_0.1 <= b.len(),
    decreases b.len() - i,
{
    if 0 <= i < b.len() {
        if b[i] == 0x5c {
            if i + 1 < b.len() && b[i + 1] < 0x80 {
                lemma_string_body_after(b, i + 2, acc.push(b[i + 1]));
            }
        } else if b[i] != 0x22 {
            lemma_string_body_after(b, i + 1, acc.push(b[i]));
        }
    }
}

/// A string ends after it starts and within the bytes.
pub proof fn lemma_string_end_after(b: Seq<u8>, pos: int)
    ensures
        string_spec(b, pos) is Some ==> pos < string_spec(b, pos)->Some_0.1 <= b.len(),
{
    if 0 <= pos < b.len() && b[pos] == 0x22 {
        lemma_string_body_after(b, pos + 1, Seq::empty());
    }
}

/// An unquoted scalar ends at or after its start, within the bytes.
pub proof fn lemma_scalar_end(b: Seq<u8>, i: int)
    requires
        0 <= i <= b.len(),
    ensures
        i <= scalar_end(b, i) <= b.len(),
    decreases b.len() - i,
{
    if i < b.len() && !ends_scalar(b[i]) {
        lemma_scalar_end(b, i + 1);
    }
}

/// An object or array ends after its start, within the bytes.
pub proof fn lemma_bracket_end(b: Seq<u8>, open: u8, close: u8, i: int, depth: int)
    ensures
        bracket_end(b, open, close, i, depth) is Some ==> i < bracket_end(b, open, close, i, depth)->Some_0 <= b.len(),
    decreases b.len() - i,
{
    if 0 <= i < b.len() {
        if b[i] == 0x22 {
            lemma_string_end_after(b, i);
            match string_spec(b, i) {
                None => {},
                Some((_, e)) => lemma_bracket_end(b, open, close, e, depth),
            }
        } else if b[i] == open {
            lemma_bracket_end(b, open, close, i + 1, depth + 1);
        } else if b[i] == close {
            if depth - 1 != 0 {
                lemma_bracket_end(b, open, close, i + 1, depth - 1);
            }
        } else {
            lemma_bracket_end(b, open, close, i + 1, depth);
        }
    }
}

/// A value ends at or after where it starts, within the bytes.
pub proof fn lemma_value_end(b: Seq<u8>, pos: int)
    ensures
        value_end_spec(b, pos) is Some ==> pos <= value_end_spec(b, pos)->Some_0 <= b.len(),
{
    if 0 <= pos < b.len() {
        lemma_string_end_after(b, pos);
        lemma_bracket_end(b, 0x7b, 0x7d, pos, 0);
        lemma_bracket_end(b, 0x5b, 0x5d, pos, 0);
        lemma_scalar_end(b, pos);
    }
}

/// The outcome of walking an object's members: the first member found, if
/// any, and how many members carried the key.
pub open spec fn key_result(first: Option<int>, count: nat) -> Option<(int, nat)> {
    match first {
        None => None,
        Some(f) => Some((f, count)),
    }
}

/// Inside an object, from `pos`, with `first` and `count` found so far: the
/// start of the first value whose key decodes to `key`, and how many of the
/// members walked carry that key. Members are walked in order up to the
/// closing brace, or up to the first member that is not well-formed.
pub open spec fn key_scan(b: Seq<u8>, pos: int, key: Seq<u8>, first: Option<int>, count: nat) -> Option<(int, nat)>
    decreases b.len() - pos,
{
    if pos < 0 || pos > b.len() {
        key_result(first, count)
    } else {
        let p = ws_end(b, pos);
        if p < b.len() && b[p] == 0x7d {
            key_result(first, count)
        } else {
            match string_spec(b, p) {
                None => key_result(first, count),
                Some((k, after)) => {
                    let colon = ws_end(b, after);
                    if !(colon < b.len() && b[colon] == 0x3a) {
                        key_result(first, count)
                    } else {
                        let vs = ws_end(b, colon + 1);
                        match value_end_spec(b, vs) {
                            None => key_result(first, count),
                            Some(ve) => {
                                let f2 = if k == key && first is None {
                                    Some(vs)
                                } else {
                                    first
                                };
                                let c2: nat = if k == key {
                                    count + 1
                                } else {
                                    count
                                };
                                let p2 = ws_end(b, ve);
                                if p2 < b.len() && b[p2] == 0x2c {
                                    proof {
                                        lemma_ws_end(b, pos);
                                        lemma_string_end_after(b, p);
                                        lemma_ws_end(b, after);
                                        lemma_ws_end(b, colon + 1);
                                        lemma_value_end(b, vs);
                                        lemma_ws_end(b, ve);
                                    }
                                    key_scan(b, p2 + 1, key, f2, c2)
                                } else {
                                    key_result(f2, c2)
                                }
                            },
                        }
                    }
                },
            }
        }
    }
}

/// Inside an array, from `pos`, at element `i`: the start of element `n`.
pub open spec fn index_scan(b: Seq<u8>, pos: int, n: int, i: int) -> Option<int>
    decreases b.len() - pos,
{
    if pos < 0 || pos > b.len() {
        None
    } else {
        let p = ws_end(b, pos);
        if p < b.len() && b[p] == 0x5d {
            None
        } else {
            match value_end_spec(b, p) {
                None => None,
                Some(ve) => if i == n {
                    Some(p)
                } else {
                    let p2 = ws_end(b, ve);
                    if p2 < b.len() && b[p2] == 0x2c {
                        proof {
                            lemma_ws_end(b, pos);
                            lemma_value_end(b, p);
                            lemma_ws_end(b, ve);
                        }
                        index_scan(b, p2 + 1, n, i + 1)
                    } else {
                        None
                    }
                },
            }
        }
    }
}

/// Where a walk along the steps of a data path ends.
pub enum PathHit {
    /// A step is missing, or the text is not well-formed enough to walk.
    Missing,
    /// A key occurs this many times in the object that one step looks into.
    Ambiguous(nat),
    /// The value the steps name starts here.
    At(int),
}

/// One step of the walk from the value at `pos`: where the next value
/// starts and how many members carry the step's key (one for an index).
pub open spec fn step_next(b: Seq<u8>, pos: int, seg: SegModel) -> Option<(int, nat)> {
    match seg {
        SegModel::Key(k) => if 0 <= pos < b.len() && b[pos] == 0x7b {
            key_scan(b, pos + 1, vstd::utf8::encode_utf8(k), None, 0)
        } else {
            None
        },
        SegModel::Index(n) => if 0 <= pos < b.len() && b[pos] == 0x5b {
            match index_scan(b, pos + 1, n as int, 0) {
                None => None,
                Some(p) => Some((p, 1nat)),
            }
        } else {
            None
        },
    }
}

/// The walk along the steps, from the value at `pos`.
pub open spec fn path_scan(b: Seq<u8>, pos: int, segs: Seq<SegModel>) -> PathHit
    decreases segs.len(),
{
    if segs.len() == 0 {
        PathHit::At(pos)
    } else {
        match step_next(b, pos, segs[0]) {
            None => PathHit::Missing,
            Some((p, c)) => if c >= 2 {
                PathHit::Ambiguous(c)
            } else {
                path_scan(b, p, segs.drop_first())
            },
        }
    }
}

/// What a data path finds in a document.
pub enum LookupModel {
    Missing,
    Ambiguous(nat),
    Span(int, int),
}

/// What the steps name in a JSON document: the byte span of the value, or
/// the number of members carrying a key that occurs more than once.
pub open spec fn json_span_spec(b: Seq<u8>, segs: Seq<SegModel>) -> LookupModel {
    if !vstd::utf8::valid_utf8(b) {
        LookupModel::Missing
    } else {
        match path_scan(b, ws_end(b, 0), segs) {
            PathHit::Missing => LookupModel::Missing,
            PathHit::Ambiguous(c) => LookupModel::Ambiguous(c),
            PathHit::At(p) => match value_end_spec(b, p) {
                None => LookupModel::Missing,
                Some(e) => LookupModel::Span(p, e),
            },
        }
    }
}

fn skip_ws(b: &[u8], pos: usize) -> (r: usize)
    requires
        pos <= b@.len(),
    ensures
        r == ws_end(b@, pos as int),
        pos <= r <= b@.len(),
{
    let mut p = pos;
    while p < b.len() && (b[p] == 0x20 || b[p] == 0x09 || b[p] == 0x0a || b[p] == 0x0c || b[p] == 0x0d)
        invariant
            pos <= p <= b@.len(),
            ws_end(b@, pos as int) == ws_end(b@, p as int),
        decreases b.len() - p,
    {
        p = p + 1;
    }
    p
}

fn parse_json_string(b: &[u8], pos: usize) -> (r: Option<(Vec<u8>, usize)>)
    ensures
        match string_spec(b@, pos as int) {
            None => r is None,
            Some((k, e)) => r is Some && r->Some_0.0@ == k && r->Some_0.1 == e,
        },
{
    if pos >= b.len() || b[pos] != 0x22 {
        return None;
    }
    let mut out: Vec<u8> = Vec::new();
    let mut i = pos + 1;
    while i < b.len()
        invariant
            pos < i <= b@.len() + 1,
            i <= b@.len() ==> string_spec(b@, pos as int) == string_body(b@, i as int, out@),
            i > b@.len() ==> string_spec(b@, pos as int) is None,
            b@[pos as int] == 0x22,
            pos < b@.len(),
        decreases b.len() + 1 - i,
    {
        if b[i] == 0x5c {
            if i + 1 >= b.len() || b[i + 1] >= 0x80 {
                return None;
            }
            out.push(b[i + 1]);
            i = i + 2;
        } else if b[i] == 0x22 {
            return Some((out, i + 1));
        } else {
            out.push(b[i]);
            i = i + 1;
        }
    }
    None
}

fn skip_json_value(b: &[u8], pos: usize) -> (r: Option<usize>)
    ensures
        match value_end_spec(b@, pos as int) {
            None => r is None,
            Some(e) => r == Some(e as usize),
        },
{
    if pos >= b.len() {
        return None;
    }
    let first = b[pos];
    if first == 0x22 {
        return match parse_json_string(b, pos) {
            Some((_, e)) => Some(e),
            None => None,
        };
    }
    if first == 0x7b || first == 0x5b {
        let open = first;
        let close: u8 = if open == 0x7b {
            0x7d
        } else {
            0x5d
        };
        let mut depth: usize = 0;
        let mut i = pos;
        while i < b.len()
            invariant
                pos <= i <= b@.len(),
                depth <= i - pos,
                (i == pos && depth == 0) || (i > pos && depth >= 1),
                b@[pos as int] == open,
                open != close,
                open == 0x7b || open == 0x5b,
                value_end_spec(b@, pos as int) == bracket_end(b@, open, close, i as int, depth as int),
            decreases b.len() - i,
        {
            let x = b[i];
            if x == 0x22 {
                match parse_json_string(b, i) {
                    Some((_, e)) => {
                        proof {
                            lemma_string_end_after(b@, i as int);
                        }
                        i = e;
                        continue;
                    },
                    None => {
                        return None;
                    },
                }
            } else if x == open {
                depth = depth + 1;
            } else if x == close {
                if depth <= 1 {
                    if depth == 1 {
                        return Some(i + 1);
                    }
                }
                depth = depth - 1;
            }
            i = i + 1;
        }
        return None;
    }
    let mut i = pos;
    while i < b.len() && !(b[i] == 0x2c || b[i] == 0x7d || b[i] == 0x5d || b[i] == 0x20 || b[i] == 0x09
        || b[i] == 0x0d || b[i] == 0x0a)
        invariant
            pos <= i <= b@.len(),
            scalar_end(b@, pos as int) == scalar_end(b@, i as int),
        decreases b.len() - i,
    {
        i = i + 1;
    }
    Some(i)
}

fn bytes_eq(a: &Vec<u8>, b: &[u8]) -> (r: bool)
    ensures
        r == (a@ == b@),
{
    if a.len() != b.len() {
        return false;
    }
    let mut i: usize = 0;
    while i < a.len()
        invariant
            a@.len() == b@.len(),
            i <= a@.len(),
            forall|k: int| 0 <= k < i ==> a@[k] == b@[k],
        decreases a.len() - i,
    {
        if a[i] != b[i] {
            return false;
        }
        i = i + 1;
    }
    assert(a@ =~= b@);
    true
}

spec fn opt_int(o: Option<usize>) -> Option<int> {
    match o {
        None => None,
        Some(v) => Some(v as int),
    }
}

fn found(first: Option<usize>, count: usize) -> (r: Option<(usize, usize)>)
    ensures
        match r {
            None => key_result(opt_int(first), count as nat) is None,
            Some((f, c)) => key_result(opt_int(first), count as nat) == Some((f as int, c as nat)),
        },
{
    match first {
        None => None,
        Some(f) => Some((f, count)),
    }
}

fn find_key(b: &[u8], pos0: usize, key: &[u8]) -> (r: Option<(usize, usize)>)
    requires
        pos0 <= b@.len(),
    ensures
        match r {
            None => key_scan(b@, pos0 as int, key@, None, 0) is None,
            Some((p, c)) => key_scan(b@, pos0 as int, key@, None, 0) == Some((p as int, c as nat)),
        },
{
    let mut pos = pos0;
    let mut first: Option<usize> = None;
    let mut count: usize = 0;
    loop
        invariant
            pos <= b@.len(),
            count <= pos,
            key_scan(b@, pos0 as int, key@, None, 0) == key_scan(b@, pos as int, key@, opt_int(first), count as nat),
            match first {
                Some(f) => f <= b@.len(),
                None => true,
            },
        decreases b@.len() - pos,
    {
        let p = skip_ws(b, pos);
        if p < b.len() && b[p] == 0x7d {
            return found(first, count);
        }
        let (k, after) = match parse_json_string(b, p) {
            Some(x) => x,
            None => return found(first, count),
        };
        proof {
            lemma_string_end_after(b@, p as int);
        }
        let colon = skip_ws(b, after);
        if !(colon < b.len() && b[colon] == 0x3a) {
            return found(first, count);
        }
        let vs = skip_ws(b, colon + 1);
        let ve = match skip_json_value(b, vs) {
            Some(e) => e,
            None => return found(first, count),
        };
        proof {
            lemma_value_end(b@, vs as int);
        }
        if bytes_eq(&k, key) {
            if first.is_none() {
                first = Some(vs);
            }
            count = count + 1;
        }
        let p2 = skip_ws(b, ve);
        if p2 < b.len() && b[p2] == 0x2c {
            pos = p2 + 1;
        } else {
            return found(first, count);
        }
    }
}

fn find_index(b: &[u8], pos0: usize, n: usize) -> (r: Option<usize>)
    requires
        pos0 <= b@.len(),
    ensures
        match index_scan(b@, pos0 as int, n as int, 0) {
            None => r is None,
            Some(p) => r == Some(p as usize),
        },
{
    let mut pos = pos0;
    let mut i: usize = 0;
    loop
        invariant
            pos <= b@.len(),
            i <= n,
            index_scan(b@, pos0 as int, n as int, 0) == index_scan(b@, pos as int, n as int, i as int),
        decreases b@.len() - pos,
    {
        let p = skip_ws(b, pos);
        if p < b.len() && b[p] == 0x5d {
            return None;
        }
        let ve = match skip_json_value(b, p) {
            Some(e) => e,
            None => return None,
        };
        proof {
            lemma_value_end(b@, p as int);
        }
        if i == n {
            return Some(p);
        }
        let p2 = skip_ws(b, ve);
        if p2 < b.len() && b[p2] == 0x2c {
            pos = p2 + 1;
            i = i + 1;
        } else {
            return None;
        }
    }
}

/// What a data path finds in a document.
#[derive(Debug, Clone, Copy, PartialEq, Eq)]
pub enum Lookup {
    /// Nothing: a step is missing, or the text is not well-formed enough.
    Missing,
    /// A key of the path occurs this many times in one object.
    Ambiguous(usize),
    /// The value's bytes are `start..end`.
    Span(usize, usize),
}

/// A lookup as plain values.
pub open spec fn lookup_model(l: Lookup) -> LookupModel {
    match l {
        Lookup::Missing => LookupModel::Missing,
        Lookup::Ambiguous(c) => LookupModel::Ambiguous(c as nat),
        Lookup::Span(a, e) => LookupModel::Span(a as int, e as int),
    }
}

/// What `segs` names in the JSON document `content`: the byte span of the
/// value; `Ambiguous` with the count when a key of the path occurs more than
/// once in the object it is looked up in; `Missing` when the document is not
/// UTF-8, a step is missing, or the text around it is not well-formed enough
/// to walk.
pub fn json_value_span(content: &[u8], segs: &[Seg]) -> (r: Lookup)
    ensures
        lookup_model(r) == json_span_spec(content@, segs_model(segs@)),
        r matches Lookup::Span(a, e) ==> a <= e <= content@.len(),
{
    if !is_utf8(content) {
        return Lookup::Missing;
    }
    let clen = content.len();
    let ghost sm = segs_model(segs@);
    let mut pos = skip_ws(content, 0);
    let mut k: usize = 0;
    assert(sm.skip(0) =~= sm);
    while k < segs.len()
        invariant
            sm == segs_model(segs@),
            k <= segs@.len(),
            pos <= content@.len(),
            vstd::utf8::valid_utf8(content@),
            path_scan(content@, ws_end(content@, 0), sm) == path_scan(content@, pos as int, sm.skip(k as int)),
        decreases segs.len() - k,
    {
        let ghost rest = sm.skip(k as int);
        assert(rest[0] == seg_model(segs@[k as int]));
        assert(rest.drop_first() =~= sm.skip(k + 1));
        let next: Option<(usize, usize)> = match &segs[k] {
            Seg::Key(key) => {
                if pos < content.len() && content[pos] == 0x7b {
                    let kb = key.as_str().as_bytes();
                    assert(kb@ == vstd::utf8::encode_utf8(key@));
                    let r = find_key(content, pos + 1, kb);
                    assert(r is None ==> step_next(content@, pos as int, rest[0]) is None);
                    assert(r matches Some((p, c)) ==> step_next(content@, pos as int, rest[0]) == Some((p as int, c as nat)));
                    r
                } else {
                    assert(step_next(content@, pos as int, rest[0]) is None);
                    None
                }
            },
            Seg::Index(n) => {
                if pos < content.len() && content[pos] == 0x5b {
                    match find_index(content, pos + 1, *n) {
                        Some(p) => {
                            proof {
                                lemma_index_scan_bound(content@, pos + 1, *n as int, 0);
                            }
                            assert(step_next(content@, pos as int, rest[0]) == Some((p as int, 1nat)));
                            Some((p, 1))
                        },
                        None => {
                            assert(step_next(content@, pos as int, rest[0]) is None);
                            None
                        },
                    }
                } else {
                    assert(step_next(content@, pos as int, rest[0]) is None);
                    None
                }
            },
        };
        assert(match next {
            None => step_next(content@, pos as int, rest[0]) is None,
            Some((p, c)) => step_next(content@, pos as int, rest[0]) == Some((p as int, c as nat)),
        });
        match next {
            Some((p, c)) => {
                if c >= 2 {
                    assert(rest.len() > 0);
                    assert(path_scan(content@, pos as int, rest) == PathHit::Ambiguous(c as nat));
                    assert(vstd::utf8::valid_utf8(content@));
                    assert(path_scan(content@, ws_end(content@, 0), sm) == PathHit::Ambiguous(c as nat));
                    assert(json_span_spec(content@, sm) == LookupModel::Ambiguous(c as nat));
                    return Lookup::Ambiguous(c);
                }
                proof {
                    match seg_model(segs@[k as int]) {
                        SegModel::Key(kk) => {
                            lemma_key_scan_bound(content@, pos + 1, vstd::utf8::encode_utf8(kk), None, 0);
                        },
                        SegModel::Index(nn) => {
                            lemma_index_scan_bound(content@, pos + 1, nn as int, 0);
                        },
                    }
                }
                pos = p;
            },
            None => {
                return Lookup::Missing;
            },
        }
        k = k + 1;
    }
    let end = match skip_json_value(content, pos) {
        Some(e) => e,
        None => return Lookup::Missing,
    };
    proof {
        lemma_value_end(content@, pos as int);
        assert(clen == content@.len());
    }
    Lookup::Span(pos, end)
}

proof fn lemma_key_scan_bound(b: Seq<u8>, pos: int, key: Seq<u8>, first: Option<int>, count: nat)
    requires
        first matches Some(f) ==> 0 <= f <= b.len(),
    ensures
        key_scan(b, pos, key, first, count) matches Some((p, c)) ==> 0 <= p <= b.len(),
    decreases b.len() - pos,
{
    if 0 <= pos <= b.len() {
        lemma_ws_end(b, pos);
        let p = ws_end(b, pos);
        lemma_string_end_after(b, p);
        match string_spec(b, p) {
            None => {},
            Some((k, after)) => {
                lemma_ws_end(b, after);
                let colon = ws_end(b, after);
                if colon < b.len() && b[colon] == 0x3a {
                    lemma_ws_end(b, colon + 1);
                    let vs = ws_end(b, colon + 1);
                    lemma_value_end(b, vs);
                    match value_end_spec(b, vs) {
                        None => {},
                        Some(ve) => {
                            let f2 = if k == key && first is None {
                                Some(vs)
                            } else {
                                first
                            };
                            let c2: nat = if k == key {
                                count + 1
                            } else {
                                count
                            };
                            lemma_ws_end(b, ve);
                            let p2 = ws_end(b, ve);
                            if p2 < b.len() && b[p2] == 0x2c {
                                lemma_key_scan_bound(b, p2 + 1, key, f2, c2);
                            }
                        },
                    }
                }
            },
        }
    }
}

proof fn lemma_index_scan_bound(b: Seq<u8>, pos: int, n: int, i: int)
    ensures
        index_scan(b, pos, n, i) is Some ==> 0 <= index_scan(b, pos, n, i)->Some_0 <= b.len(),
    decreases b.len() - pos,
{
    if 0 <= pos <= b.len() {
        lemma_ws_end(b, pos);
        let p = ws_end(b, pos);
        lemma_value_end(b, p);
        match value_end_spec(b, p) {
            None => {},
            Some(ve) => {
                if i != n {
                    lemma_ws_end(b, ve);
                    let p2 = ws_end(b, ve);
                    if p2 < b.len() && b[p2] == 0x2c {
                        lemma_index_scan_bound(b, p2 + 1, n, i + 1);
                    }
                }
            },
        }
    }
}

/// The first index of a character lies within the text.
pub proof fn lemma_first_index_bound(t: Seq<char>, c: char)
    ensures
        first_index(t, c) >= 0 ==> 0 <= first_index(t, c) < t.len(),
{
    if exists|i: int| crate::text::is_first_index(t, c, i) {
        let k = choose|i: int| crate::text::is_first_index(t, c, i);
        assert(crate::text::is_first_index(t, c, k));
    }
}

/// The number of bytes of the UTF-8 encoding of `s`.
pub open spec fn byte_len(s: Seq<char>) -> int {
    vstd::utf8::encode_utf8(s).len() as int
}

/// `s` without trailing line feeds.
pub open spec fn trim_end_lf(s: Seq<char>) -> Seq<char>
    decreases s.len(),
{
    if s.len() > 0 && s.last() == '\n' {
        trim_end_lf(s.drop_last())
    } else {
        s
    }
}

/// What one YAML line does to the walk: move on (with the depth, the
/// indentation and whether that indentation is fixed yet), or stop with the
/// span of the value inside the line, or stop with nothing.
pub enum LineStep {
    Next(int, int, bool),
    Stop(Option<(int, int)>),
}

/// Where a ` #` comment starts in `v`, looking from `i` on; the length of
/// `v` when there is none. A `#` right at the start is not a comment start.
pub open spec fn comment_from(v: Seq<char>, i: int) -> int
    decreases v.len() - i,
{
    if i < 0 || i >= v.len() {
        v.len() as int
    } else if i >= 1 && crate::text::char_is_whitespace(v[i - 1]) && v[i] == '#' {
        i
    } else {
        comment_from(v, i + 1)
    }
}

/// The inline scalar at the start of `v`: up to a comment, without
/// trailing whitespace.
pub open spec fn scalar_text(v: Seq<char>) -> Seq<char> {
    crate::text::trim_end_ws(v.take(comment_from(v, 0)))
}

/// One line of the YAML walk at depth `depth`. With `fixed`, the keys of
/// this level sit at indentation `want` (in bytes); without, this level's
/// indentation is set by its first line indented deeper than `want`, the
/// indentation of the key above. A mapping key of this level that matches
/// the current step either goes one level deeper or, at the last step,
/// yields the span of its inline scalar value within the line, a trailing
/// comment left out. Block scalars, sequences and empty values are refused.
pub open spec fn yaml_line(line: Seq<char>, segs: Seq<SegModel>, depth: int, want: int, fixed: bool) -> LineStep {
    let stripped = trim_end_lf(line);
    let body = crate::text::trim_start_ws(stripped);
    let indent = byte_len(stripped) - byte_len(body);
    let level = if fixed {
        indent == want
    } else {
        indent > want
    };
    if body.len() > 0 && body[0] != '#' && level {
        if first_index(body, ':') >= 0 {
            let c = first_index(body, ':');
            let key = body.take(c);
            let rest = body.skip(c + 1);
            match segs[depth] {
                SegModel::Index(_) => LineStep::Stop(None),
                SegModel::Key(w) => if crate::text::trim_ws(key) == w {
                    if depth + 1 == segs.len() {
                        let rs = crate::text::trim_start_ws(rest);
                        let value = scalar_text(rs);
                        if value.len() == 0 || value[0] == '|' || value[0] == '>' || value[0] == '#' {
                            LineStep::Stop(None)
                        } else {
                            let at = (stripped.len() - body.len()) + c + 1 + (rest.len() - rs.len());
                            if at < 0 || at + value.len() > line.len() {
                                LineStep::Stop(None)
                            } else {
                                LineStep::Stop(Some((byte_len(line.take(at)), byte_len(line.take(at + value.len())))))
                            }
                        }
                    } else {
                        LineStep::Next(depth + 1, indent, false)
                    }
                } else {
                    LineStep::Next(depth, indent, true)
                },
            }
        } else {
            LineStep::Next(depth, indent, true)
        }
    } else {
        LineStep::Next(depth, want, fixed)
    }
}

/// The first line of `t`, with its line feed.
pub open spec fn first_line(t: Seq<char>) -> Seq<char> {
    if first_index(t, '\n') < 0 {
        t
    } else {
        t.take(first_index(t, '\n') + 1)
    }
}

/// What follows the first line of `t`.
pub open spec fn after_first_line(t: Seq<char>) -> Seq<char> {
    if first_index(t, '\n') < 0 {
        Seq::empty()
    } else {
        t.skip(first_index(t, '\n') + 1)
    }
}

/// The YAML walk over the text `t` that remains, line by line, `offset`
/// bytes into the document.
#[verifier::opaque]
pub open spec fn yaml_walk(t: Seq<char>, segs: Seq<SegModel>, depth: int, want: int, fixed: bool, offset: int) -> Option<(int, int)>
    decreases t.len(),
{
    if t.len() == 0 || depth < 0 || depth >= segs.len() {
        None
    } else {
        proof {
            lemma_first_index_bound(t, '\n');
        }
        match yaml_line(first_line(t), segs, depth, want, fixed) {
            LineStep::Stop(None) => None,
            LineStep::Stop(Some((a, b))) => Some((offset + a, offset + b)),
            LineStep::Next(d, w, f) => yaml_walk(after_first_line(t), segs, d, w, f, offset + byte_len(first_line(t))),
        }
    }
}

/// The byte span of the inline scalar that `segs` names in a YAML
/// document.
pub open spec fn yaml_span_spec(b: Seq<u8>, segs: Seq<SegModel>) -> Option<(int, int)> {
    if !vstd::utf8::valid_utf8(b) {
        None
    } else {
        yaml_walk(vstd::utf8::decode_utf8(b), segs, 0, 0, true, 0)
    }
}

fn trim_end_lf_exec(s: &str) -> (r: &str)
    ensures
        r@ == trim_end_lf(s@),
{
    let v = crate::text::chars_of(s);
    let mut k: usize = v.len();
    assert(s@.take(k as int) =~= s@);
    while k > 0 && v[k - 1] == '\n'
        invariant
            v@ == s@,
            k <= v@.len(),
            trim_end_lf(s@) == trim_end_lf(s@.take(k as int)),
        decreases k,
    {
        assert(s@.take(k as int).drop_last() =~= s@.take(k - 1));
        k = k - 1;
    }
    let r = s.substring_char(0, k);
    assert(r@ =~= s@.take(k as int));
    r
}

fn trim_start_exec(s: &str) -> (r: &str)
    ensures
        r@ == crate::text::trim_start_ws(s@),
{
    let v = crate::text::chars_of(s);
    let n = v.len();
    let mut a: usize = 0;
    assert(s@.subrange(0, n as int) =~= s@);
    while a < n && crate::text::is_whitespace(v[a])
        invariant
            n == v@.len(),
            v@ == s@,
            a <= n,
            crate::text::trim_start_ws(s@) == crate::text::trim_start_ws(s@.subrange(a as int, n as int)),
        decreases n - a,
    {
        assert(s@.subrange(a as int, n as int).drop_first() =~= s@.subrange(a + 1, n as int));
        a = a + 1;
    }
    s.substring_char(a, n)
}

/// The UTF-8 encoding of a concatenation is the concatenation of the
/// encodings.
pub proof fn lemma_encode_concat(a: Seq<char>, b: Seq<char>)
    ensures
        vstd::utf8::encode_utf8(a + b) == vstd::utf8::encode_utf8(a) + vstd::utf8::encode_utf8(b),
    decreases a.len(),
{
    if a.len() == 0 {
        assert(a + b =~= b);
        assert(Seq::<u8>::empty() + vstd::utf8::encode_utf8(b) =~= vstd::utf8::encode_utf8(b));
    } else {
        assert((a + b).drop_first() =~= a.drop_first() + b);
        assert((a + b)[0] == a[0]);
        lemma_encode_concat(a.drop_first(), b);
        assert(vstd::utf8::encode_utf8(a + b) =~= vstd::utf8::encode_scalar(a[0] as u32)
            + (vstd::utf8::encode_utf8(a.drop_first()) + vstd::utf8::encode_utf8(b)));
    }
}

/// A prefix and the rest of a text share out its bytes.
pub proof fn lemma_byte_len_split(s: Seq<char>, k: int)
    requires
        0 <= k <= s.len(),
    ensures
        byte_len(s.take(k)) + byte_len(s.skip(k)) == byte_len(s),
{
    assert(s.take(k) + s.skip(k) =~= s);
    lemma_encode_concat(s.take(k), s.skip(k));
}

proof fn lemma_trim_start_is_suffix(s: Seq<char>)
    ensures
        exists|k: int| 0 <= k <= s.len() && crate::text::trim_start_ws(s) == s.skip(k),
    decreases s.len(),
{
    if s.len() > 0 && crate::text::char_is_whitespace(s[0]) {
        lemma_trim_start_is_suffix(s.drop_first());
        let k = choose|k: int| 0 <= k <= s.drop_first().len() && crate::text::trim_start_ws(s.drop_first()) == s.drop_first().skip(k);
        assert(s.drop_first().skip(k) =~= s.skip(k + 1));
    } else {
        assert(s.skip(0) =~= s);
    }
}

/// The number of bytes of `s` in UTF-8.
fn byte_len_exec(s: &str) -> (r: usize)
    ensures
        r == byte_len(s@),
{
    s.as_bytes().len()
}

fn trim_end_exec(s: &str) -> (r: &str)
    ensures
        r@ == crate::text::trim_end_ws(s@),
{
    let v = crate::text::chars_of(s);
    let mut k: usize = v.len();
    assert(s@.take(k as int) =~= s@);
    while k > 0 && crate::text::is_whitespace(v[k - 1])
        invariant
            v@ == s@,
            k <= v@.len(),
            crate::text::trim_end_ws(s@) == crate::text::trim_end_ws(s@.take(k as int)),
        decreases k,
    {
        assert(s@.take(k as int).drop_last() =~= s@.take(k - 1));
        k = k - 1;
    }
    let r = s.substring_char(0, k);
    assert(r@ =~= s@.take(k as int));
    r
}

fn comment_from_exec(v: &Vec<char>) -> (r: usize)
    ensures
        r == comment_from(v@, 0),
        r <= v@.len(),
{
    let mut i: usize = 0;
    while i < v.len()
        invariant
            i <= v@.len(),
            comment_from(v@, 0) == comment_from(v@, i as int),
        decreases v.len() - i,
    {
        if i >= 1 && crate::text::is_whitespace(v[i - 1]) && v[i] == '#' {
            return i;
        }
        i = i + 1;
    }
    v.len()
}

/// One YAML line of the walk.
#[verifier::spinoff_prover]
#[verifier::rlimit(100)]
fn yaml_line_exec(line: &str, segs: &[Seg], depth: usize, want: u128, fixed: bool) -> (r: (bool, usize, u128, bool, Option<(usize, usize)>))
    requires
        depth < segs@.len(),
    ensures
        r.4 is Some ==> r.4->Some_0.0 <= r.4->Some_0.1 <= byte_len(line@),
        match yaml_line(line@, segs_model(segs@), depth as int, want as int, fixed) {
            LineStep::Next(d, nw, nf) => !r.0 && r.1 == d && r.2 == nw && r.3 == nf,
            LineStep::Stop(x) => r.0 && match x {
                None => r.4 is None,
                Some((a, b)) => r.4 == Some((a as usize, b as usize)) && 0 <= a <= b <= byte_len(line@),
            },
        },
{
    let ll = byte_len_exec(line);
    let lc = line.unicode_len();
    let stripped = trim_end_lf_exec(line);
    let body = trim_start_exec(stripped);
    proof {
        lemma_trim_start_is_suffix(stripped@);
        let k = choose|k: int| 0 <= k <= stripped@.len() && crate::text::trim_start_ws(stripped@) == stripped@.skip(k);
        lemma_byte_len_split(stripped@, k);
        lemma_trim_end_lf_prefix(line@);
    }
    let indent = byte_len_exec(stripped) - byte_len_exec(body);
    let level = if fixed {
        indent as u128 == want
    } else {
        indent as u128 > want
    };
    let bv = crate::text::chars_of(body);
    if bv.len() > 0 && bv[0] != '#' && level {
        match split_once(body, ':') {
            Some((key, rest)) => {
                let w = match &segs[depth] {
                    Seg::Key(k) => k,
                    Seg::Index(_) => return (true, 0, 0, true, None),
                };
                if crate::text::str_eq(crate::text::trim(key), w.as_str()) {
                    if depth + 1 == segs.len() {
                        let rs = trim_start_exec(rest);
                        let rv = crate::text::chars_of(rs);
                        let cut = comment_from_exec(&rv);
                        let head = rs.substring_char(0, cut);
                        assert(head@ =~= rs@.take(cut as int));
                        let value = trim_end_exec(head);
                        let vv = crate::text::chars_of(value);
                        if vv.len() == 0 || vv[0] == '|' || vv[0] == '>' || vv[0] == '#' {
                            return (true, 0, 0, true, None);
                        }
                        proof {
                            lemma_trim_start_is_suffix(rest@);
                            let k2 = choose|k: int| 0 <= k <= rest@.len() && crate::text::trim_start_ws(rest@) == rest@.skip(k);
                            let k1 = choose|k: int| 0 <= k <= stripped@.len() && crate::text::trim_start_ws(stripped@) == stripped@.skip(k);
                            assert(rs@.len() <= rest@.len());
                            assert(body@.len() <= stripped@.len());
                            assert(key@.len() + 1 + rest@.len() == body@.len());
                            assert(vv@.len() <= rs@.len()) by {
                                lemma_trim_end_shorter(head@);
                            }
                        }
                        let at = (stripped.unicode_len() - body.unicode_len()) + key.unicode_len() + 1 + (
                        rest.unicode_len() - rs.unicode_len());
                        if vv.len() > lc - at {
                            return (true, 0, 0, true, None);
                        }
                        let end = at + vv.len();
                        let pre_str = line.substring_char(0, at);
                        let upto_str = line.substring_char(0, end);
                        proof {
                            assert(pre_str@ =~= line@.take(at as int));
                            assert(upto_str@ =~= line@.take(end as int));
                            lemma_byte_len_split(line@, end as int);
                            assert(line@.take(end as int).take(at as int) =~= line@.take(at as int));
                            lemma_byte_len_split(line@.take(end as int), at as int);
                        }
                        let pre = byte_len_exec(pre_str);
                        let upto = byte_len_exec(upto_str);
                        return (true, 0, 0, true, Some((pre, upto)));
                    }
                    return (false, depth + 1, indent as u128, false, None);
                }
                (false, depth, indent as u128, true, None)
            },
            None => (false, depth, indent as u128, true, None),
        }
    } else {
        (false, depth, want, fixed, None)
    }
}

proof fn lemma_trim_end_shorter(s: Seq<char>)
    ensures
        crate::text::trim_end_ws(s).len() <= s.len(),
    decreases s.len(),
{
    if s.len() > 0 && crate::text::char_is_whitespace(s.last()) {
        lemma_trim_end_shorter(s.drop_last());
    }
}

proof fn lemma_trim_end_lf_prefix(s: Seq<char>)
    ensures
        trim_end_lf(s).len() <= s.len(),
    decreases s.len(),
{
    if s.len() > 0 && s.last() == '\n' {
        lemma_trim_end_lf_prefix(s.drop_last());
    }
}

/// The byte span of the inline scalar that `segs` names in the YAML
/// document `content`.
#[verifier::spinoff_prover]
#[verifier::rlimit(100)]
pub fn yaml_scalar_span(content: &[u8], segs: &[Seg]) -> (r: Option<(usize, usize)>)
    ensures
        r is Some ==> r->Some_0.0 <= r->Some_0.1 <= content@.len(),
        yaml_span_spec(content@, segs_model(segs@)) is Some ==> 0 <= yaml_span_spec(
            content@,
            segs_model(segs@),
        )->Some_0.0 <= yaml_span_spec(content@, segs_model(segs@))->Some_0.1 <= content@.len(),
        match yaml_span_spec(content@, segs_model(segs@)) {
            None => r is None,
            Some((a, e)) => r == Some((a as usize, e as usize)),
        },
{
    if !is_utf8(content) {
        return None;
    }
    let clen = content.len();
    let text_owned = crate::text::lossy_string(content);
    proof {
        vstd::utf8::decode_utf8_encode_utf8(content@);
    }
    let ghost sm = segs_model(segs@);
    let mut t: &str = text_owned.as_str();
    let mut depth: usize = 0;
    let mut want: u128 = 0;
    let mut fixed: bool = true;
    let mut offset: usize = 0;
    let ghost whole = yaml_span_spec(content@, sm);
    assert(Seq::<char>::empty() + t@ =~= t@);
    loop
        invariant
            sm == segs_model(segs@),
            whole == yaml_span_spec(content@, sm),
            whole == yaml_walk(t@, sm, depth as int, want as int, fixed, offset as int),
            offset + byte_len(t@) == content@.len(),
            clen == content@.len(),
        decreases t@.len(),
    {
        if t.unicode_len() == 0 || depth >= segs.len() {
            proof {
                lemma_walk_end(t@, sm, depth as int, want as int, fixed, offset as int);
            }
            return None;
        }
        proof {
            lemma_first_index_bound(t@, '\n');
            lemma_walk_step(t@, sm, depth as int, want as int, fixed, offset as int);
        }
        let (line, more) = match split_once(t, '\n') {
            Some((a, b)) => {
                let mut l = String::from_str(a);
                l.append("\n");
                proof {
                    reveal_strlit("\n");
                    assert(l@ =~= t@.take(first_index(t@, '\n') + 1));
                }
                (l, b)
            },
            None => {
                let e = t.substring_char(0, 0);
                assert(e@ =~= Seq::<char>::empty());
                (String::from_str(t), e)
            },
        };
        proof {
            assert(line@ == first_line(t@));
            assert(more@ == after_first_line(t@));
            if first_index(t@, '\n') >= 0 {
                lemma_byte_len_split(t@, first_index(t@, '\n') + 1);
            } else {
                assert(byte_len(more@) == 0);
            }
        }
        let line_len = byte_len_exec(line.as_str());
        let (stop, d, w, f, span) = yaml_line_exec(line.as_str(), segs, depth, want, fixed);
        if stop {
            return match span {
                Some((a, b)) => Some((offset + a, offset + b)),
                None => None,
            };
        }
        depth = d;
        want = w;
        fixed = f;
        offset = offset + line_len;
        t = more;
    }
}

/// One step of the YAML walk: the first line decides.
pub proof fn lemma_walk_step(t: Seq<char>, segs: Seq<SegModel>, d: int, w: int, f: bool, off: int)
    requires
        t.len() > 0,
        0 <= d < segs.len(),
    ensures
        yaml_walk(t, segs, d, w, f, off) == match yaml_line(first_line(t), segs, d, w, f) {
            LineStep::Stop(None) => None,
            LineStep::Stop(Some((a, b))) => Some((off + a, off + b)),
            LineStep::Next(d2, w2, f2) => yaml_walk(after_first_line(t), segs, d2, w2, f2, off + byte_len(first_line(t))),
        },
{
    reveal(yaml_walk);
}

/// The walk over nothing, or past the last step, finds nothing.
pub proof fn lemma_walk_end(t: Seq<char>, segs: Seq<SegModel>, d: int, w: int, f: bool, off: int)
    requires
        t.len() == 0 || d < 0 || d >= segs.len(),
    ensures
        yaml_walk(t, segs, d, w, f, off) is None,
{
    reveal(yaml_walk);
}

/// Whether serde_json accepts the text as a JSON document.
pub uninterp spec fn json_accepts(s: Seq<char>) -> bool;

/// serde_json's parse of `s` into a `serde_json::Value`, reporting only
/// whether it succeeded. The JSON grammar itself is not spelled out here.
#[verifier::external_body]
fn json_valid(s: &str) -> (r: bool)
    ensures
        r == json_accepts(s@),
{
    serde_json::from_str::<serde_json::Value>(s).is_ok()
}

/// The contents of the JSON text `s` when serde_json parses it as a
/// string; `None` for any other value or a parse error.
pub uninterp spec fn json_string_value(s: Seq<char>) -> Option<Seq<char>>;

/// serde_json's compact rendering of the value it parses from `s`.
pub uninterp spec fn json_compact_text(s: Seq<char>) -> Seq<char>;

/// Parses `s` with `serde_json::from_str` and hands out a string value's
/// contents; any other value, or a parse error, gives `None`. The decoding
/// of escapes is serde_json's and is not spelled out here.
#[verifier::external_body]
fn json_string_contents(s: &str) -> (r: Option<String>)
    ensures
        match r {
            Some(v) => json_string_value(s@) == Some(v@),
            None => json_string_value(s@) is None,
        },
{
    match serde_json::from_str::<serde_json::Value>(s) {
        Ok(serde_json::Value::String(v)) => Some(v),
        Ok(_) => None,
        Err(_) => None,
    }
}

/// Parses `s` with `serde_json::from_str` and renders the value with its
/// `Display` (compact JSON). The rendering is serde_json's and is not
/// spelled out here. Callers pass text that serde_json accepts.
#[verifier::external_body]
fn json_compact(s: &str) -> (r: String)
    requires
        json_accepts(s@),
    ensures
        r@ == json_compact_text(s@),
{
    match serde_json::from_str::<serde_json::Value>(s) {
        Ok(v) => v.to_string(),
        Err(_) => String::new(),
    }
}

/// The YAML scalar text for a JSON value: a string's contents, else the
/// value's compact JSON.
pub open spec fn yaml_scalar_text(s: Seq<char>) -> Seq<char> {
    match json_string_value(s) {
        Some(v) => v,
        None => json_compact_text(s),
    }
}

/// The YAML scalar text for the JSON value `s`.
pub fn yaml_scalar(s: &str) -> (r: String)
    requires
        json_accepts(s@),
    ensures
        r@ == yaml_scalar_text(s@),
{
    match json_string_contents(s) {
        Some(v) => v,
        None => json_compact(s),
    }
}

/// Why a `data set` request was refused before any document was read.
#[derive(Debug, Clone, Copy, PartialEq, Eq)]
pub enum DataError {
    /// The data path is malformed.
    Path(PathError),
    /// `--value-json` is not valid JSON.
    InvalidValueJson,
}

/// What a `data set` does to a document.
#[derive(Debug)]
pub enum DataPlan {
    /// Nothing to write; the request ends with this status, the path
    /// having matched `matches` values.
    Refuse { status: Status, matches: usize },
    /// Replace the bytes `start..end` by `text`.
    Replace { start: usize, end: usize, text: String },
    /// A TOML document, edited through its document model.
    Toml(Vec<Seg>),
}

/// A data plan as plain values.
pub enum DataPlanModel {
    Refuse(Status, nat),
    Replace(int, int, Seq<char>),
    Toml(Seq<SegModel>),
}

/// The model of a plan.
pub open spec fn plan_model(p: DataPlan) -> DataPlanModel {
    match p {
        DataPlan::Refuse { status, matches } => DataPlanModel::Refuse(status, matches as nat),
        DataPlan::Replace { start, end, text } => DataPlanModel::Replace(start as int, end as int, text@),
        DataPlan::Toml(v) => DataPlanModel::Toml(segs_model(v@)),
    }
}

/// The plan for setting the value at `path` to `value_json` in a document
/// with extension `ext`: JSON and YAML values are replaced in place (an
/// identical value is already satisfied, a missing one not found), TOML
/// goes through its document model, other formats are not found.
pub open spec fn data_plan_spec(content: Seq<u8>, path: Seq<char>, value_json: Seq<char>, ext: Seq<char>) -> Result<DataPlanModel, DataError> {
    match parse_path_spec(path) {
        Err(e) => Err(DataError::Path(e)),
        Ok(segs) => if !json_accepts(value_json) {
            Err(DataError::InvalidValueJson)
        } else {
            let e = crate::text::ascii_lower(ext);
            if e == "toml"@ {
                Ok(DataPlanModel::Toml(segs))
            } else {
                let lookup = if e == "json"@ {
                    json_span_spec(content, segs)
                } else if e == "yaml"@ || e == "yml"@ {
                    match yaml_span_spec(content, segs) {
                        Some((a, b)) => LookupModel::Span(a, b),
                        None => LookupModel::Missing,
                    }
                } else {
                    LookupModel::Missing
                };
                let t = if e == "json"@ {
                    crate::text::trim_ws(value_json)
                } else {
                    yaml_scalar_text(value_json)
                };
                match lookup {
                    LookupModel::Missing => Ok(DataPlanModel::Refuse(Status::NotFound, 0)),
                    LookupModel::Ambiguous(c) => Ok(DataPlanModel::Refuse(Status::Ambiguous, c)),
                    LookupModel::Span(a, b) => if content.subrange(a, b) == vstd::utf8::encode_utf8(t) {
                        Ok(DataPlanModel::Refuse(Status::AlreadySatisfied, 1))
                    } else {
                        Ok(DataPlanModel::Replace(a, b, t))
                    },
                }
            }
        },
    }
}

/// Plans `data set` / `data ensure` on a document.
pub fn plan_data_set(content: &[u8], path: &str, value_json: &str, ext: &str) -> (r: Result<DataPlan, DataError>)
    ensures
        match data_plan_spec(content@, path@, value_json@, ext@) {
            Err(e) => r == Err::<DataPlan, DataError>(e),
            Ok(m) => r is Ok && plan_model(r->Ok_0) == m,
        },
{
    let clen = content.len();
    let segs = match parse_path(path) {
        Ok(s) => s,
        Err(e) => return Err(DataError::Path(e)),
    };
    if !json_valid(value_json) {
        return Err(DataError::InvalidValueJson);
    }
    let e = crate::text::to_ascii_lower(ext);
    if crate::text::str_eq(e.as_str(), "toml") {
        return Ok(DataPlan::Toml(segs));
    }
    let is_json = crate::text::str_eq(e.as_str(), "json");
    let lookup = if is_json {
        json_value_span(content, segs.as_slice())
    } else if crate::text::str_eq(e.as_str(), "yaml") || crate::text::str_eq(e.as_str(), "yml") {
        match yaml_scalar_span(content, segs.as_slice()) {
            Some((a, b)) => Lookup::Span(a, b),
            None => Lookup::Missing,
        }
    } else {
        Lookup::Missing
    };
    assert(clen == content@.len());
    match lookup {
        Lookup::Missing => Ok(DataPlan::Refuse { status: Status::NotFound, matches: 0 }),
        Lookup::Ambiguous(c) => Ok(DataPlan::Refuse { status: Status::Ambiguous, matches: c }),
        Lookup::Span(a, b) => {
            let t = if is_json {
                String::from_str(crate::text::trim(value_json))
            } else {
                yaml_scalar(value_json)
            };
            let current = slice_bytes(content, a, b);
            let tb = t.as_str().as_bytes();
            if bytes_eq_slices(current, tb) {
                Ok(DataPlan::Refuse { status: Status::AlreadySatisfied, matches: 1 })
            } else {
                Ok(DataPlan::Replace { start: a, end: b, text: t })
            }
        },
    }
}

fn slice_bytes(b: &[u8], start: usize, end: usize) -> (r: &[u8])
    requires
        start <= end <= b@.len(),
    ensures
        r@ == b@.subrange(start as int, end as int),
{
    let (head, _) = b.split_at(end);
    let (_, tail) = head.split_at(start);
    assert(tail@ =~= b@.subrange(start as int, end as int));
    tail
}

fn bytes_eq_slices(a: &[u8], b: &[u8]) -> (r: bool)
    ensures
        r == (a@ == b@),
{
    if a.len() != b.len() {
        return false;
    }
    let mut i: usize = 0;
    while i < a.len()
        invariant
            a@.len() == b@.len(),
            i <= a@.len(),
            forall|k: int| 0 <= k < i ==> a@[k] == b@[k],
        decreases a.len() - i,
    {
        if a[i] != b[i] {
            return false;
        }
        i = i + 1;
    }
    assert(a@ =~= b@);
    true
}

} // verus!
