//! String and path helpers over `/`-separated logical paths.
//!
//! The path helpers are character-exact: a path's extension is whatever
//! follows the last `.`, provided that `.` comes after the last `/`.

use vstd::prelude::*;
use vstd::string::*;
use crate::text::{chars_of, push_char, last_index, is_last_index, lemma_last_index_unique, lemma_last_index_absent, rfind_char};

verus! {

broadcast use vstd::string::group_string_axioms;

/// `s` with every trailing `c` removed.
pub open spec fn trim_end_spec(s: Seq<char>, c: char) -> Seq<char>
    decreases s.len(),
{
    if s.len() > 0 && s.last() == c {
        trim_end_spec(s.drop_last(), c)
    } else {
        s
    }
}

/// `s` with every leading `c` removed.
pub open spec fn trim_start_spec(s: Seq<char>, c: char) -> Seq<char>
    decreases s.len(),
{
    if s.len() > 0 && s[0] == c {
        trim_start_spec(s.drop_first(), c)
    } else {
        s
    }
}

/// The join of two path components: one `/` between the trimmed parts; an
/// empty component (before or after trimming) yields the other one.
pub open spec fn join_spec(base: Seq<char>, name: Seq<char>) -> Seq<char> {
    if base.len() == 0 {
        name
    } else if name.len() == 0 {
        base
    } else {
        let b = trim_end_spec(base, '/');
        let n = trim_start_spec(name, '/');
        if b.len() == 0 {
            n
        } else if n.len() == 0 {
            b
        } else {
            b + seq!['/'] + n
        }
    }
}

/// Left fold of `join_spec` over `parts`; the empty list joins to `""`.
pub open spec fn join_n_spec(parts: Seq<Seq<char>>) -> Seq<char>
    decreases parts.len(),
{
    if parts.len() == 0 {
        Seq::empty()
    } else if parts.len() == 1 {
        parts[0]
    } else {
        join_spec(join_n_spec(parts.drop_last()), parts.last())
    }
}

/// The path has an extension delimiter: a `.` after its last `/`.
pub open spec fn has_ext_dot(p: Seq<char>) -> bool {
    last_index(p, '.') >= 0 && last_index(p, '.') >= last_index(p, '/')
}

/// Extension of a path (without the dot), or empty.
pub open spec fn ext_spec(p: Seq<char>) -> Seq<char> {
    if has_ext_dot(p) {
        p.subrange(last_index(p, '.') + 1, p.len() as int)
    } else {
        Seq::empty()
    }
}

/// The path without its extension and dot; unchanged when it has none.
pub open spec fn strip_ext_spec(p: Seq<char>) -> Seq<char> {
    if has_ext_dot(p) {
        p.subrange(0, last_index(p, '.'))
    } else {
        p
    }
}

/// Final component: everything after the last `/` (the whole path without one).
pub open spec fn base_spec(p: Seq<char>) -> Seq<char> {
    if last_index(p, '/') >= 0 {
        p.subrange(last_index(p, '/') + 1, p.len() as int)
    } else {
        p
    }
}

/// Directory part: everything before the last `/`, or `"."` without one.
pub open spec fn dir_spec(p: Seq<char>) -> Seq<char> {
    if last_index(p, '/') >= 0 {
        p.subrange(0, last_index(p, '/'))
    } else {
        seq!['.']
    }
}

/// `sub` occurs in `s` at position `i`.
pub open spec fn occurs_at(s: Seq<char>, sub: Seq<char>, i: int) -> bool {
    0 <= i && i + sub.len() <= s.len() && s.subrange(i, i + sub.len()) == sub
}

/// Number of trailing `c` characters that `trim_end_spec` removes.
fn trim_end_index(v: &Vec<char>, c: char) -> (k: usize)
    ensures
        k <= v@.len(),
        trim_end_spec(v@, c) == v@.take(k as int),
{
    let mut i = v.len();
    assert(v@.take(i as int) =~= v@);
    while i > 0 && v[i - 1] == c
        invariant
            i <= v@.len(),
            trim_end_spec(v@, c) == trim_end_spec(v@.take(i as int), c),
        decreases i,
    {
        assert(v@.take(i as int).drop_last() =~= v@.take(i - 1));
        i = i - 1;
    }
    i
}

/// Number of leading `c` characters that `trim_start_spec` removes.
fn trim_start_index(v: &Vec<char>, c: char) -> (k: usize)
    ensures
        k <= v@.len(),
        trim_start_spec(v@, c) == v@.subrange(k as int, v@.len() as int),
{
    let mut i: usize = 0;
    assert(v@.subrange(0, v@.len() as int) =~= v@);
    while i < v.len() && v[i] == c
        invariant
            i <= v@.len(),
            trim_start_spec(v@, c) == trim_start_spec(v@.subrange(i as int, v@.len() as int), c),
        decreases v@.len() - i,
    {
        assert(v@.subrange(i as int, v@.len() as int).drop_first() =~= v@.subrange(
            i + 1,
            v@.len() as int,
        ));
        i = i + 1;
    }
    i
}

/// Join two path components with a single `/`.
///
/// A trailing `/` on `base` and leading `/`s on `name` are stripped before
/// joining. An empty component yields the other component unchanged.
pub fn path_join(base: &str, name: &str) -> (out: String)
    ensures
        out@ == join_spec(base@, name@),
{
    let bv = chars_of(base);
    let nv = chars_of(name);
    if bv.len() == 0 {
        return name.to_owned();
    }
    if nv.len() == 0 {
        return base.to_owned();
    }
    let bk = trim_end_index(&bv, '/');
    let nk = trim_start_index(&nv, '/');
    let b = base.substring_char(0, bk);
    let n = name.substring_char(nk, nv.len());
    if bk == 0 {
        return n.to_owned();
    }
    if nk == nv.len() {
        return b.to_owned();
    }
    let mut out = b.to_owned();
    push_char(&mut out, '/');
    out.append(n);
    out
}

/// Join an arbitrary number of path components, folding [`path_join`]
/// left to right. No components join to the empty string.
pub fn path_join_n(parts: &[&str]) -> (out: String)
    ensures
        out@ == join_n_spec(parts@.map_values(|p: &str| p@)),
{
    let ghost views = parts@.map_values(|p: &str| p@);
    if parts.len() == 0 {
        return String::new();
    }
    let mut acc = parts[0].to_owned();
    let mut i: usize = 1;
    assert(views.take(1) =~= seq![views[0]]);
    while i < parts.len()
        invariant
            1 <= i <= parts@.len(),
            views == parts@.map_values(|p: &str| p@),
            acc@ == join_n_spec(views.take(i as int)),
        decreases parts@.len() - i,
    {
        let next = path_join(acc.as_str(), parts[i]);
        assert(views.take(i + 1).drop_last() =~= views.take(i as int));
        acc = next;
        i = i + 1;
    }
    assert(views.take(parts@.len() as int) =~= views);
    acc
}

/// Return the extension of a path (without the dot), or `""`.
///
/// The last `.` must come after the last `/`, so a root-level dotfile such
/// as `.gitignore` counts its leading `.` as the delimiter.
pub fn path_ext(path: &str) -> (out: &str)
    ensures
        out@ == ext_spec(path@),
{
    let v = chars_of(path);
    let n = v.len();
    let dot = rfind_char(&v, '.');
    let slash = rfind_char(&v, '/');
    proof {
        reveal_strlit("");
    }
    match dot {
        None => "",
        Some(d) => {
            if let Some(s) = slash {
                if d < s {
                    return "";
                }
            }
            path.substring_char(d + 1, n)
        },
    }
}

/// Return the final component of a `/`-separated path (basename).
///
/// With no `/`, the whole string is returned. A trailing `/` yields an
/// empty basename.
pub fn path_base(path: &str) -> (out: &str)
    ensures
        out@ == base_spec(path@),
{
    let v = chars_of(path);
    let n = v.len();
    match rfind_char(&v, '/') {
        Some(i) => path.substring_char(i + 1, n),
        None => path,
    }
}

/// Return the directory portion of a `/`-separated path.
///
/// With no `/`, returns `"."`. The trailing slash is not included.
pub fn path_dir(path: &str) -> (out: &str)
    ensures
        out@ == dir_spec(path@),
{
    let v = chars_of(path);
    match rfind_char(&v, '/') {
        Some(i) => path.substring_char(0, i),
        None => {
            proof {
                reveal_strlit(".");
            }
            "."
        },
    }
}

/// Strip the extension (and its dot) from a path; a path without an
/// extension (per [`path_ext`]'s rule) is returned unchanged.
pub fn strip_ext(path: &str) -> (out: &str)
    ensures
        out@ == strip_ext_spec(path@),
{
    let v = chars_of(path);
    let dot = rfind_char(&v, '.');
    let slash = rfind_char(&v, '/');
    match dot {
        None => path,
        Some(d) => {
            if let Some(s) = slash {
                if d < s {
                    return path;
                }
            }
            path.substring_char(0, d)
        },
    }
}

/// `sub` occurs in `v` at `i` (executable check).
pub(crate) fn occurs_at_exec(v: &Vec<char>, sub: &Vec<char>, i: usize) -> (r: bool)
    requires
        i + sub@.len() <= v@.len(),
    ensures
        r == occurs_at(v@, sub@, i as int),
{
    let n = v.len();
    let mut j: usize = 0;
    while j < sub.len()
        invariant
            n == v@.len(),
            j <= sub@.len(),
            i + sub@.len() <= v@.len(),
            forall|k: int| 0 <= k < j ==> v@[i + k] == sub@[k],
        decreases sub@.len() - j,
    {
        if v[i + j] != sub[j] {
            assert(v@.subrange(i as int, i + sub@.len())[j as int] != sub@[j as int]);
            return false;
        }
        j = j + 1;
    }
    assert(v@.subrange(i as int, i + sub@.len()) =~= sub@);
    true
}

/// Whether `s` begins with `prefix`.
pub fn starts_with(s: &str, prefix: &str) -> (r: bool)
    ensures
        r == occurs_at(s@, prefix@, 0),
{
    let v = chars_of(s);
    let p = chars_of(prefix);
    if p.len() > v.len() {
        return false;
    }
    occurs_at_exec(&v, &p, 0)
}

/// Whether `s` ends with `suffix`.
pub fn ends_with(s: &str, suffix: &str) -> (r: bool)
    ensures
        r == occurs_at(s@, suffix@, s@.len() - suffix@.len()),
{
    let v = chars_of(s);
    let p = chars_of(suffix);
    if p.len() > v.len() {
        return false;
    }
    occurs_at_exec(&v, &p, v.len() - p.len())
}

/// Whether `s` contains `sub`. An empty `sub` is contained by every string.
pub fn contains(s: &str, sub: &str) -> (r: bool)
    ensures
        r == exists|i: int| occurs_at(s@, sub@, i),
{
    let v = chars_of(s);
    let p = chars_of(sub);
    if p.len() > v.len() {
        assert forall|i: int| !occurs_at(s@, sub@, i) by {}
        return false;
    }
    let n = v.len();
    let m = p.len();
    let last = n - m;
    let mut i: usize = 0;
    loop
        invariant
            n == v@.len(),
            m == p@.len(),
            last == n - m,
            i <= last,
            v@ == s@,
            p@ == sub@,
            forall|k: int| 0 <= k < i ==> !occurs_at(s@, sub@, k),
        ensures
            forall|k: int| 0 <= k <= last ==> !occurs_at(s@, sub@, k),
        decreases last - i,
    {
        if occurs_at_exec(&v, &p, i) {
            return true;
        }
        if i == last {
            break;
        }
        i = i + 1;
    }
    assert forall|k: int| !occurs_at(s@, sub@, k) by {
        if 0 <= k && k + sub@.len() <= s@.len() {
            assert(k <= last);
        }
    }
    false
}

/// Fields joined back together with `c` between consecutive fields.
pub open spec fn join_with(fields: Seq<Seq<char>>, c: char) -> Seq<char>
    decreases fields.len(),
{
    if fields.len() == 0 {
        Seq::empty()
    } else if fields.len() == 1 {
        fields[0]
    } else {
        join_with(fields.drop_last(), c) + seq![c] + fields.last()
    }
}

/// Number of occurrences of `c` in `s`.
pub open spec fn count_char(s: Seq<char>, c: char) -> nat
    decreases s.len(),
{
    if s.len() == 0 {
        0
    } else {
        count_char(s.drop_last(), c) + if s.last() == c {
            1nat
        } else {
            0nat
        }
    }
}

/// `fields` is the split of `s` on `c`: at least one field, no field holds
/// `c`, and joining the fields with `c` gives `s` back.
pub open spec fn is_split_of(fields: Seq<Seq<char>>, s: Seq<char>, c: char) -> bool {
    &&& fields.len() >= 1
    &&& forall|i: int, j: int|
        0 <= i < fields.len() && 0 <= j < fields[i].len() ==> #[trigger] fields[i][j] != c
    &&& join_with(fields, c) == s
}

/// Split `s` on a single-character delimiter.
///
/// The result always has at least one element, empty fields are preserved,
/// and a trailing delimiter produces a trailing empty field (number of
/// fields == number of delimiters + 1).
pub fn split<'a>(s: &'a str, sep: char) -> (out: Vec<&'a str>)
    ensures
        is_split_of(out@.map_values(|x: &str| x@), s@, sep),
        out@.map_values(|x: &str| x@) == split_fields(s@, sep),
        out@.len() == count_char(s@, sep) + 1,
{
    let v = chars_of(s);
    let n = v.len();
    let mut out: Vec<&'a str> = Vec::new();
    let mut start: usize = 0;
    let mut i: usize = 0;
    while i < n
        invariant
            n == v@.len(),
            v@ == s@,
            start <= i <= n,
            forall|k: int| start <= k < i ==> v@[k] != sep,
            forall|a: int, b: int|
                0 <= a < out@.len() && 0 <= b < out@[a]@.len() ==> #[trigger] out@[a]@[b]
                    != sep,
            join_with(out@.map_values(|x: &str| x@).push(s@.subrange(start as int, i as int)), sep)
                == s@.take(i as int),
            count_char(s@.take(i as int), sep) == out@.len(),
        decreases n - i,
    {
        let ghost fs = out@.map_values(|x: &str| x@);
        let ghost part = s@.subrange(start as int, i as int);
        assert(s@.take(i + 1).drop_last() =~= s@.take(i as int));
        if v[i] == sep {
            let field = s.substring_char(start, i);
            out.push(field);
            proof {
                let fs2 = out@.map_values(|x: &str| x@);
                assert(fs2 =~= fs.push(part));
                let e = s@.subrange((i + 1) as int, (i + 1) as int);
                assert(e =~= Seq::<char>::empty());
                assert(fs2.push(e).drop_last() =~= fs2);
                assert(join_with(fs2.push(e), sep) =~= join_with(fs2, sep) + seq![sep] + e);
                assert(join_with(fs2, sep) == s@.take(i as int));
                assert(s@.take(i + 1) =~= s@.take(i as int) + seq![sep] + e);
                assert forall|a: int, b: int|
                    0 <= a < out@.len() && 0 <= b < out@[a]@.len() implies #[trigger] out@[a]@[b]
                        != sep by {
                    if a == out@.len() - 1 {
                        assert(out@[a]@ == part);
                        assert(part[b] == v@[start + b]);
                    }
                }
            }
            start = i + 1;
        } else {
            proof {
                let part2 = s@.subrange(start as int, i + 1);
                assert(part2 =~= part.push(v@[i as int]));
                if fs.len() == 0 {
                    assert(fs.push(part2) =~= seq![part2]);
                    assert(fs.push(part) =~= seq![part]);
                    assert(join_with(fs.push(part), sep) == part);
                    assert(s@.take(i + 1) =~= s@.take(i as int).push(v@[i as int]));
                } else {
                    assert(fs.push(part2).drop_last() =~= fs);
                    assert(fs.push(part).drop_last() =~= fs);
                    assert(join_with(fs.push(part), sep) == join_with(fs, sep) + seq![sep] + part);
                    assert(s@.take(i + 1) =~= s@.take(i as int).push(v@[i as int]));
                    assert(join_with(fs.push(part2), sep) =~= join_with(fs, sep) + seq![sep]
                        + part2);
                }
            }
        }
        i = i + 1;
    }
    let last = s.substring_char(start, n);
    let ghost fs = out@.map_values(|x: &str| x@);
    out.push(last);
    proof {
        let fs2 = out@.map_values(|x: &str| x@);
        assert(fs2 =~= fs.push(s@.subrange(start as int, n as int)));
        assert(s@.take(n as int) =~= s@);
        assert(is_split_of(fs2, s@, sep)) by {
            assert forall|a: int, b: int|
                0 <= a < fs2.len() && 0 <= b < fs2[a].len() implies #[trigger] fs2[a][b] != sep by {
                if a == fs2.len() - 1 {
                    assert(fs2[a][b] == v@[start + b]);
                } else {
                    assert(fs2[a] == out@[a]@);
                }
            }
        }
        lemma_split_unique(fs2, s@, sep);
        assert(s@.take(n as int) =~= s@);
        assert forall|a: int, b: int|
            0 <= a < fs2.len() && 0 <= b < fs2[a].len() implies #[trigger] fs2[a][b] != sep by {
            if a == fs2.len() - 1 {
                assert(fs2[a][b] == v@[start + b]);
            } else {
                assert(fs2[a] == out@[a]@);
            }
        }
    }
    out
}

/// A path splits into its stem and extension: with an extension dot, stem,
/// dot and extension give the path back; without one, the stem is the whole
/// path and the extension is empty.
pub proof fn lemma_stem_and_ext_rebuild_path(p: Seq<char>)
    ensures
        has_ext_dot(p) ==> strip_ext_spec(p) + seq!['.'] + ext_spec(p) == p,
        !has_ext_dot(p) ==> strip_ext_spec(p) == p && ext_spec(p).len() == 0,
{
    if has_ext_dot(p) {
        let d = last_index(p, '.');
        assert(is_last_index(p, '.', d));
        assert(p.subrange(0, d) + seq!['.'] + p.subrange(d + 1, p.len() as int) =~= p);
    }
}

/// A path with a `/` is its directory, a `/`, and its basename; a path
/// without one is its own basename and has directory `"."`.
pub proof fn lemma_dir_and_base_rebuild_path(p: Seq<char>)
    ensures
        last_index(p, '/') >= 0 ==> dir_spec(p) + seq!['/'] + base_spec(p) == p,
        last_index(p, '/') < 0 ==> base_spec(p) == p && dir_spec(p) == seq!['.'],
{
    if last_index(p, '/') >= 0 {
        let s = last_index(p, '/');
        assert(is_last_index(p, '/', s));
        assert(p.subrange(0, s) + seq!['/'] + p.subrange(s + 1, p.len() as int) =~= p);
    }
}

/// The basename and the extension never hold a `/`.
pub proof fn lemma_base_and_ext_have_no_slash(p: Seq<char>)
    ensures
        forall|i: int| 0 <= i < base_spec(p).len() ==> base_spec(p)[i] != '/',
        forall|i: int| 0 <= i < ext_spec(p).len() ==> ext_spec(p)[i] != '/',
{
    let s = last_index(p, '/');
    if s >= 0 {
        assert(is_last_index(p, '/', s));
    } else {
        lemma_no_last_index_means_absent(p, '/');
    }
    if has_ext_dot(p) {
        let d = last_index(p, '.');
        assert(is_last_index(p, '.', d));
        if s >= 0 {
            assert(is_last_index(p, '/', s));
        }
        assert forall|i: int| 0 <= i < ext_spec(p).len() implies ext_spec(p)[i] != '/' by {
            assert(ext_spec(p)[i] == p[d + 1 + i]);
            if s >= 0 {
                assert(d >= s);
                if d == s {
                    assert(p[d] == '.');
                }
            } else {
                lemma_no_last_index_means_absent(p, '/');
            }
        }
    }
}

/// When `c` occurs at or after `i`, some position is its last occurrence.
pub proof fn lemma_some_last_index(p: Seq<char>, c: char, i: int)
    requires
        0 <= i < p.len(),
        p[i] == c,
    ensures
        exists|j: int| is_last_index(p, c, j),
    decreases p.len() - i,
{
    if exists|j: int| i < j < p.len() && p[j] == c {
        let j = choose|j: int| i < j < p.len() && p[j] == c;
        lemma_some_last_index(p, c, j);
    } else {
        assert(is_last_index(p, c, i));
    }
}

/// Without a last occurrence, `c` does not occur at all.
pub proof fn lemma_no_last_index_means_absent(p: Seq<char>, c: char)
    requires
        last_index(p, c) < 0,
    ensures
        forall|i: int| 0 <= i < p.len() ==> p[i] != c,
{
    assert forall|i: int| 0 <= i < p.len() implies p[i] != c by {
        if p[i] == c {
            lemma_some_last_index(p, c, i);
            let j = choose|j: int| is_last_index(p, c, j);
            lemma_last_index_unique(p, c, j);
        }
    }
}

/// Two non-empty components with no slash at the seam join as
/// `base + "/" + name`; joining with an empty component gives the other.
pub proof fn lemma_join_plain_components(base: Seq<char>, name: Seq<char>)
    ensures
        base.len() > 0 && name.len() > 0 && base.last() != '/' && name[0] != '/' ==> join_spec(
            base,
            name,
        ) == base + seq!['/'] + name,
        join_spec(base, Seq::empty()) == base,
        join_spec(Seq::empty(), name) == name,
{
}

/// The fields of `s` split on `c`, built from the last occurrence of `c`
/// backwards.
pub open spec fn split_fields(s: Seq<char>, c: char) -> Seq<Seq<char>>
    decreases s.len(),
{
    let li = last_index(s, c);
    if li < 0 || li >= s.len() {
        seq![s]
    } else {
        split_fields(s.take(li), c).push(s.skip(li + 1))
    }
}

/// The split of a string is unique: any sequence of fields without `c` that
/// joins back to `s` is `split_fields(s, c)`.
pub proof fn lemma_split_unique(f: Seq<Seq<char>>, s: Seq<char>, c: char)
    requires
        is_split_of(f, s, c),
    ensures
        f == split_fields(s, c),
    decreases f.len(),
{
    if f.len() == 1 {
        assert(s == f[0]);
        assert forall|j: int| 0 <= j < s.len() implies s[j] != c by {
            assert(f[0][j] != c);
        }
        lemma_last_index_absent(s, c);
        assert(f =~= seq![s]);
    } else {
        let g = f.drop_last();
        let prefix = join_with(g, c);
        let last = f.last();
        let p = prefix.len() as int;
        assert(s == prefix + seq![c] + last);
        assert(s[p] == c);
        assert forall|j: int| p < j < s.len() implies s[j] != c by {
            assert(s[j] == last[j - p - 1]);
            assert(f[f.len() - 1][j - p - 1] != c);
        }
        lemma_last_index_unique(s, c, p);
        assert(s.take(p) =~= prefix);
        assert(s.skip(p + 1) =~= last);
        assert(is_split_of(g, prefix, c)) by {
            assert forall|i: int, j: int| 0 <= i < g.len() && 0 <= j < g[i].len() implies #[trigger] g[i][j] != c by {
                assert(g[i] == f[i]);
                assert(f[i][j] != c);
            }
        }
        lemma_split_unique(g, prefix, c);
        assert(f =~= g.push(last));
    }
}

} // verus!
