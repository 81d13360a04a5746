//! Where a workspace's index store lives, what the project is called, and
//! when old stores are evicted.
//!
//! The graph DB never lives inside the workspace: it goes to a per-user
//! data directory (chosen by the caller from the environment), under the
//! workspace hash — the first 16 hex digits of the SHA-256 of the canonical
//! workspace root — so different workspaces never collide.

use vstd::prelude::*;
use crate::hash::sha256_hex;
use crate::hash::sha256_hex_spec;
use crate::strutil::base_spec;
use crate::strutil::trim_end_spec;
use crate::text::last_index;
use crate::text::is_last_index;
use crate::text::chars_of;
use crate::text::push_char;
use crate::changes::std_file_name;
use vstd::string::*;

verus! {

broadcast use vstd::string::group_string_axioms;

/// The file name of the per-store "last used" marker.
pub const LASTUSED_MARKER: &'static str = ".lastused";

/// The environment variable overriding the store eviction TTL, in days.
pub const ENV_STORE_TTL_DAYS: &'static str = "GREPPY_STORE_TTL_DAYS";

/// The default store eviction TTL in days.
pub const STORE_TTL_DAYS_DEFAULT: u64 = 14;

/// The file name of the graph DB inside a store directory.
pub const GRAPH_DB_FILE: &'static str = "graph.db";

/// The workspace hash of a canonical workspace root: the first 16 hex
/// digits of the SHA-256 of its text.
pub open spec fn workspace_hash_spec(canonical_root: Seq<char>) -> Seq<char> {
    sha256_hex_spec(vstd::utf8::encode_utf8(canonical_root)).take(16)
}

/// The workspace hash of a canonical workspace root.
pub fn workspace_hash(canonical_root: &str) -> (r: String)
    ensures
        r@ == workspace_hash_spec(canonical_root@),
        r@.len() == 16,
{
    let h = sha256_hex(canonical_root.as_bytes());
    let hc = chars_of(h.as_str());
    let mut r = String::new();
    let mut k: usize = 0;
    while k < 16
        invariant
            k <= 16,
            hc@ == sha256_hex_spec(vstd::utf8::encode_utf8(canonical_root@)),
            hc@.len() == 64,
            r@ == hc@.take(k as int),
        decreases 16 - k,
    {
        push_char(&mut r, hc[k]);
        assert(hc@.take(k + 1) =~= hc@.take(k as int).push(hc@[k as int]));
        k = k + 1;
    }
    r
}

/// `dir` joined with the relative name `name`, as `Path::join` does on a
/// `/`-separated path: a `/` goes between them unless `dir` is empty or
/// already ends with one.
pub open spec fn path_child_spec(dir: Seq<char>, name: Seq<char>) -> Seq<char> {
    if dir.len() == 0 {
        name
    } else if dir.last() == '/' {
        dir + name
    } else {
        dir + seq!['/'] + name
    }
}

/// Joins a relative name onto a directory.
pub fn path_child(dir: &str, name: &str) -> (r: String)
    ensures
        r@ == path_child_spec(dir@, name@),
{
    let n = dir.unicode_len();
    let mut r = String::from_str(dir);
    if n > 0 && dir.get_char(n - 1) != '/' {
        push_char(&mut r, '/');
    }
    r.append(name);
    r
}

/// The graph DB of a store directory.
pub fn store_path(store_dir: &str) -> (r: String)
    ensures
        r@ == path_child_spec(store_dir@, GRAPH_DB_FILE@),
{
    path_child(store_dir, GRAPH_DB_FILE)
}

/// The parent of a `/`-separated path, as `Path::parent` gives it:
/// trailing `/`s are ignored; a path of one relative component has the
/// empty parent; the root and the empty path have none.
pub open spec fn parent_spec(p: Seq<char>) -> Option<Seq<char>> {
    let t = trim_end_spec(p, '/');
    if t.len() == 0 {
        None
    } else if last_index(t, '/') < 0 {
        Some(Seq::empty())
    } else {
        let head = trim_end_spec(t.take(last_index(t, '/')), '/');
        if head.len() == 0 {
            Some(seq!['/'])
        } else {
            Some(head)
        }
    }
}

fn trim_end_slashes(s: &str) -> (r: &str)
    ensures
        r@ == trim_end_spec(s@, '/'),
{
    let mut n = s.unicode_len();
    assert(s@.subrange(0, n as int) =~= s@);
    while n > 0 && s.get_char(n - 1) == '/'
        invariant
            n <= s@.len(),
            trim_end_spec(s@, '/') == trim_end_spec(s@.subrange(0, n as int), '/'),
        decreases n,
    {
        assert(s@.subrange(0, n as int).drop_last() =~= s@.subrange(0, n - 1));
        n = n - 1;
    }
    s.substring_char(0, n)
}

/// The parent directory of a path.
pub fn parent_path(p: &str) -> (r: Option<String>)
    ensures
        match r {
            Some(s) => parent_spec(p@) == Some(s@),
            None => parent_spec(p@) is None,
        },
{
    let t = trim_end_slashes(p);
    let n = t.unicode_len();
    if n == 0 {
        return None;
    }
    let v = chars_of(t);
    match crate::text::rfind_char(&v, '/') {
        None => Some(String::new()),
        Some(i) => {
            let head = trim_end_slashes(t.substring_char(0, i));
            assert(t@.subrange(0, i as int) =~= t@.take(i as int));
            if head.unicode_len() == 0 {
                let mut r = String::new();
                push_char(&mut r, '/');
                assert(r@ =~= seq!['/']);
                Some(r)
            } else {
                Some(String::from_str(head))
            }
        },
    }
}

/// The directory that holds every workspace's store directory: the parent
/// of any one store directory.
pub fn store_cache_root(store_dir: &str) -> (r: Option<String>)
    ensures
        match r {
            Some(s) => parent_spec(store_dir@) == Some(s@),
            None => parent_spec(store_dir@) is None,
        },
{
    parent_path(store_dir)
}

/// The directories from `p` up: `p`, its parent, and so on while the
/// parent is neither missing, empty nor `p` itself.
pub open spec fn ancestors_spec(p: Seq<char>, fuel: nat) -> Seq<Seq<char>>
    decreases fuel,
{
    if fuel == 0 {
        seq![p]
    } else {
        match parent_spec(p) {
            Some(q) => if q.len() > 0 && q != p {
                seq![p] + ancestors_spec(q, (fuel - 1) as nat)
            } else {
                seq![p]
            },
            None => seq![p],
        }
    }
}

proof fn lemma_parent_shorter(p: Seq<char>)
    ensures
        parent_spec(p) matches Some(q) ==> q.len() < p.len() || (q == seq!['/'] && p.len() >= 2),
{
    let t = trim_end_spec(p, '/');
    lemma_trim_end_len(p, '/');
    if t.len() > 0 && last_index(t, '/') >= 0 {
        let i = last_index(t, '/');
        assert(is_last_index(t, '/', i)) by {
            assert(exists|k: int| crate::text::is_last_index(t, '/', k));
        }
        lemma_trim_end_len(t.take(i), '/');
        lemma_trim_end_last(p, '/');
        assert(i < t.len() - 1);
    }
}

proof fn lemma_trim_end_last(s: Seq<char>, c: char)
    ensures
        trim_end_spec(s, c).len() > 0 ==> trim_end_spec(s, c).last() != c,
    decreases s.len(),
{
    if s.len() > 0 && s.last() == c {
        lemma_trim_end_last(s.drop_last(), c);
    }
}

proof fn lemma_trim_end_len(s: Seq<char>, c: char)
    ensures
        trim_end_spec(s, c).len() <= s.len(),
    decreases s.len(),
{
    if s.len() > 0 && s.last() == c {
        lemma_trim_end_len(s.drop_last(), c);
    }
}

/// The directories from `p` up to the top, the project-marker walk visits
/// them in this order.
pub fn path_ancestors(p: &str) -> (r: Vec<String>)
    ensures
        crate::rg::views(r@) == ancestors_spec(p@, p@.len() + 1),
{
    let mut out: Vec<String> = Vec::new();
    let mut cur = String::from_str(p);
    let ghost mut fuel: nat = (p@.len() + 1) as nat;
    assert(crate::rg::views(out@) + ancestors_spec(cur@, fuel) =~= ancestors_spec(p@, (p@.len() + 1) as nat));
    loop
        invariant
            fuel >= cur@.len() + 1,
            crate::rg::views(out@) + ancestors_spec(cur@, fuel) == ancestors_spec(p@, (p@.len() + 1) as nat),
        decreases fuel,
    {
        let ghost before = crate::rg::views(out@);
        let ghost c = cur@;
        let next = parent_path(cur.as_str());
        out.push(cur.clone());
        proof {
            lemma_parent_shorter(c);
            assert(fuel > 0);
        }
        match next {
            Some(q) => {
                let stop = q.as_str().unicode_len() == 0 || crate::text::str_eq(q.as_str(), cur.as_str());
                if stop {
                    assert(crate::rg::views(out@) =~= before + ancestors_spec(c, fuel));
                    return out;
                }
                proof {
                    assert(ancestors_spec(c, fuel) == seq![c] + ancestors_spec(q@, (fuel - 1) as nat));
                    assert(crate::rg::views(out@) =~= before.push(c));
                    assert(before.push(c) + ancestors_spec(q@, (fuel - 1) as nat) =~= before + ancestors_spec(c, fuel));
                    fuel = (fuel - 1) as nat;
                }
                cur = q;
            },
            None => {
                assert(crate::rg::views(out@) =~= before + ancestors_spec(c, fuel));
                return out;
            },
        }
    }
}

/// The project identity: the file name of the directory holding a project
/// marker (or of the canonical start directory when none does), or
/// `default` when that has no name.
pub open spec fn project_identity_spec(canonical: Seq<char>, marker_dir: Option<Seq<char>>) -> Seq<char> {
    let p = match marker_dir {
        Some(d) => d,
        None => canonical,
    };
    match std_file_name(p) {
        Some(n) => n,
        None => "default"@,
    }
}

/// The project identity of a canonical start directory, given the first
/// of its ancestors that holds `.git`, `Cargo.toml` or `pyproject.toml`.
pub fn project_identity(canonical: &str, marker_dir: Option<&str>) -> (r: String)
    ensures
        r@ == project_identity_spec(
            canonical@,
            match marker_dir {
                Some(d) => Some(d@),
                None => None,
            },
        ),
{
    let p = match marker_dir {
        Some(d) => d,
        None => canonical,
    };
    let name = crate::strutil::path_base(trim_end_slashes(p));
    if name.unicode_len() == 0 || crate::text::str_eq(name, ".") || crate::text::str_eq(name, "..") {
        String::from_str("default")
    } else {
        String::from_str(name)
    }
}

/// The mode of newly created store directories.
pub fn dir_mode_default() -> (r: u32)
    ensures
        r == 0o700,
{
    0o700
}

/// The eviction TTL in seconds from the environment variable's value: its
/// trimmed text as a number of days, 14 when unset or unparsable; zero
/// disables eviction.
pub open spec fn store_ttl_secs_spec(env: Option<Seq<char>>) -> u64 {
    let days: u64 = match env {
        Some(v) => match crate::text::parse_u64_spec(crate::text::trim_ws(v)) {
            Some(d) => d,
            None => STORE_TTL_DAYS_DEFAULT,
        },
        None => STORE_TTL_DAYS_DEFAULT,
    };
    if days * 86400 > u64::MAX {
        u64::MAX
    } else {
        (days * 86400) as u64
    }
}

/// The store eviction TTL in seconds, from the value of
/// `GREPPY_STORE_TTL_DAYS` if set.
pub fn store_ttl_secs(env: Option<&str>) -> (r: u64)
    ensures
        r == store_ttl_secs_spec(
            match env {
                Some(v) => Some(v@),
                None => None,
            },
        ),
{
    let days = match env {
        Some(v) => match crate::text::parse_u64(crate::text::trim(v)) {
            Some(d) => d,
            None => STORE_TTL_DAYS_DEFAULT,
        },
        None => STORE_TTL_DAYS_DEFAULT,
    };
    if days > u64::MAX / 86400 {
        u64::MAX
    } else {
        days * 86400
    }
}

/// A store directory is evicted when eviction is on, it is not the one in
/// use, its age could be read, and it was last used more than `ttl_secs`
/// ago (an age of `age_secs` seconds and `age_nanos` more nanoseconds).
pub open spec fn should_evict_spec(ttl_secs: u64, is_kept: bool, age: Option<(u64, u32)>) -> bool {
    ttl_secs > 0 && !is_kept && match age {
        Some((s, n)) => s > ttl_secs || (s == ttl_secs && n > 0),
        None => false,
    }
}

/// Whether a store directory is evicted.
pub fn should_evict(ttl_secs: u64, is_kept: bool, age: Option<(u64, u32)>) -> (r: bool)
    ensures
        r == should_evict_spec(ttl_secs, is_kept, age),
{
    if ttl_secs == 0 || is_kept {
        return false;
    }
    match age {
        Some((s, n)) => s > ttl_secs || (s == ttl_secs && n > 0),
        None => false,
    }
}

/// Sixteen lowercase or uppercase hex digits.
pub open spec fn is_hash_name(s: Seq<char>) -> bool {
    s.len() == 16 && forall|i: int|
        0 <= i < s.len() ==> ('0' <= #[trigger] s[i] <= '9' || 'a' <= s[i] <= 'f' || 'A' <= s[i] <= 'F')
}

/// The name of the writer lock of a store target: `workspace-<id>.writer`,
/// where `<id>` is the store directory's name when that is a workspace
/// hash, else the workspace hash of the canonical store directory.
pub open spec fn writer_lock_name_spec(target: Seq<char>, canonical_store_dir: Seq<char>) -> Seq<char> {
    let store_dir = match parent_spec(target) {
        Some(d) => d,
        None => target,
    };
    let id = match std_file_name(store_dir) {
        Some(n) => if is_hash_name(n) {
            n
        } else {
            workspace_hash_spec(canonical_store_dir)
        },
        None => workspace_hash_spec(canonical_store_dir),
    };
    "workspace-"@ + id + ".writer"@
}

fn is_hash_name_exec(s: &str) -> (r: bool)
    ensures
        r == is_hash_name(s@),
{
    let v = chars_of(s);
    if v.len() != 16 {
        return false;
    }
    let mut i: usize = 0;
    while i < v.len()
        invariant
            v@ == s@,
            v@.len() == 16,
            i <= 16,
            forall|q: int| 0 <= q < i ==> ('0' <= #[trigger] s@[q] <= '9' || 'a' <= s@[q] <= 'f' || 'A' <= s@[q] <= 'F'),
        decreases 16 - i,
    {
        let c = v[i];
        if !(('0' <= c && c <= '9') || ('a' <= c && c <= 'f') || ('A' <= c && c <= 'F')) {
            return false;
        }
        i = i + 1;
    }
    true
}

/// The name of the writer lock for a store target, given the canonical
/// form of its store directory.
pub fn writer_lock_name(target: &str, canonical_store_dir: &str) -> (r: String)
    ensures
        r@ == writer_lock_name_spec(target@, canonical_store_dir@),
{
    let store_dir = match parent_path(target) {
        Some(d) => d,
        None => String::from_str(target),
    };
    let name = crate::strutil::path_base(trim_end_slashes(store_dir.as_str()));
    let named = !(name.unicode_len() == 0 || crate::text::str_eq(name, ".") || crate::text::str_eq(name, ".."));
    let id = if named && is_hash_name_exec(name) {
        String::from_str(name)
    } else {
        workspace_hash(canonical_store_dir)
    };
    let mut r = String::from_str("workspace-");
    r.append(id.as_str());
    r.append(".writer");
    r
}

/// Why a writer lock could not be taken.
#[derive(Debug, Clone, PartialEq, Eq)]
pub enum LockError {
    /// Taking the lock failed: what was being done and the I/O error.
    Io { context: String, message: String },
    /// Another writer holds the lock file at `path`.
    Held { path: String },
}

impl LockError {
    /// The error as a message.
    pub fn message(&self) -> (r: String)
        ensures
            r@ == match self {
                LockError::Io { context, message } => "io: "@ + context@ + ": "@ + message@,
                LockError::Held { path } => "lock held by another writer; path: "@ + path@,
            },
    {
        match self {
            LockError::Io { context, message } => {
                let mut m = String::from_str("io: ");
                m.append(context.as_str());
                m.append(": ");
                m.append(message.as_str());
                m
            },
            LockError::Held { path } => {
                let mut m = String::from_str("lock held by another writer; path: ");
                m.append(path.as_str());
                m
            },
        }
    }
}

} // verus!
