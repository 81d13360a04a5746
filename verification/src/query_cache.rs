//! Keying and sizing of the query-embedding cache: how a query is normalised
//! before it is looked up, and how many least-recently-used rows a prune
//! removes.

use vstd::prelude::*;
use crate::text::char_is_whitespace;
use crate::text::chars_of;
use crate::text::is_whitespace;
use crate::text::push_char;
use crate::text::trim;
use crate::text::trim_ws;

verus! {

/// File name of the cache database inside the workspace store directory.
pub const QUERY_CACHE_DB_FILE: &'static str = "query_cache.db";

/// Row count above which a prune runs.
pub const QUERY_CACHE_MAX_ENTRIES: i64 = 10_000;

/// Row count that a prune for too many entries trims down to.
pub const QUERY_CACHE_TRIM_ENTRIES: i64 = 8_000;

/// Whitespace collapsed: every non-whitespace character is kept in order,
/// and one space stands before it where whitespace preceded it and
/// something was already kept.
pub open spec fn collapse_ws(s: Seq<char>) -> Seq<char>
    decreases s.len(),
{
    if s.len() == 0 {
        Seq::empty()
    } else {
        let p = collapse_ws(s.drop_last());
        let c = s.last();
        if char_is_whitespace(c) {
            p
        } else if s.len() >= 2 && char_is_whitespace(s[s.len() - 2]) && p.len() > 0 {
            p + seq![' ', c]
        } else {
            p.push(c)
        }
    }
}

/// The cache key of a query: trimmed, with each inner whitespace run
/// collapsed to one space. Case is kept.
pub open spec fn normalized_query(q: Seq<char>) -> Seq<char> {
    collapse_ws(trim_ws(q))
}

/// Normalises a query for cache keying: trim and collapse every internal
/// whitespace run to a single space. Case is preserved, so `Foo` and `foo`
/// are different queries.
pub fn normalize_query_text(q: &str) -> (out: String)
    ensures
        out@ == normalized_query(q@),
{
    let t = trim(q);
    let v = chars_of(t);
    let mut out = String::new();
    let mut in_ws = false;
    let mut i: usize = 0;
    assert(v@.take(0) =~= Seq::<char>::empty());
    while i < v.len()
        invariant
            v@ == t@,
            i <= v@.len(),
            out@ == collapse_ws(v@.take(i as int)),
            in_ws <==> (i > 0 && char_is_whitespace(v@[i - 1])),
        decreases v.len() - i,
    {
        let c = v[i];
        assert(v@.take(i + 1).drop_last() =~= v@.take(i as int));
        assert(v@.take(i + 1).last() == c);
        if is_whitespace(c) {
            in_ws = true;
        } else {
            let ghost before = out@;
            if in_ws && out.unicode_len() != 0 {
                push_char(&mut out, ' ');
            }
            in_ws = false;
            push_char(&mut out, c);
            assert(i + 1 >= 2 ==> v@.take(i + 1)[i - 1] == v@[i - 1]);
            proof {
                if i > 0 && char_is_whitespace(v@[i - 1]) && before.len() > 0 {
                    assert(out@ =~= before + seq![' ', c]);
                }
            }
        }
        i = i + 1;
    }
    assert(v@.take(v@.len() as int) =~= v@);
    out
}

/// Every whitespace character of `s` is a single space with a
/// non-whitespace character before it (one may end `s`).
pub open spec fn spaced_prefix(s: Seq<char>) -> bool {
    forall|i: int|
        0 <= i < s.len() && #[trigger] char_is_whitespace(s[i]) ==> s[i] == ' ' && i > 0
            && !char_is_whitespace(s[i - 1])
}

/// `s` is in normal form: no whitespace at either end, and every inner
/// whitespace run is one space.
pub open spec fn is_normalized(s: Seq<char>) -> bool {
    &&& spaced_prefix(s)
    &&& s.len() > 0 ==> !char_is_whitespace(s.last())
}

proof fn lemma_collapse_is_normalized(s: Seq<char>)
    ensures
        is_normalized(collapse_ws(s)),
    decreases s.len(),
{
    if s.len() > 0 {
        lemma_collapse_is_normalized(s.drop_last());
        let p = collapse_ws(s.drop_last());
        let c = s.last();
        if !char_is_whitespace(c) {
            if s.len() >= 2 && char_is_whitespace(s[s.len() - 2]) && p.len() > 0 {
                let r = p + seq![' ', c];
                assert forall|i: int|
                    0 <= i < r.len() && #[trigger] char_is_whitespace(r[i]) implies r[i] == ' '
                    && i > 0 && !char_is_whitespace(r[i - 1]) by {
                    if i < p.len() {
                        assert(r[i] == p[i]);
                        assert(char_is_whitespace(p[i]));
                        if i > 0 {
                            assert(r[i - 1] == p[i - 1]);
                        }
                    } else if i == p.len() {
                        assert(r[i - 1] == p.last());
                    }
                }
            } else {
                let r = p.push(c);
                assert forall|i: int|
                    0 <= i < r.len() && #[trigger] char_is_whitespace(r[i]) implies r[i] == ' '
                    && i > 0 && !char_is_whitespace(r[i - 1]) by {
                    assert(r[i] == p[i]);
                    assert(char_is_whitespace(p[i]));
                    assert(r[i - 1] == p[i - 1]);
                }
            }
        }
    }
}

proof fn lemma_collapse_of_spaced(s: Seq<char>)
    requires
        spaced_prefix(s),
    ensures
        collapse_ws(s) == (if s.len() > 0 && char_is_whitespace(s.last()) {
            s.drop_last()
        } else {
            s
        }),
    decreases s.len(),
{
    if s.len() > 0 {
        let d = s.drop_last();
        assert forall|i: int|
            0 <= i < d.len() && #[trigger] char_is_whitespace(d[i]) implies d[i] == ' ' && i > 0
            && !char_is_whitespace(d[i - 1]) by {
            assert(d[i] == s[i]);
            assert(char_is_whitespace(s[i]));
        }
        lemma_collapse_of_spaced(d);
        let c = s.last();
        let n = s.len();
        if char_is_whitespace(c) {
            assert(char_is_whitespace(s[n - 1]));
            assert(!char_is_whitespace(d.last()));
        } else if n >= 2 && char_is_whitespace(s[n - 2]) {
            assert(char_is_whitespace(d.last()));
            assert(d.last() == ' ');
            assert(!char_is_whitespace(s[n - 3]));
            assert(collapse_ws(d) == d.drop_last());
            assert(d.drop_last().len() > 0);
            assert(d.drop_last() + seq![' ', c] =~= s);
        } else {
            if d.len() > 0 {
                assert(d.last() == s[n - 2]);
            }
            assert(d.push(c) =~= s);
        }
    }
}

/// A key in normal form has no whitespace to trim.
proof fn lemma_trim_of_normalized(s: Seq<char>)
    requires
        is_normalized(s),
    ensures
        trim_ws(s) == s,
{
    if s.len() > 0 {
        if char_is_whitespace(s[0]) {
            assert(char_is_whitespace(s[0]));
        }
    }
    assert(crate::text::trim_start_ws(s) == s);
}

/// A normalised query has no whitespace at either end and no whitespace
/// inside but single spaces between words.
pub proof fn lemma_normalized_query_form(q: Seq<char>)
    ensures
        is_normalized(normalized_query(q)),
{
    lemma_collapse_is_normalized(trim_ws(q));
}

/// Normalising twice gives the same cache key as normalising once.
pub proof fn lemma_normalize_idempotent(q: Seq<char>)
    ensures
        normalized_query(normalized_query(q)) == normalized_query(q),
{
    let o = normalized_query(q);
    lemma_collapse_is_normalized(trim_ws(q));
    lemma_trim_of_normalized(o);
    lemma_collapse_of_spaced(o);
}

/// `x` clamped to the range of `i64`, as std's saturating operations do.
pub open spec fn saturate_i64(x: int) -> int {
    if x > i64::MAX {
        i64::MAX as int
    } else if x < i64::MIN {
        i64::MIN as int
    } else {
        x
    }
}

/// Rust's integer division by a positive divisor: rounds toward zero.
pub open spec fn div_toward_zero(a: int, b: int) -> int {
    if a >= 0 {
        a / b
    } else {
        -((-a) / b)
    }
}

/// The byte budget for a limit given in MiB (saturating).
pub open spec fn cache_max_bytes_spec(max_mib: int) -> int {
    saturate_i64(max_mib * 1048576)
}

/// How many least-recently-used rows a prune deletes from a cache of
/// `count` rows taking `bytes` bytes under the budget `max_bytes` (a budget
/// of zero or less means no byte limit): none while neither the entry cap
/// nor the byte budget is exceeded; otherwise down to the trim size, and
/// when over budget down to the share of rows that fills 80% of it, but
/// never below one row.
pub open spec fn cache_removals_spec(count: int, bytes: int, max_bytes: int) -> int {
    let over_entries = count > QUERY_CACHE_MAX_ENTRIES;
    let over_bytes = max_bytes > 0 && bytes > max_bytes;
    if !over_entries && !over_bytes {
        0
    } else {
        let keep0 = if QUERY_CACHE_TRIM_ENTRIES < count {
            QUERY_CACHE_TRIM_ENTRIES as int
        } else {
            count
        };
        let keep = if over_bytes && bytes > 0 {
            let target = div_toward_zero(
                saturate_i64(count * div_toward_zero(saturate_i64(max_bytes * 8), 10)),
                bytes,
            );
            let floor = if target > 1 {
                target
            } else {
                1
            };
            if floor < keep0 {
                floor
            } else {
                keep0
            }
        } else {
            keep0
        };
        let remove = saturate_i64(count - keep);
        if remove > 0 {
            remove
        } else {
            0
        }
    }
}

fn saturating_i64(x: i128) -> (r: i64)
    ensures
        r == saturate_i64(x as int),
{
    if x > i64::MAX as i128 {
        i64::MAX
    } else if x < i64::MIN as i128 {
        i64::MIN
    } else {
        x as i64
    }
}

fn div_toward_zero_i128(a: i128, b: i128) -> (r: i128)
    requires
        b > 0,
        a > i128::MIN,
    ensures
        r == div_toward_zero(a as int, b as int),
{
    if a >= 0 {
        a / b
    } else {
        -((-a) / b)
    }
}

/// The byte budget for a limit in MiB, saturating at `i64::MAX`.
pub fn query_cache_max_bytes(max_mib: i64) -> (r: i64)
    ensures
        r == cache_max_bytes_spec(max_mib as int),
{
    saturating_i64(max_mib as i128 * 1048576)
}

/// How many rows a prune of the cache deletes (0: the cache is within its
/// limits and is left alone).
pub fn query_cache_removals(count: i64, bytes: i64, max_bytes: i64) -> (r: i64)
    ensures
        r == cache_removals_spec(count as int, bytes as int, max_bytes as int),
        r >= 0,
{
    let over_entries = count > QUERY_CACHE_MAX_ENTRIES;
    let over_bytes = max_bytes > 0 && bytes > max_bytes;
    if !over_entries && !over_bytes {
        return 0;
    }
    let mut keep: i64 = if QUERY_CACHE_TRIM_ENTRIES < count {
        QUERY_CACHE_TRIM_ENTRIES
    } else {
        count
    };
    if over_bytes && bytes > 0 {
        let budget = div_toward_zero_i128(saturating_i64(max_bytes as i128 * 8) as i128, 10);
        assert(0 <= budget <= i64::MAX);
        assert(-0x8000_0000_0000_0000 * 0x7fff_ffff_ffff_ffff <= count as i128 * budget
            <= 0x7fff_ffff_ffff_ffff * 0x7fff_ffff_ffff_ffff) by (nonlinear_arith)
            requires
                0 <= budget <= 0x7fff_ffff_ffff_ffff,
                -0x8000_0000_0000_0000 <= count <= 0x7fff_ffff_ffff_ffff,
        ;
        let scaled = saturating_i64(count as i128 * budget);
        let target = div_toward_zero_i128(scaled as i128, bytes as i128);
        let floor: i128 = if target > 1 {
            target
        } else {
            1
        };
        if floor < keep as i128 {
            keep = floor as i64;
        }
    }
    let remove = saturating_i64(count as i128 - keep as i128);
    if remove > 0 {
        remove
    } else {
        0
    }
}

} // verus!
