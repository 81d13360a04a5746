//! Choosing the CPUs that inference workers run on: the performance cores
//! that the process may use, one logical CPU per physical core.

use vstd::prelude::*;
use crate::strutil::split;
use crate::strutil::split_fields;
use crate::text::first_index;
use crate::text::parse_usize;
use crate::text::parse_usize_spec;
use crate::text::split_once;
use crate::text::trim;
use crate::text::trim_ws;

verus! {

/// Why no CPU selection could be made.
#[derive(Debug, Clone, Copy, PartialEq, Eq)]
pub enum CpuError {
    /// The online CPU list is empty.
    NoOnlineCpus,
    /// Some CPUs carry classification metadata and others do not.
    IncompleteMetadata,
    /// The affinity mask excludes every performance core.
    NoAllowedPerformanceCore,
    /// A range of a CPU list is malformed or reversed.
    InvalidRange,
    /// A single CPU id of a CPU list is malformed.
    InvalidId,
    /// A CPU list names no CPU.
    EmptyList,
    /// The CPU-set information the system returned is malformed.
    MalformedCpuSets,
    /// The system reported no usable CPU set.
    NoCpuSets,
}

/// What the kernel reports about one logical CPU.
#[derive(Clone, Copy, Debug, PartialEq, Eq)]
pub struct LinuxCpuInfo {
    pub cpu: usize,
    pub core_type: Option<u64>,
    pub capacity: Option<u64>,
    pub max_frequency: Option<u64>,
    pub physical_package_id: Option<i64>,
    pub core_id: Option<i64>,
}

/// A per-CPU score by which CPUs are ranked.
#[derive(Clone, Copy, Debug, PartialEq, Eq)]
pub enum CpuScore {
    Capacity,
    MaxFrequency,
}

/// The score of a CPU, if reported.
pub open spec fn score_of(c: LinuxCpuInfo, by: CpuScore) -> Option<u64> {
    match by {
        CpuScore::Capacity => c.capacity,
        CpuScore::MaxFrequency => c.max_frequency,
    }
}

/// Every CPU reports a score.
pub open spec fn all_scored(cpus: Seq<LinuxCpuInfo>, by: CpuScore) -> bool {
    forall|i: int| 0 <= i < cpus.len() ==> score_of(#[trigger] cpus[i], by) is Some
}

/// The largest reported score (0 for none).
pub open spec fn max_score(cpus: Seq<LinuxCpuInfo>, by: CpuScore) -> u64
    decreases cpus.len(),
{
    if cpus.len() == 0 {
        0
    } else {
        let rest = max_score(cpus.drop_last(), by);
        match score_of(cpus.last(), by) {
            Some(v) => if v > rest {
                v
            } else {
                rest
            },
            None => rest,
        }
    }
}

/// The largest reported core type (0 for none).
pub open spec fn max_core_type(cpus: Seq<LinuxCpuInfo>) -> u64
    decreases cpus.len(),
{
    if cpus.len() == 0 {
        0
    } else {
        let rest = max_core_type(cpus.drop_last());
        match cpus.last().core_type {
            Some(v) => if v > rest {
                v
            } else {
                rest
            },
            None => rest,
        }
    }
}

/// Two CPUs report different core types.
pub open spec fn several_core_types(cpus: Seq<LinuxCpuInfo>) -> bool {
    exists|i: int, j: int|
        0 <= i < cpus.len() && 0 <= j < cpus.len() && cpus[i].core_type is Some
            && cpus[j].core_type is Some && cpus[i].core_type != cpus[j].core_type
}

/// Every CPU reports a core type.
pub open spec fn complete_core_type(cpus: Seq<LinuxCpuInfo>) -> bool {
    forall|i: int| 0 <= i < cpus.len() ==> (#[trigger] cpus[i]).core_type is Some
}

/// Some CPU reports a core type, a capacity or a maximum frequency.
pub open spec fn any_classification(cpus: Seq<LinuxCpuInfo>) -> bool {
    exists|i: int|
        0 <= i < cpus.len() && ((#[trigger] cpus[i]).core_type is Some || cpus[i].capacity is Some
            || cpus[i].max_frequency is Some)
}

/// The CPUs whose core type is `t`, in order.
pub open spec fn with_core_type(cpus: Seq<LinuxCpuInfo>, t: u64) -> Seq<LinuxCpuInfo> {
    cpus.filter(|c: LinuxCpuInfo| c.core_type == Some(t))
}

/// The CPUs whose score is `v`, in order.
pub open spec fn with_score(cpus: Seq<LinuxCpuInfo>, by: CpuScore, v: u64) -> Seq<LinuxCpuInfo> {
    cpus.filter(|c: LinuxCpuInfo| score_of(c, by) == Some(v))
}

/// The CPUs of the highest score, when every CPU is scored.
pub open spec fn highest_scored_spec(cpus: Seq<LinuxCpuInfo>, by: CpuScore) -> Option<
    Seq<LinuxCpuInfo>,
> {
    if cpus.len() > 0 && all_scored(cpus, by) {
        Some(with_score(cpus, by, max_score(cpus, by)))
    } else {
        None
    }
}

/// The performance-core candidates: the highest core type when core types
/// differ; all CPUs when every CPU has one core type; else the CPUs of the
/// highest capacity, else of the highest maximum frequency (each when every
/// CPU reports it); else all CPUs when none carries classification metadata.
pub open spec fn candidates_spec(cpus: Seq<LinuxCpuInfo>) -> Result<Seq<LinuxCpuInfo>, CpuError> {
    if cpus.len() == 0 {
        Err(CpuError::NoOnlineCpus)
    } else if several_core_types(cpus) {
        Ok(with_core_type(cpus, max_core_type(cpus)))
    } else if complete_core_type(cpus) {
        Ok(cpus)
    } else if highest_scored_spec(cpus, CpuScore::Capacity) is Some {
        Ok(highest_scored_spec(cpus, CpuScore::Capacity).unwrap())
    } else if highest_scored_spec(cpus, CpuScore::MaxFrequency) is Some {
        Ok(highest_scored_spec(cpus, CpuScore::MaxFrequency).unwrap())
    } else if !any_classification(cpus) {
        Ok(cpus)
    } else {
        Err(CpuError::IncompleteMetadata)
    }
}

/// Inserts `x` into `s` (ascending by CPU id) after every entry whose id is
/// not larger.
pub open spec fn insert_by_cpu(x: LinuxCpuInfo, s: Seq<LinuxCpuInfo>) -> Seq<LinuxCpuInfo>
    decreases s.len(),
{
    if s.len() == 0 {
        seq![x]
    } else if x.cpu < s[0].cpu {
        seq![x] + s
    } else {
        seq![s[0]] + insert_by_cpu(x, s.drop_first())
    }
}

/// Stable sort ascending by CPU id.
pub open spec fn sort_by_cpu(s: Seq<LinuxCpuInfo>) -> Seq<LinuxCpuInfo>
    decreases s.len(),
{
    if s.len() == 0 {
        Seq::empty()
    } else {
        insert_by_cpu(s.last(), sort_by_cpu(s.drop_last()))
    }
}

/// The physical core of a CPU, when its topology is reported (non-negative).
pub open spec fn physical_core(c: LinuxCpuInfo) -> Option<(i64, i64)> {
    match (c.physical_package_id, c.core_id) {
        (Some(p), Some(k)) => if p >= 0 && k >= 0 {
            Some((p, k))
        } else {
            None
        },
        _ => None,
    }
}

/// The CPU ids of `s`, keeping only the first CPU of each physical core
/// (CPUs without topology are all kept).
pub open spec fn first_per_core(s: Seq<LinuxCpuInfo>) -> Seq<usize>
    decreases s.len(),
{
    if s.len() == 0 {
        Seq::empty()
    } else {
        let prev = first_per_core(s.drop_last());
        let e = s.last();
        match physical_core(e) {
            None => prev.push(e.cpu),
            Some(k) => if exists|j: int| 0 <= j < s.len() - 1 && physical_core(#[trigger] s[j]) == Some(k) {
                prev
            } else {
                prev.push(e.cpu)
            },
        }
    }
}

/// The candidates that the affinity mask allows, in order.
pub open spec fn allowed_only(s: Seq<LinuxCpuInfo>, allowed: Seq<usize>) -> Seq<LinuxCpuInfo> {
    s.filter(|c: LinuxCpuInfo| allowed.contains(c.cpu))
}

/// The worker CPUs: allowed performance candidates in CPU order, one per
/// physical core; refused when none remains.
pub open spec fn selection_spec(cpus: Seq<LinuxCpuInfo>, allowed: Seq<usize>) -> Result<
    Seq<usize>,
    CpuError,
> {
    match candidates_spec(cpus) {
        Err(e) => Err(e),
        Ok(p) => {
            let s = first_per_core(sort_by_cpu(allowed_only(p, allowed)));
            if s.len() == 0 {
                Err(CpuError::NoAllowedPerformanceCore)
            } else {
                Ok(s)
            }
        },
    }
}

fn score_exec(c: &LinuxCpuInfo, by: CpuScore) -> (r: Option<u64>)
    ensures
        r == score_of(*c, by),
{
    match by {
        CpuScore::Capacity => c.capacity,
        CpuScore::MaxFrequency => c.max_frequency,
    }
}

/// The CPUs of the highest score, or `None` unless every CPU reports one.
pub fn linux_highest_scored_cpus(cpus: &[LinuxCpuInfo], by: CpuScore) -> (r: Option<
    Vec<LinuxCpuInfo>,
>)
    ensures
        match highest_scored_spec(cpus@, by) {
            Some(s) => r matches Some(v) && v@ == s,
            None => r is None,
        },
{
    let n = cpus.len();
    let mut best: u64 = 0;
    let mut i: usize = 0;
    while i < n
        invariant
            n == cpus@.len(),
            i <= n,
            all_scored(cpus@.take(i as int), by),
            best == max_score(cpus@.take(i as int), by),
        decreases n - i,
    {
        assert(cpus@.take(i + 1).drop_last() =~= cpus@.take(i as int));
        match score_exec(&cpus[i], by) {
            None => {
                assert(score_of(cpus@[i as int], by) is None);
                return None;
            },
            Some(v) => {
                if v > best {
                    best = v;
                }
            },
        }
        i = i + 1;
    }
    assert(cpus@.take(n as int) =~= cpus@);
    if n == 0 {
        return None;
    }
    let mut out: Vec<LinuxCpuInfo> = Vec::new();
    let mut k: usize = 0;
    while k < n
        invariant
            n == cpus@.len(),
            k <= n,
            out@ == with_score(cpus@.take(k as int), by, best),
        decreases n - k,
    {
        reveal_with_fuel(Seq::<_>::filter, 1);
        assert(cpus@.take(k + 1).drop_last() =~= cpus@.take(k as int));
        if score_exec(&cpus[k], by) == Some(best) {
            out.push(cpus[k]);
        }
        k = k + 1;
    }
    Some(out)
}

/// The largest core type reported by any CPU.
fn max_core_type_exec(cpus: &[LinuxCpuInfo]) -> (r: u64)
    ensures
        r == max_core_type(cpus@),
{
    let n = cpus.len();
    let mut best: u64 = 0;
    let mut i: usize = 0;
    while i < n
        invariant
            n == cpus@.len(),
            i <= n,
            best == max_core_type(cpus@.take(i as int)),
        decreases n - i,
    {
        assert(cpus@.take(i + 1).drop_last() =~= cpus@.take(i as int));
        if let Some(v) = cpus[i].core_type {
            if v > best {
                best = v;
            }
        }
        i = i + 1;
    }
    assert(cpus@.take(n as int) =~= cpus@);
    best
}

/// The performance-core candidates among the online CPUs (see
/// `candidates_spec` for the rule).
pub fn linux_performance_candidates(cpus: &[LinuxCpuInfo]) -> (r: Result<
    Vec<LinuxCpuInfo>,
    CpuError,
>)
    ensures
        match candidates_spec(cpus@) {
            Ok(s) => r matches Ok(v) && v@ == s,
            Err(e) => r == Err::<Vec<LinuxCpuInfo>, CpuError>(e),
        },
{
    let n = cpus.len();
    if n == 0 {
        return Err(CpuError::NoOnlineCpus);
    }
    // does some pair of CPUs report different core types?
    let mut first_type: Option<u64> = None;
    let mut several = false;
    let mut complete = true;
    let mut any_meta = false;
    let mut i: usize = 0;
    while i < n
        invariant
            n == cpus@.len(),
            i <= n,
            first_type is Some <==> exists|j: int| 0 <= j < i && cpus@[j].core_type is Some,
            first_type matches Some(t) ==> exists|j: int|
                0 <= j < i && cpus@[j].core_type == Some(t),
            several ==> several_core_types(cpus@),
            !several ==> forall|j: int|
                0 <= j < i && cpus@[j].core_type is Some ==> cpus@[j].core_type == first_type,
            complete <==> forall|j: int| 0 <= j < i ==> cpus@[j].core_type is Some,
            any_meta <==> exists|j: int|
                0 <= j < i && (cpus@[j].core_type is Some || cpus@[j].capacity is Some
                    || cpus@[j].max_frequency is Some),
        decreases n - i,
    {
        let c = cpus[i];
        match c.core_type {
            Some(t) => {
                match first_type {
                    None => {
                        first_type = Some(t);
                    },
                    Some(f) => {
                        if f != t {
                            proof {
                                let j = choose|j: int| 0 <= j < i && cpus@[j].core_type == Some(f);
                                assert(cpus@[j].core_type != cpus@[i as int].core_type);
                            }
                            several = true;
                        }
                    },
                }
            },
            None => {
                complete = false;
            },
        }
        if c.core_type.is_some() || c.capacity.is_some() || c.max_frequency.is_some() {
            any_meta = true;
        }
        i = i + 1;
    }
    proof {
        if several_core_types(cpus@) && !several {
            let (a, b) = choose|a: int, b: int|
                0 <= a < cpus@.len() && 0 <= b < cpus@.len() && cpus@[a].core_type is Some
                    && cpus@[b].core_type is Some && cpus@[a].core_type != cpus@[b].core_type;
            assert(cpus@[a].core_type == first_type);
            assert(cpus@[b].core_type == first_type);
        }
        if any_classification(cpus@) {
            let j = choose|j: int|
                0 <= j < cpus@.len() && ((#[trigger] cpus@[j]).core_type is Some
                    || cpus@[j].capacity is Some || cpus@[j].max_frequency is Some);
            assert(any_meta);
        }
    }
    if several {
        let t = max_core_type_exec(cpus);
        let mut out: Vec<LinuxCpuInfo> = Vec::new();
        let mut k: usize = 0;
        while k < n
            invariant
                n == cpus@.len(),
                k <= n,
                out@ == with_core_type(cpus@.take(k as int), t),
            decreases n - k,
        {
            reveal_with_fuel(Seq::<_>::filter, 1);
            assert(cpus@.take(k + 1).drop_last() =~= cpus@.take(k as int));
            if cpus[k].core_type == Some(t) {
                out.push(cpus[k]);
            }
            k = k + 1;
        }
        assert(cpus@.take(n as int) =~= cpus@);
        return Ok(out);
    }
    if complete {
        return Ok(vstd::slice::slice_to_vec(cpus));
    }
    if let Some(v) = linux_highest_scored_cpus(cpus, CpuScore::Capacity) {
        return Ok(v);
    }
    if let Some(v) = linux_highest_scored_cpus(cpus, CpuScore::MaxFrequency) {
        return Ok(v);
    }
    if !any_meta {
        return Ok(vstd::slice::slice_to_vec(cpus));
    }
    Err(CpuError::IncompleteMetadata)
}

/// Position at which `insert_by_cpu` places `x`: the first entry with a
/// larger CPU id.
pub open spec fn insert_position(x: LinuxCpuInfo, s: Seq<LinuxCpuInfo>, pos: int) -> bool {
    &&& 0 <= pos <= s.len()
    &&& forall|k: int| 0 <= k < pos ==> !(x.cpu < #[trigger] s[k].cpu)
    &&& pos < s.len() ==> x.cpu < s[pos].cpu
}

proof fn lemma_insert_at_position(x: LinuxCpuInfo, s: Seq<LinuxCpuInfo>, pos: int)
    requires
        insert_position(x, s, pos),
    ensures
        insert_by_cpu(x, s) == s.take(pos) + seq![x] + s.skip(pos),
    decreases s.len(),
{
    if s.len() == 0 {
        assert(s.take(pos) + seq![x] + s.skip(pos) =~= seq![x]);
    } else if x.cpu < s[0].cpu {
        assert(pos == 0);
        assert(s.take(0) + seq![x] + s.skip(0) =~= seq![x] + s);
    } else {
        assert(pos >= 1);
        let t = s.drop_first();
        assert(insert_position(x, t, pos - 1)) by {
            assert forall|k: int| 0 <= k < pos - 1 implies !(x.cpu < #[trigger] t[k].cpu) by {
                assert(t[k] == s[k + 1]);
            }
        }
        lemma_insert_at_position(x, t, pos - 1);
        assert(seq![s[0]] + (t.take(pos - 1) + seq![x] + t.skip(pos - 1)) =~= s.take(pos) + seq![x]
            + s.skip(pos));
    }
}

/// Sorted ascending by CPU id.
pub open spec fn cpu_sorted(s: Seq<LinuxCpuInfo>) -> bool {
    forall|i: int, j: int| 0 <= i <= j < s.len() ==> s[i].cpu <= s[j].cpu
}

proof fn lemma_insert_keeps_sorted(x: LinuxCpuInfo, s: Seq<LinuxCpuInfo>)
    requires
        cpu_sorted(s),
    ensures
        cpu_sorted(insert_by_cpu(x, s)),
        insert_by_cpu(x, s).len() == s.len() + 1,
    decreases s.len(),
{
    if s.len() == 0 {
    } else if x.cpu < s[0].cpu {
    } else {
        lemma_insert_keeps_sorted(x, s.drop_first());
        lemma_insert_len(x, s);
        let r = insert_by_cpu(x, s.drop_first());
        assert forall|i: int| 0 <= i < r.len() implies s[0].cpu <= #[trigger] r[i].cpu by {
            lemma_insert_elements(x, s.drop_first(), i);
        }
    }
}

proof fn lemma_insert_len(x: LinuxCpuInfo, s: Seq<LinuxCpuInfo>)
    ensures
        insert_by_cpu(x, s).len() == s.len() + 1,
    decreases s.len(),
{
    if s.len() > 0 && !(x.cpu < s[0].cpu) {
        lemma_insert_len(x, s.drop_first());
    }
}

proof fn lemma_insert_elements(x: LinuxCpuInfo, s: Seq<LinuxCpuInfo>, i: int)
    requires
        0 <= i < insert_by_cpu(x, s).len(),
    ensures
        insert_by_cpu(x, s)[i] == x || exists|k: int| 0 <= k < s.len() && insert_by_cpu(x, s)[i] == s[k],
    decreases s.len(),
{
    if s.len() == 0 {
    } else if x.cpu < s[0].cpu {
        if i > 0 {
            assert(insert_by_cpu(x, s)[i] == s[i - 1]);
        }
    } else {
        if i > 0 {
            lemma_insert_elements(x, s.drop_first(), i - 1);
            if insert_by_cpu(x, s)[i] != x {
                let k = choose|k: int| 0 <= k < s.drop_first().len() && insert_by_cpu(x, s.drop_first())[i - 1] == s.drop_first()[k];
                assert(insert_by_cpu(x, s)[i] == s[k + 1]);
            }
        } else {
            assert(insert_by_cpu(x, s)[0] == s[0]);
        }
    }
}

/// The stable sort by CPU id is sorted.
pub proof fn lemma_sort_by_cpu_sorted(s: Seq<LinuxCpuInfo>)
    ensures
        cpu_sorted(sort_by_cpu(s)),
        sort_by_cpu(s).len() == s.len(),
    decreases s.len(),
{
    if s.len() > 0 {
        lemma_sort_by_cpu_sorted(s.drop_last());
        lemma_insert_keeps_sorted(s.last(), sort_by_cpu(s.drop_last()));
    }
}

/// Every id kept by `first_per_core` is the id of an entry of `s`.
proof fn lemma_first_per_core_from(s: Seq<LinuxCpuInfo>, i: int)
    requires
        0 <= i < first_per_core(s).len(),
    ensures
        exists|k: int| 0 <= k < s.len() && first_per_core(s)[i] == s[k].cpu,
    decreases s.len(),
{
    let prev = first_per_core(s.drop_last());
    if i < prev.len() {
        lemma_first_per_core_from(s.drop_last(), i);
        let k = choose|k: int| 0 <= k < s.drop_last().len() && prev[i] == s.drop_last()[k].cpu;
        assert(first_per_core(s)[i] == s[k].cpu);
    } else {
        assert(first_per_core(s)[i] == s.last().cpu);
    }
}

/// Keeping the first CPU of each core keeps a sorted order sorted.
pub proof fn lemma_first_per_core_sorted(s: Seq<LinuxCpuInfo>)
    requires
        cpu_sorted(s),
    ensures
        forall|i: int, j: int| 0 <= i <= j < first_per_core(s).len() ==> first_per_core(s)[i]
            <= first_per_core(s)[j],
    decreases s.len(),
{
    if s.len() > 0 {
        lemma_first_per_core_sorted(s.drop_last());
        let prev = first_per_core(s.drop_last());
        let r = first_per_core(s);
        assert forall|i: int, j: int| 0 <= i <= j < r.len() implies r[i] <= r[j] by {
            if j >= prev.len() {
                assert(r[j] == s.last().cpu);
                if i < prev.len() {
                    lemma_first_per_core_from(s.drop_last(), i);
                    let k = choose|k: int| 0 <= k < s.drop_last().len() && prev[i] == s.drop_last()[k].cpu;
                    assert(s[k].cpu <= s[s.len() - 1].cpu);
                }
            } else {
                assert(r[i] == prev[i] && r[j] == prev[j]);
            }
        }
    }
}

/// The selected worker CPUs are in ascending order.
pub proof fn lemma_selection_ascending(cpus: Seq<LinuxCpuInfo>, allowed: Seq<usize>)
    ensures
        selection_spec(cpus, allowed) matches Ok(s) ==> forall|i: int, j: int|
            0 <= i <= j < s.len() ==> s[i] <= s[j],
{
    if let Ok(p) = candidates_spec(cpus) {
        let sorted = sort_by_cpu(allowed_only(p, allowed));
        lemma_sort_by_cpu_sorted(allowed_only(p, allowed));
        lemma_first_per_core_sorted(sorted);
    }
}

fn contains_usize(v: &[usize], x: usize) -> (r: bool)
    ensures
        r == v@.contains(x),
{
    let n = v.len();
    let mut i: usize = 0;
    while i < n
        invariant
            n == v@.len(),
            i <= n,
            forall|k: int| 0 <= k < i ==> v@[k] != x,
        decreases n - i,
    {
        if v[i] == x {
            return true;
        }
        i = i + 1;
    }
    false
}

fn contains_core(v: &Vec<(i64, i64)>, x: (i64, i64)) -> (r: bool)
    ensures
        r == v@.contains(x),
{
    let n = v.len();
    let mut i: usize = 0;
    while i < n
        invariant
            n == v@.len(),
            i <= n,
            forall|k: int| 0 <= k < i ==> v@[k] != x,
        decreases n - i,
    {
        if v[i].0 == x.0 && v[i].1 == x.1 {
            return true;
        }
        i = i + 1;
    }
    false
}

fn physical_core_exec(c: &LinuxCpuInfo) -> (r: Option<(i64, i64)>)
    ensures
        r == physical_core(*c),
{
    match (c.physical_package_id, c.core_id) {
        (Some(p), Some(k)) => if p >= 0 && k >= 0 {
            Some((p, k))
        } else {
            None
        },
        _ => None,
    }
}

/// Choose the worker CPUs: the performance candidates that `allowed`
/// contains, ascending by CPU id, one logical CPU per physical core;
/// refused when no allowed performance core remains.
pub fn select_linux_performance_cpus(cpus: &[LinuxCpuInfo], allowed: &[usize]) -> (r: Result<
    Vec<usize>,
    CpuError,
>)
    ensures
        match selection_spec(cpus@, allowed@) {
            Ok(s) => r matches Ok(v) && v@ == s,
            Err(e) => r == Err::<Vec<usize>, CpuError>(e),
        },
{
    let performance = match linux_performance_candidates(cpus) {
        Ok(p) => p,
        Err(e) => {
            return Err(e);
        },
    };
    let n = performance.len();
    // keep the allowed candidates
    let mut kept: Vec<LinuxCpuInfo> = Vec::new();
    let mut i: usize = 0;
    while i < n
        invariant
            n == performance@.len(),
            i <= n,
            kept@ == allowed_only(performance@.take(i as int), allowed@),
        decreases n - i,
    {
        reveal_with_fuel(Seq::<_>::filter, 1);
        assert(performance@.take(i + 1).drop_last() =~= performance@.take(i as int));
        if contains_usize(allowed, performance[i].cpu) {
            kept.push(performance[i]);
        }
        i = i + 1;
    }
    assert(performance@.take(n as int) =~= performance@);
    // stable sort by CPU id
    let m = kept.len();
    let mut sorted: Vec<LinuxCpuInfo> = Vec::new();
    let mut j: usize = 0;
    while j < m
        invariant
            m == kept@.len(),
            j <= m,
            sorted@ == sort_by_cpu(kept@.take(j as int)),
            sorted@.len() == j,
        decreases m - j,
    {
        let x = kept[j];
        let len = sorted.len();
        let mut pos: usize = 0;
        while pos < len && !(x.cpu < sorted[pos].cpu)
            invariant
                len == sorted@.len(),
                pos <= len,
                forall|k: int| 0 <= k < pos ==> !(x.cpu < #[trigger] sorted@[k].cpu),
            decreases len - pos,
        {
            pos = pos + 1;
        }
        proof {
            assert(insert_position(x, sorted@, pos as int));
            lemma_insert_at_position(x, sorted@, pos as int);
            assert(kept@.take(j + 1).drop_last() =~= kept@.take(j as int));
            assert(kept@.take(j + 1).last() == x);
        }
        let ghost before = sorted@;
        sorted.insert(pos, x);
        assert(sorted@ =~= before.take(pos as int) + seq![x] + before.skip(pos as int));
        j = j + 1;
    }
    assert(kept@.take(m as int) =~= kept@);
    // first CPU of each physical core
    let mut seen: Vec<(i64, i64)> = Vec::new();
    let mut selected: Vec<usize> = Vec::new();
    let mut k: usize = 0;
    while k < m
        invariant
            m == sorted@.len(),
            k <= m,
            selected@ == first_per_core(sorted@.take(k as int)),
            forall|c: (i64, i64)|
                seen@.contains(c) <==> exists|t: int| 0 <= t < k && physical_core(#[trigger] sorted@[t]) == Some(c),
        decreases m - k,
    {
        let e = sorted[k];
        let ghost pre = sorted@.take(k as int);
        assert(sorted@.take(k + 1).drop_last() =~= pre);
        assert(sorted@.take(k + 1).last() == e);
        match physical_core_exec(&e) {
            None => {
                selected.push(e.cpu);
            },
            Some(c) => {
                proof {
                    let s2 = sorted@.take(k + 1);
                    assert((exists|t: int| 0 <= t < s2.len() - 1 && physical_core(#[trigger] s2[t]) == Some(c))
                        <==> (exists|t: int| 0 <= t < k && physical_core(#[trigger] sorted@[t]) == Some(c))) by {
                        if exists|t: int| 0 <= t < k && physical_core(#[trigger] sorted@[t]) == Some(c) {
                            let t = choose|t: int| 0 <= t < k && physical_core(#[trigger] sorted@[t]) == Some(c);
                            assert(s2[t] == sorted@[t]);
                        }
                        if exists|t: int| 0 <= t < s2.len() - 1 && physical_core(#[trigger] s2[t]) == Some(c) {
                            let t = choose|t: int| 0 <= t < s2.len() - 1 && physical_core(#[trigger] s2[t]) == Some(c);
                            assert(s2[t] == sorted@[t]);
                        }
                    }
                }
                if !contains_core(&seen, c) {
                    let ghost old_seen = seen@;
                    selected.push(e.cpu);
                    seen.push(c);
                    proof {
                        assert(seen@ =~= old_seen.push(c));
                        assert forall|d: (i64, i64)|
                            seen@.contains(d) implies exists|t: int| 0 <= t < k + 1 && physical_core(#[trigger] sorted@[t]) == Some(d) by {
                            if d == c {
                                assert(physical_core(sorted@[k as int]) == Some(c));
                            } else {
                                let idx = choose|idx: int| 0 <= idx < seen@.len() && seen@[idx] == d;
                                assert(idx < old_seen.len());
                                assert(old_seen[idx] == d);
                                assert(old_seen.contains(d));
                            }
                        }
                        assert forall|d: (i64, i64)|
                            (exists|t: int| 0 <= t < k + 1 && physical_core(#[trigger] sorted@[t]) == Some(d)) implies seen@.contains(d) by {
                            let t = choose|t: int| 0 <= t < k + 1 && physical_core(#[trigger] sorted@[t]) == Some(d);
                            if t == k {
                                assert(seen@[seen@.len() - 1] == c);
                            } else {
                                assert(old_seen.contains(d));
                                let idx = choose|idx: int| 0 <= idx < old_seen.len() && old_seen[idx] == d;
                                assert(seen@[idx] == d);
                            }
                        }
                    }
                } else {
                    proof {
                        assert forall|d: (i64, i64)|
                            (exists|t: int| 0 <= t < k + 1 && physical_core(#[trigger] sorted@[t]) == Some(d)) implies seen@.contains(d) by {
                            let t = choose|t: int| 0 <= t < k + 1 && physical_core(#[trigger] sorted@[t]) == Some(d);
                            if t == k {
                                assert(d == c);
                            }
                        }
                    }
                }
            },
        }
        k = k + 1;
    }
    assert(sorted@.take(m as int) =~= sorted@);
    if selected.len() == 0 {
        return Err(CpuError::NoAllowedPerformanceCore);
    }
    Ok(selected)
}

/// The CPU assigned to worker `worker_index`: the entry at that position.
pub fn linux_cpu_for_worker(cpus: &[usize], worker_index: usize) -> (r: Option<usize>)
    ensures
        worker_index < cpus@.len() ==> r == Some(cpus@[worker_index as int]),
        worker_index >= cpus@.len() ==> r is None,
{
    if worker_index < cpus.len() {
        Some(cpus[worker_index])
    } else {
        None
    }
}

/// Every id strictly greater than the one before it.
pub open spec fn strictly_ascending(s: Seq<usize>) -> bool {
    forall|i: int, j: int| 0 <= i < j < s.len() ==> s[i] < s[j]
}

/// Adds `x` to a strictly ascending list, keeping it strictly ascending.
fn insert_ascending(v: &mut Vec<usize>, x: usize)
    requires
        strictly_ascending(old(v)@),
    ensures
        strictly_ascending(final(v)@),
        forall|y: usize| final(v)@.contains(y) <==> (old(v)@.contains(y) || y == x),
{
    let mut i: usize = 0;
    while i < v.len() && v[i] < x
        invariant
            i <= v@.len(),
            v@ == old(v)@,
            forall|k: int| 0 <= k < i ==> v@[k] < x,
        decreases v.len() - i,
    {
        i = i + 1;
    }
    if i < v.len() && v[i] == x {
        assert(v@[i as int] == x);
        return;
    }
    let ghost before = v@;
    v.insert(i, x);
    assert(v@ == before.insert(i as int, x));
    assert forall|y: usize| v@.contains(y) <==> (before.contains(y) || y == x) by {
        if v@.contains(y) {
            let k = choose|k: int| 0 <= k < v@.len() && v@[k] == y;
            if k < i {
                assert(before[k] == y);
            } else if k > i {
                assert(before[k - 1] == y);
            }
        }
        if before.contains(y) {
            let k = choose|k: int| 0 <= k < before.len() && before[k] == y;
            if k < i {
                assert(v@[k] == y);
            } else {
                assert(v@[k + 1] == y);
            }
        }
        if y == x {
            assert(v@[i as int] == x);
        }
    }
}

/// The CPUs to classify: those the kernel lists as online (or, when it
/// lists none, the allowed ones) together with every allowed CPU,
/// ascending, each once.
pub fn linux_discovered_cpus(online: Option<&[usize]>, allowed: &[usize]) -> (r: Vec<usize>)
    ensures
        strictly_ascending(r@),
        forall|c: usize|
            r@.contains(c) <==> (allowed@.contains(c) || (online matches Some(o) && o@.contains(c))),
{
    let mut out: Vec<usize> = Vec::new();
    let base: &[usize] = match online {
        Some(o) => o,
        None => allowed,
    };
    let mut i: usize = 0;
    while i < base.len()
        invariant
            i <= base@.len(),
            strictly_ascending(out@),
            forall|c: usize| out@.contains(c) <==> base@.take(i as int).contains(c),
        decreases base.len() - i,
    {
        insert_ascending(&mut out, base[i]);
        proof {
            let t0 = base@.take(i as int);
            let t1 = base@.take(i + 1);
            assert forall|c: usize| out@.contains(c) <==> t1.contains(c) by {
                if t1.contains(c) {
                    let k = choose|k: int| 0 <= k < t1.len() && t1[k] == c;
                    if k < i {
                        assert(t0[k] == c);
                    }
                }
                if t0.contains(c) {
                    let k = choose|k: int| 0 <= k < t0.len() && t0[k] == c;
                    assert(t1[k] == c);
                }
                if c == base@[i as int] {
                    assert(t1[i as int] == c);
                }
            }
        }
        i = i + 1;
    }
    assert(base@.take(base@.len() as int) =~= base@);
    let mut j: usize = 0;
    while j < allowed.len()
        invariant
            j <= allowed@.len(),
            strictly_ascending(out@),
            forall|c: usize| out@.contains(c) <==> (base@.contains(c) || allowed@.take(j as int).contains(c)),
        decreases allowed.len() - j,
    {
        insert_ascending(&mut out, allowed[j]);
        proof {
            let t0 = allowed@.take(j as int);
            let t1 = allowed@.take(j + 1);
            assert forall|c: usize| out@.contains(c) <==> (base@.contains(c) || t1.contains(c)) by {
                if t1.contains(c) {
                    let k = choose|k: int| 0 <= k < t1.len() && t1[k] == c;
                    if k < j {
                        assert(t0[k] == c);
                    }
                }
                if t0.contains(c) {
                    let k = choose|k: int| 0 <= k < t0.len() && t0[k] == c;
                    assert(t1[k] == c);
                }
                if c == allowed@[j as int] {
                    assert(t1[j as int] == c);
                }
            }
        }
        j = j + 1;
    }
    assert(allowed@.take(allowed@.len() as int) =~= allowed@);
    out
}

/// The CPU ids `a, a + 1, ..., b - 1`.
pub open spec fn cpu_range(a: int, b: int) -> Seq<usize> {
    Seq::new((b - a) as nat, |k: int| (a + k) as usize)
}

/// What one comma-separated entry of a Linux CPU list names: `a-b` is the
/// inclusive range from `a` to `b`, anything else a single id.
pub open spec fn cpu_part_spec(p: Seq<char>) -> Result<Seq<usize>, CpuError> {
    let k = first_index(p, '-');
    if k >= 0 {
        let a = parse_usize_spec(p.take(k));
        let b = parse_usize_spec(p.skip(k + 1));
        if a is Some && b is Some && a.unwrap() <= b.unwrap() {
            Ok(cpu_range(a.unwrap() as int, b.unwrap() + 1))
        } else {
            Err(CpuError::InvalidRange)
        }
    } else {
        match parse_usize_spec(p) {
            Some(v) => Ok(seq![v]),
            None => Err(CpuError::InvalidId),
        }
    }
}

/// The CPUs that a sequence of entries names, in order, empty entries
/// skipped; the first malformed entry decides the error.
pub open spec fn cpu_parts_spec(parts: Seq<Seq<char>>) -> Result<Seq<usize>, CpuError>
    decreases parts.len(),
{
    if parts.len() == 0 {
        Ok(Seq::empty())
    } else {
        match cpu_parts_spec(parts.drop_last()) {
            Err(e) => Err(e),
            Ok(t) => {
                if parts.last().len() == 0 {
                    Ok(t)
                } else {
                    match cpu_part_spec(parts.last()) {
                        Err(e) => Err(e),
                        Ok(h) => Ok(t + h),
                    }
                }
            },
        }
    }
}

/// The CPUs that a Linux CPU list (`/sys/devices/system/cpu/online` style)
/// names, or why it names none.
pub open spec fn parse_cpu_list_spec(s: Seq<char>) -> Result<Seq<usize>, CpuError> {
    match cpu_parts_spec(split_fields(trim_ws(s), ',')) {
        Err(e) => Err(e),
        Ok(c) => if c.len() == 0 {
            Err(CpuError::EmptyList)
        } else {
            Ok(c)
        },
    }
}

/// Once a prefix of the entries fails, the whole list fails the same way.
proof fn lemma_cpu_parts_error_prefix(parts: Seq<Seq<char>>, j: int)
    requires
        0 <= j <= parts.len(),
        cpu_parts_spec(parts.take(j)) is Err,
    ensures
        cpu_parts_spec(parts) == cpu_parts_spec(parts.take(j)),
    decreases parts.len(),
{
    if j == parts.len() {
        assert(parts.take(j) =~= parts);
    } else {
        assert(parts.drop_last().take(j) =~= parts.take(j));
        lemma_cpu_parts_error_prefix(parts.drop_last(), j);
    }
}

/// Appends the ids `a..=b` to `cpus`.
fn push_cpu_range(cpus: &mut Vec<usize>, a: usize, b: usize)
    requires
        a <= b,
    ensures
        final(cpus)@ == old(cpus)@ + cpu_range(a as int, b + 1),
{
    let ghost base = old(cpus)@;
    let mut x: usize = a;
    assert(cpu_range(a as int, a as int) =~= Seq::<usize>::empty());
    assert(cpus@ =~= base + cpu_range(a as int, a as int));
    loop
        invariant_except_break
            a <= x <= b,
            cpus@ == base + cpu_range(a as int, x as int),
        ensures
            cpus@ == base + cpu_range(a as int, b + 1),
        decreases b - x,
    {
        let ghost before = cpus@;
        cpus.push(x);
        assert(cpu_range(a as int, x + 1) =~= cpu_range(a as int, x as int).push(x));
        assert(cpus@ =~= base + cpu_range(a as int, x + 1));
        if x == b {
            break;
        }
        x = x + 1;
    }
}

/// Parses a Linux CPU list such as `0-3,8,10-11`: comma-separated ids and
/// inclusive ranges, surrounding whitespace and empty entries ignored.
pub fn parse_linux_cpu_list(value: &str) -> (r: Result<Vec<usize>, CpuError>)
    ensures
        match r {
            Ok(v) => parse_cpu_list_spec(value@) == Ok::<Seq<usize>, CpuError>(v@),
            Err(e) => parse_cpu_list_spec(value@) == Err::<Seq<usize>, CpuError>(e),
        },
{
    let t = trim(value);
    let parts = split(t, ',');
    let ghost ps = parts@.map_values(|x: &str| x@);
    let mut cpus: Vec<usize> = Vec::new();
    let mut i: usize = 0;
    assert(ps.take(0) =~= Seq::<Seq<char>>::empty());
    while i < parts.len()
        invariant
            ps == parts@.map_values(|x: &str| x@),
            ps == split_fields(trim_ws(value@), ','),
            i <= parts@.len(),
            cpu_parts_spec(ps.take(i as int)) == Ok::<Seq<usize>, CpuError>(cpus@),
        decreases parts.len() - i,
    {
        let part = parts[i];
        let ghost prev = cpus@;
        assert(part@ == ps[i as int]);
        assert(ps.take(i + 1).drop_last() =~= ps.take(i as int));
        assert(ps.take(i + 1).last() == part@);
        if part.unicode_len() != 0 {
            match split_once(part, '-') {
                Some((a, b)) => {
                    let pa = parse_usize(a);
                    let pb = parse_usize(b);
                    match (pa, pb) {
                        (Some(x), Some(y)) => {
                            if y < x {
                                proof {
                                    lemma_cpu_parts_error_prefix(ps, i + 1);
                                    assert(ps.take(parts@.len() as int) =~= ps);
                                }
                                return Err(CpuError::InvalidRange);
                            }
                            assert(cpu_part_spec(part@) == Ok::<Seq<usize>, CpuError>(
                                cpu_range(x as int, y + 1),
                            ));
                            push_cpu_range(&mut cpus, x, y);
                            assert(cpus@ == prev + cpu_range(x as int, y + 1));
                        },
                        _ => {
                            proof {
                                lemma_cpu_parts_error_prefix(ps, i + 1);
                            }
                            return Err(CpuError::InvalidRange);
                        },
                    }
                },
                None => {
                    match parse_usize(part) {
                        Some(x) => {
                            assert(cpu_part_spec(part@) == Ok::<Seq<usize>, CpuError>(seq![x]));
                            cpus.push(x);
                            assert(cpus@ =~= prev + seq![x]);
                        },
                        None => {
                            proof {
                                lemma_cpu_parts_error_prefix(ps, i + 1);
                            }
                            return Err(CpuError::InvalidId);
                        },
                    }
                },
            }
        } else {
            assert(cpus@ =~= prev);
        }
        assert(cpu_parts_spec(ps.take(i + 1)) == Ok::<Seq<usize>, CpuError>(cpus@));
        i = i + 1;
    }
    assert(ps.take(parts@.len() as int) =~= ps);
    if cpus.len() == 0 {
        return Err(CpuError::EmptyList);
    }
    Ok(cpus)
}


/// The little-endian `u32` at `i`.
pub open spec fn u32_le(b: Seq<u8>, i: int) -> u32 {
    (b[i] as int + 256 * b[i + 1] as int + 65536 * b[i + 2] as int + 16777216 * b[i + 3] as int) as u32
}

/// The size of an entry's header: its size and its type.
pub const CPU_SET_HEADER_SIZE: usize = 8;

/// The offset of a CPU set's id inside its entry.
pub const CPU_SET_ID_OFFSET: usize = 8;

/// The offset of a CPU set's efficiency class inside its entry.
pub const CPU_SET_EFFICIENCY_OFFSET: usize = 18;

/// The (id, efficiency class) of the CPU-set entries of a CPU-set
/// information buffer from `offset` on, of which `returned` bytes are
/// filled: each entry starts with its size and its type; an entry smaller
/// than its header, running past the filled bytes, or a CPU-set entry too
/// small for its fields makes the buffer malformed; entries of other types
/// are skipped.
pub open spec fn cpu_set_entries(buffer: Seq<u8>, returned: int, offset: int) -> Result<Seq<(u32, u8)>, CpuError>
    decreases returned - offset,
{
    if offset < 0 || offset + 8 > returned {
        Ok(Seq::empty())
    } else {
        let size = u32_le(buffer, offset) as int;
        let is_cpu_set = buffer[offset + 4] == 0 && buffer[offset + 5] == 0 && buffer[offset + 6] == 0
            && buffer[offset + 7] == 0;
        if size < 8 || offset + size > returned || (is_cpu_set && size < 19) {
            Err(CpuError::MalformedCpuSets)
        } else {
            match cpu_set_entries(buffer, returned, offset + size) {
                Err(e) => Err(e),
                Ok(rest) => if is_cpu_set {
                    Ok(seq![(u32_le(buffer, offset + 8), buffer[offset + 18])] + rest)
                } else {
                    Ok(rest)
                },
            }
        }
    }
}

fn u32_le_exec(b: &[u8], i: usize) -> (r: u32)
    requires
        i + 4 <= b@.len(),
    ensures
        r == u32_le(b@, i as int),
{
    let r = b[i] as u32 + 256 * (b[i + 1] as u32) + 65536 * (b[i + 2] as u32) + 16777216 * (b[i + 3] as u32);
    r
}

/// Walks a CPU-set information buffer for its CPU-set entries.
pub fn windows_cpu_set_entries(buffer: &[u8], returned: usize) -> (r: Result<Vec<(u32, u8)>, CpuError>)
    requires
        returned <= buffer@.len(),
    ensures
        match cpu_set_entries(buffer@, returned as int, 0) {
            Ok(s) => r matches Ok(v) && v@ == s,
            Err(e) => r == Err::<Vec<(u32, u8)>, CpuError>(e),
        },
{
    let mut out: Vec<(u32, u8)> = Vec::new();
    let mut offset: usize = 0;
    while offset <= returned && returned - offset >= 8
        invariant
            returned <= buffer@.len(),
            offset <= returned || offset == 0,
            cpu_set_entries(buffer@, returned as int, 0) == match cpu_set_entries(buffer@, returned as int, offset as int) {
                Ok(rest) => Ok::<Seq<(u32, u8)>, CpuError>(out@ + rest),
                Err(e) => Err(e),
            },
        decreases returned - offset,
    {
        let size = u32_le_exec(buffer, offset) as usize;
        let is_cpu_set = buffer[offset + 4] == 0 && buffer[offset + 5] == 0 && buffer[offset + 6] == 0
            && buffer[offset + 7] == 0;
        if size < 8 || size > returned - offset || (is_cpu_set && size < 19) {
            return Err(CpuError::MalformedCpuSets);
        }
        let ghost before = out@;
        if is_cpu_set {
            let id = u32_le_exec(buffer, offset + 8);
            out.push((id, buffer[offset + 18]));
            proof {
                match cpu_set_entries(buffer@, returned as int, offset + size) {
                    Ok(rest) => {
                        assert(out@ + rest =~= before + (seq![(id, buffer@[offset + 18])] + rest));
                    },
                    Err(e) => {},
                }
            }
        } else {
            proof {
                match cpu_set_entries(buffer@, returned as int, offset + size) {
                    Ok(rest) => {},
                    Err(e) => {},
                }
            }
        }
        offset = offset + size;
    }
    proof {
        assert(cpu_set_entries(buffer@, returned as int, offset as int) == Ok::<Seq<(u32, u8)>, CpuError>(Seq::empty()));
        assert(out@ + Seq::<(u32, u8)>::empty() =~= out@);
    }
    Ok(out)
}

/// The largest efficiency class among the entries (0 for none).
pub open spec fn best_efficiency(entries: Seq<(u32, u8)>) -> u8
    decreases entries.len(),
{
    if entries.len() == 0 {
        0
    } else {
        let rest = best_efficiency(entries.drop_last());
        if entries.last().1 > rest {
            entries.last().1
        } else {
            rest
        }
    }
}

/// The ids of the entries of class `c`, in order.
pub open spec fn ids_of_class(entries: Seq<(u32, u8)>, c: u8) -> Seq<u32>
    decreases entries.len(),
{
    if entries.len() == 0 {
        Seq::empty()
    } else if entries.last().1 == c {
        ids_of_class(entries.drop_last(), c).push(entries.last().0)
    } else {
        ids_of_class(entries.drop_last(), c)
    }
}

/// The performance CPU sets: those of the largest efficiency class (the
/// faster cores), in order; refused when there is no entry.
pub open spec fn windows_selection_spec(entries: Seq<(u32, u8)>) -> Result<Seq<u32>, CpuError> {
    if entries.len() == 0 {
        Err(CpuError::NoCpuSets)
    } else {
        Ok(ids_of_class(entries, best_efficiency(entries)))
    }
}

/// Selects the CPU sets of the performance class.
pub fn select_windows_cpu_sets(entries: &[(u32, u8)]) -> (r: Result<Vec<u32>, CpuError>)
    ensures
        match windows_selection_spec(entries@) {
            Ok(s) => r matches Ok(v) && v@ == s,
            Err(e) => r == Err::<Vec<u32>, CpuError>(e),
        },
{
    if entries.len() == 0 {
        return Err(CpuError::NoCpuSets);
    }
    let mut best: u8 = 0;
    let mut i: usize = 0;
    assert(entries@.take(0) =~= Seq::<(u32, u8)>::empty());
    while i < entries.len()
        invariant
            i <= entries@.len(),
            best == best_efficiency(entries@.take(i as int)),
        decreases entries.len() - i,
    {
        assert(entries@.take(i + 1).drop_last() =~= entries@.take(i as int));
        if entries[i].1 > best {
            best = entries[i].1;
        }
        i = i + 1;
    }
    assert(entries@.take(entries@.len() as int) =~= entries@);
    let mut out: Vec<u32> = Vec::new();
    let mut i: usize = 0;
    assert(entries@.take(0) =~= Seq::<(u32, u8)>::empty());
    while i < entries.len()
        invariant
            i <= entries@.len(),
            best == best_efficiency(entries@),
            out@ == ids_of_class(entries@.take(i as int), best),
        decreases entries.len() - i,
    {
        assert(entries@.take(i + 1).drop_last() =~= entries@.take(i as int));
        if entries[i].1 == best {
            out.push(entries[i].0);
        }
        i = i + 1;
    }
    assert(entries@.take(entries@.len() as int) =~= entries@);
    Ok(out)
}

} // verus!
