//! Applying planned replacements to a file's bytes in memory: the
//! replacements go in by position (operations at the same position keep
//! their plan order), and ranges that leave the file or overlap refuse the
//! whole file.

use vstd::prelude::*;
use crate::plan::PlannedOp;
use crate::plan::PlannedModel;
use crate::plan::planned_model;
use crate::plan::planned_models;

verus! {

/// Why planned replacements cannot be applied.
#[derive(Debug, Clone, Copy, PartialEq, Eq, Structural)]
pub enum ApplyError {
    /// A range ends before it starts or past the end of the file.
    RangeOutOfBounds,
    /// Two ranges overlap.
    Overlap,
}

/// Inserts `x` after every replacement that does not start after it.
pub open spec fn insert_by_start(s: Seq<PlannedModel>, x: PlannedModel) -> Seq<PlannedModel>
    decreases s.len(),
{
    if s.len() == 0 {
        seq![x]
    } else if x.range.0 < s[0].range.0 {
        seq![x] + s
    } else {
        seq![s[0]] + insert_by_start(s.drop_first(), x)
    }
}

/// The replacements in position order, a stable sort by start.
pub open spec fn by_start(ops: Seq<PlannedModel>) -> Seq<PlannedModel>
    decreases ops.len(),
{
    if ops.len() == 0 {
        Seq::empty()
    } else {
        insert_by_start(by_start(ops.drop_last()), ops.last())
    }
}

/// Every range lies inside a file of `len` bytes.
pub open spec fn ranges_in_bounds(s: Seq<PlannedModel>, len: int) -> bool {
    forall|i: int| 0 <= i < s.len() ==> 0 <= (#[trigger] s[i]).range.0 <= s[i].range.1 <= len
}

/// Consecutive ranges do not overlap (they may touch).
pub open spec fn ranges_disjoint(s: Seq<PlannedModel>) -> bool {
    forall|i: int| 0 <= i < s.len() - 1 ==> (#[trigger] s[i]).range.1 <= s[i + 1].range.0
}

/// The file with the position-ordered replacements `s` spliced in, from
/// byte `pos` on.
pub open spec fn splice(content: Seq<u8>, s: Seq<PlannedModel>, pos: int) -> Seq<u8>
    decreases s.len(),
{
    if s.len() == 0 {
        content.subrange(pos, content.len() as int)
    } else {
        content.subrange(pos, s[0].range.0) + s[0].replacement + splice(content, s.drop_first(), s[0].range.1)
    }
}

/// The file after the replacements, or why they cannot be applied.
pub open spec fn apply_spec(content: Seq<u8>, ops: Seq<PlannedModel>) -> Result<Seq<u8>, ApplyError> {
    let s = by_start(ops);
    if !ranges_in_bounds(s, content.len() as int) {
        Err(ApplyError::RangeOutOfBounds)
    } else if !ranges_disjoint(s) {
        Err(ApplyError::Overlap)
    } else {
        Ok(splice(content, s, 0))
    }
}

fn insert_by_start_exec(order: &mut Vec<usize>, ops: &[PlannedOp], x: usize)
    requires
        x < ops@.len(),
        forall|k: int| 0 <= k < old(order)@.len() ==> #[trigger] old(order)@[k] < ops@.len(),
    ensures
        forall|k: int| 0 <= k < final(order)@.len() ==> #[trigger] final(order)@[k] < ops@.len(),
        Seq::new(final(order)@.len(), |k: int| planned_model(ops@[final(order)@[k] as int])) == insert_by_start(
            Seq::new(old(order)@.len(), |k: int| planned_model(ops@[old(order)@[k] as int])),
            planned_model(ops@[x as int]),
        ),
{
    let ghost s0 = Seq::new(order@.len(), |k: int| planned_model(ops@[order@[k] as int]));
    let ghost xv = planned_model(ops@[x as int]);
    let mut i: usize = 0;
    assert(s0.skip(0) =~= s0);
    assert(s0.take(0) + s0 =~= s0);
    while i < order.len()
        invariant
            x < ops@.len(),
            forall|k: int| 0 <= k < order@.len() ==> #[trigger] order@[k] < ops@.len(),
            s0 == Seq::new(old(order)@.len(), |k: int| planned_model(ops@[old(order)@[k] as int])),
            xv == planned_model(ops@[x as int]),
            order@ == old(order)@,
            i <= order@.len(),
            insert_by_start(s0, xv) == s0.take(i as int) + insert_by_start(s0.skip(i as int), xv),
        decreases order.len() - i,
    {
        let ghost rest = s0.skip(i as int);
        assert(rest[0] == s0[i as int]);
        if ops[x].range.0 < ops[order[i]].range.0 {
            order.insert(i, x);
            proof {
                assert(Seq::new(order@.len(), |k: int| planned_model(ops@[order@[k] as int])) =~= s0.insert(i as int, xv));
                assert(s0.insert(i as int, xv) =~= s0.take(i as int) + (seq![xv] + rest));
                assert forall|k: int| 0 <= k < order@.len() implies #[trigger] order@[k] < ops@.len() by {
                    if k < i {
                        assert(order@[k] == old(order)@[k]);
                    } else if k > i {
                        assert(order@[k] == old(order)@[k - 1]);
                    }
                }
            }
            return;
        }
        proof {
            assert(rest.drop_first() =~= s0.skip(i + 1));
            assert(s0.take(i as int) + (seq![s0[i as int]] + insert_by_start(s0.skip(i + 1), xv)) =~= s0.take(i + 1)
                + insert_by_start(s0.skip(i + 1), xv));
        }
        i = i + 1;
    }
    order.push(x);
    proof {
        assert(Seq::new(order@.len(), |k: int| planned_model(ops@[order@[k] as int])) =~= s0.push(xv));
        assert(s0.skip(s0.len() as int) =~= Seq::<PlannedModel>::empty());
        assert(s0.take(s0.len() as int) + seq![xv] =~= s0.push(xv));
    }
}

/// Applies planned replacements to a file's bytes: in position order,
/// refusing ranges outside the file or overlapping one another.
pub fn apply_in_memory(content: &[u8], ops: &[PlannedOp]) -> (r: Result<Vec<u8>, ApplyError>)
    ensures
        match apply_spec(content@, planned_models(ops@)) {
            Ok(b) => r is Ok && r->Ok_0@ == b,
            Err(e) => r == Err::<Vec<u8>, ApplyError>(e),
        },
{
    let ghost ms = planned_models(ops@);
    let mut order: Vec<usize> = Vec::new();
    let mut i: usize = 0;
    assert(ms.take(0) =~= Seq::<PlannedModel>::empty());
    assert(Seq::new(order@.len(), |k: int| planned_model(ops@[order@[k] as int])) =~= by_start(ms.take(0)));
    while i < ops.len()
        invariant
            ms == planned_models(ops@),
            i <= ops@.len(),
            forall|k: int| 0 <= k < order@.len() ==> #[trigger] order@[k] < ops@.len(),
            Seq::new(order@.len(), |k: int| planned_model(ops@[order@[k] as int])) == by_start(ms.take(i as int)),
        decreases ops.len() - i,
    {
        assert(ms.take(i + 1).drop_last() =~= ms.take(i as int));
        assert(ms.take(i + 1).last() == planned_model(ops@[i as int]));
        insert_by_start_exec(&mut order, ops, i);
        i = i + 1;
    }
    assert(ms.take(ms.len() as int) =~= ms);
    let ghost s = by_start(ms);
    assert(s.len() == order@.len());
    let n = content.len();
    let mut k: usize = 0;
    while k < order.len()
        invariant
            s == Seq::new(order@.len(), |q: int| planned_model(ops@[order@[q] as int])),
            s == by_start(planned_models(ops@)),
            forall|q: int| 0 <= q < order@.len() ==> #[trigger] order@[q] < ops@.len(),
            n == content@.len(),
            k <= order@.len(),
            forall|q: int| 0 <= q < k ==> 0 <= (#[trigger] s[q]).range.0 <= s[q].range.1 <= n,
        decreases order.len() - k,
    {
        let op = &ops[order[k]];
        assert(s[k as int] == planned_model(*op));
        if !(op.range.0 <= op.range.1 && op.range.1 <= n) {
            assert(!(0 <= s[k as int].range.0 <= s[k as int].range.1 <= n));
            return Err(ApplyError::RangeOutOfBounds);
        }
        k = k + 1;
    }
    let mut k: usize = 0;
    while k < order.len() && k + 1 < order.len()
        invariant
            s == Seq::new(order@.len(), |q: int| planned_model(ops@[order@[q] as int])),
            s == by_start(planned_models(ops@)),
            n == content@.len(),
            forall|q: int| 0 <= q < order@.len() ==> #[trigger] order@[q] < ops@.len(),
            ranges_in_bounds(s, n as int),
            forall|q: int| 0 <= q < k && q < s.len() - 1 ==> (#[trigger] s[q]).range.1 <= s[q + 1].range.0,
        decreases order.len() - k,
    {
        let a = &ops[order[k]];
        let b = &ops[order[k + 1]];
        assert(s[k as int] == planned_model(*a));
        assert(s[k + 1] == planned_model(*b));
        if a.range.1 > b.range.0 {
            assert(!((s[k as int]).range.1 <= s[k + 1].range.0));
            return Err(ApplyError::Overlap);
        }
        k = k + 1;
    }
    assert(ranges_disjoint(s));
    let mut out: Vec<u8> = Vec::new();
    let mut pos: usize = 0;
    let mut k: usize = 0;
    assert(s.skip(0) =~= s);
    while k < order.len()
        invariant
            s == Seq::new(order@.len(), |q: int| planned_model(ops@[order@[q] as int])),
            forall|q: int| 0 <= q < order@.len() ==> #[trigger] order@[q] < ops@.len(),
            ranges_in_bounds(s, n as int),
            ranges_disjoint(s),
            n == content@.len(),
            k <= order@.len(),
            pos <= n,
            k < order@.len() ==> pos <= s[k as int].range.0,
            out@ + splice(content@, s.skip(k as int), pos as int) == splice(content@, s, 0),
        decreases order.len() - k,
    {
        let op = &ops[order[k]];
        assert(s[k as int] == planned_model(*op));
        let ghost rest = s.skip(k as int);
        assert(rest[0] == s[k as int]);
        assert(rest.drop_first() =~= s.skip(k + 1));
        let ghost before = out@;
        let mut j: usize = pos;
        while j < op.range.0
            invariant
                pos <= j <= op.range.0,
                op.range.0 <= n,
                n == content@.len(),
                out@ == before + content@.subrange(pos as int, j as int),
            decreases op.range.0 - j,
        {
            out.push(content[j]);
            assert(content@.subrange(pos as int, j + 1) =~= content@.subrange(pos as int, j as int).push(content@[j as int]));
            j = j + 1;
        }
        let ghost mid = out@;
        let mut j: usize = 0;
        while j < op.replacement.len()
            invariant
                j <= op.replacement@.len(),
                out@ == mid + op.replacement@.take(j as int),
            decreases op.replacement.len() - j,
        {
            out.push(op.replacement[j]);
            assert(op.replacement@.take(j + 1) =~= op.replacement@.take(j as int).push(op.replacement@[j as int]));
            j = j + 1;
        }
        assert(op.replacement@.take(op.replacement@.len() as int) =~= op.replacement@);
        proof {
            assert(splice(content@, rest, pos as int) == content@.subrange(pos as int, rest[0].range.0)
                + rest[0].replacement + splice(content@, rest.drop_first(), rest[0].range.1));
            assert(out@ =~= before + content@.subrange(pos as int, op.range.0 as int) + op.replacement@);
            if k + 1 < order@.len() {
                assert(s[k as int].range.1 <= s[k + 1].range.0);
            }
        }
        pos = op.range.1;
        k = k + 1;
    }
    let ghost before = out@;
    let mut j: usize = pos;
    while j < n
        invariant
            pos <= j <= n,
            n == content@.len(),
            out@ == before + content@.subrange(pos as int, j as int),
        decreases n - j,
    {
        out.push(content[j]);
        assert(content@.subrange(pos as int, j + 1) =~= content@.subrange(pos as int, j as int).push(content@[j as int]));
        j = j + 1;
    }
    assert(s.skip(order@.len() as int) =~= Seq::<PlannedModel>::empty());
    Ok(out)
}

/// Splicing keeps the bytes before the first replacement and after the
/// last one, and changes the length by what the replacements add and
/// remove.
pub proof fn lemma_splice_keeps_outside(content: Seq<u8>, s: Seq<PlannedModel>, pos: int)
    requires
        0 <= pos,
        ranges_in_bounds(s, content.len() as int),
        ranges_disjoint(s),
        s.len() > 0 ==> pos <= s[0].range.0,
        pos <= content.len(),
    ensures
        s.len() > 0 ==> splice(content, s, pos).take(s[0].range.0 - pos) == content.subrange(pos, s[0].range.0),
        s.len() > 0 ==> splice(content, s, pos).len() >= content.len() - s.last().range.1,
        s.len() > 0 ==> splice(content, s, pos).skip(splice(content, s, pos).len() - (content.len() - s.last().range.1))
            == content.skip(s.last().range.1),
        splice(content, s, pos).len() == content.len() - pos + delta(s),
    decreases s.len(),
{
    if s.len() > 0 {
        let t = s.drop_first();
        assert(ranges_in_bounds(t, content.len() as int)) by {
            assert forall|i: int| 0 <= i < t.len() implies 0 <= (#[trigger] t[i]).range.0 <= t[i].range.1 <= content.len() by {
                assert(t[i] == s[i + 1]);
            }
        }
        assert(ranges_disjoint(t)) by {
            assert forall|i: int| 0 <= i < t.len() - 1 implies (#[trigger] t[i]).range.1 <= t[i + 1].range.0 by {
                assert(t[i] == s[i + 1]);
                assert(t[i + 1] == s[i + 2]);
            }
        }
        if t.len() > 0 {
            assert(s[0].range.1 <= s[1].range.0);
            assert(t[0] == s[1]);
        }
        lemma_splice_keeps_outside(content, t, s[0].range.1);
        let head = content.subrange(pos, s[0].range.0);
        let r = splice(content, t, s[0].range.1);
        assert(splice(content, s, pos) == head + s[0].replacement + r);
        assert((head + s[0].replacement + r).take(s[0].range.0 - pos) =~= head);
        assert((head + s[0].replacement + r).len() >= r.len());
        if t.len() > 0 {
            assert(t.last() == s.last());
            assert((head + s[0].replacement + r).skip((head + s[0].replacement + r).len() - (content.len()
                - s.last().range.1)) =~= r.skip(r.len() - (content.len() - t.last().range.1)));
        } else {
            assert(r =~= content.skip(s[0].range.1));
            assert((head + s[0].replacement + r).skip((head + s[0].replacement + r).len() - (content.len()
                - s.last().range.1)) =~= r);
        }
    }
}

/// What the replacements add to the length.
pub open spec fn delta(s: Seq<PlannedModel>) -> int
    decreases s.len(),
{
    if s.len() == 0 {
        0
    } else {
        s[0].replacement.len() - (s[0].range.1 - s[0].range.0) + delta(s.drop_first())
    }
}


/// The lowest start of the planned ranges (`len` when there are none).
pub open spec fn lowest_start(ops: Seq<PlannedModel>, len: int) -> int
    decreases ops.len(),
{
    if ops.len() == 0 {
        len
    } else {
        let rest = lowest_start(ops.drop_first(), len);
        if ops[0].range.0 < rest {
            ops[0].range.0
        } else {
            rest
        }
    }
}

/// The highest end of the planned ranges (zero when there are none).
pub open spec fn highest_end(ops: Seq<PlannedModel>) -> int
    decreases ops.len(),
{
    if ops.len() == 0 {
        0
    } else {
        let rest = highest_end(ops.drop_first());
        if ops[0].range.1 > rest {
            ops[0].range.1
        } else {
            rest
        }
    }
}

proof fn lemma_extremes_drop_last(ops: Seq<PlannedModel>, len: int)
    requires
        ops.len() > 0,
    ensures
        lowest_start(ops, len) == if ops.last().range.0 < lowest_start(ops.drop_last(), len) {
            ops.last().range.0
        } else {
            lowest_start(ops.drop_last(), len)
        },
        highest_end(ops) == if ops.last().range.1 > highest_end(ops.drop_last()) {
            ops.last().range.1
        } else {
            highest_end(ops.drop_last())
        },
    decreases ops.len(),
{
    let df = ops.drop_first();
    let dl = ops.drop_last();
    if ops.len() > 1 {
        lemma_extremes_drop_last(df, len);
        assert(df.drop_last() =~= dl.drop_first());
        assert(df.last() == ops.last());
        assert(dl[0] == ops[0]);
        assert(lowest_start(dl, len) == if dl[0].range.0 < lowest_start(dl.drop_first(), len) {
            dl[0].range.0
        } else {
            lowest_start(dl.drop_first(), len)
        });
        assert(highest_end(dl) == if dl[0].range.1 > highest_end(dl.drop_first()) {
            dl[0].range.1
        } else {
            highest_end(dl.drop_first())
        });
    } else {
        assert(df.len() == 0);
        assert(dl.len() == 0);
        assert(lowest_start(df, len) == len);
        assert(lowest_start(dl, len) == len);
        assert(highest_end(df) == 0);
        assert(highest_end(dl) == 0);
        assert(ops[0] == ops.last());
    }
}

proof fn lemma_extremes_insert(s: Seq<PlannedModel>, x: PlannedModel, len: int)
    ensures
        lowest_start(insert_by_start(s, x), len) == if x.range.0 < lowest_start(s, len) {
            x.range.0
        } else {
            lowest_start(s, len)
        },
        highest_end(insert_by_start(s, x)) == if x.range.1 > highest_end(s) {
            x.range.1
        } else {
            highest_end(s)
        },
    decreases s.len(),
{
    if s.len() == 0 {
        let one = seq![x];
        assert(one.drop_first() =~= Seq::<PlannedModel>::empty());
        assert(lowest_start(one.drop_first(), len) == len);
        assert(highest_end(one.drop_first()) == 0);
        assert(one[0] == x);
        assert(lowest_start(s, len) == len);
        assert(highest_end(s) == 0);
    } else if x.range.0 < s[0].range.0 {
        let t = seq![x] + s;
        assert(t.drop_first() =~= s);
        assert(t[0] == x);
    } else {
        lemma_extremes_insert(s.drop_first(), x, len);
        let t = seq![s[0]] + insert_by_start(s.drop_first(), x);
        assert(t.drop_first() =~= insert_by_start(s.drop_first(), x));
        assert(t[0] == s[0]);
        assert(insert_by_start(s, x) == t);
    }
}

proof fn lemma_extremes_by_start(ops: Seq<PlannedModel>, len: int)
    ensures
        lowest_start(by_start(ops), len) == lowest_start(ops, len),
        highest_end(by_start(ops)) == highest_end(ops),
    decreases ops.len(),
{
    if ops.len() > 0 {
        lemma_extremes_by_start(ops.drop_last(), len);
        lemma_extremes_insert(by_start(ops.drop_last()), ops.last(), len);
        lemma_extremes_drop_last(ops, len);
    }
}

proof fn lemma_extremes_sorted(s: Seq<PlannedModel>, len: int)
    requires
        s.len() > 0,
        ranges_in_bounds(s, len),
        ranges_disjoint(s),
    ensures
        lowest_start(s, len) == s[0].range.0,
        highest_end(s) == s.last().range.1,
    decreases s.len(),
{
    let t = s.drop_first();
    if t.len() > 0 {
        assert(ranges_in_bounds(t, len)) by {
            assert forall|i: int| 0 <= i < t.len() implies 0 <= (#[trigger] t[i]).range.0 <= t[i].range.1 <= len by {
                assert(t[i] == s[i + 1]);
            }
        }
        assert(ranges_disjoint(t)) by {
            assert forall|i: int| 0 <= i < t.len() - 1 implies (#[trigger] t[i]).range.1 <= t[i + 1].range.0 by {
                assert(t[i] == s[i + 1]);
                assert(t[i + 1] == s[i + 2]);
            }
        }
        lemma_extremes_sorted(t, len);
        assert(t[0] == s[1]);
        assert(t.last() == s.last());
        assert(s[0].range.1 <= s[1].range.0);
        assert(0 <= s[0].range.0 <= s[0].range.1);
        assert(0 <= s[1].range.0 <= s[1].range.1);
        assert(s[1].range.1 <= s.last().range.1) by {
            lemma_ends_ascend(s, 1, s.len() - 1, len);
        }
        assert(lowest_start(s, len) == if s[0].range.0 < lowest_start(t, len) {
            s[0].range.0
        } else {
            lowest_start(t, len)
        });
        assert(highest_end(s) == if s[0].range.1 > highest_end(t) {
            s[0].range.1
        } else {
            highest_end(t)
        });
    } else {
        assert(0 <= s[0].range.0 <= s[0].range.1 <= len);
        assert(lowest_start(t, len) == len);
        assert(highest_end(t) == 0);
        assert(s[0] == s.last());
    }
}

proof fn lemma_ends_ascend(s: Seq<PlannedModel>, i: int, j: int, len: int)
    requires
        0 <= i <= j < s.len(),
        ranges_in_bounds(s, len),
        ranges_disjoint(s),
    ensures
        s[i].range.1 <= s[j].range.1,
    decreases j - i,
{
    if i < j {
        lemma_ends_ascend(s, i + 1, j, len);
        assert(s[i].range.1 <= s[i + 1].range.0);
        assert(0 <= s[i + 1].range.0 <= s[i + 1].range.1 <= len);
    }
}

/// The bytes outside the declared ranges are unchanged: `after` starts with
/// the bytes of `before` up to the lowest start and ends with its bytes
/// from the highest end on.
pub open spec fn outside_unchanged_spec(before: Seq<u8>, after: Seq<u8>, ops: Seq<PlannedModel>) -> bool {
    let lo = lowest_start(ops, before.len() as int);
    let hi = highest_end(ops);
    if ops.len() == 0 {
        after == before
    } else {
        &&& 0 <= lo <= before.len()
        &&& 0 <= hi <= before.len()
        &&& lo <= after.len()
        &&& before.len() - hi <= after.len()
        &&& after.take(lo) == before.take(lo)
        &&& after.skip(after.len() - (before.len() - hi)) == before.skip(hi)
    }
}

fn bytes_equal(a: &[u8], b: &[u8]) -> (r: bool)
    ensures
        r == (a@ == b@),
{
    if a.len() != b.len() {
        return false;
    }
    let mut i: usize = 0;
    while i < a.len()
        invariant
            a@.len() == b@.len(),
            i <= a@.len(),
            forall|k: int| 0 <= k < i ==> a@[k] == b@[k],
        decreases a.len() - i,
    {
        if a[i] != b[i] {
            return false;
        }
        i = i + 1;
    }
    assert(a@ =~= b@);
    true
}

/// Checks that an edit left every byte outside the planned ranges as it
/// was.
pub fn outside_ranges_unchanged(before: &[u8], after: &[u8], ops: &[PlannedOp]) -> (r: bool)
    ensures
        r == outside_unchanged_spec(before@, after@, planned_models(ops@)),
{
    let ghost m = planned_models(ops@);
    if ops.len() == 0 {
        return bytes_equal(before, after);
    }
    let mut lo: usize = before.len();
    let mut hi: usize = 0;
    let mut k: usize = 0;
    assert(m.take(0) =~= Seq::<PlannedModel>::empty());
    while k < ops.len()
        invariant
            m == planned_models(ops@),
            k <= ops@.len(),
            lo as int == lowest_start(m.take(k as int), before@.len() as int),
            hi as int == highest_end(m.take(k as int)),
        decreases ops.len() - k,
    {
        assert(m.take(k + 1).drop_last() =~= m.take(k as int));
        assert(m.take(k + 1).last() == planned_model(ops@[k as int]));
        proof {
            lemma_extremes_drop_last(m.take(k + 1), before@.len() as int);
        }
        let (a, b) = ops[k].range;
        if a < lo {
            lo = a;
        }
        if b > hi {
            hi = b;
        }
        k = k + 1;
    }
    assert(m.take(ops.len() as int) =~= m);
    if lo > before.len() || hi > before.len() || lo > after.len() || before.len() - hi > after.len() {
        return false;
    }
    let tail = before.len() - hi;
    let (b_head, _) = before.split_at(lo);
    let (a_head, _) = after.split_at(lo);
    let (_, b_tail) = before.split_at(hi);
    let (_, a_tail) = after.split_at(after.len() - tail);
    assert(b_head@ =~= before@.take(lo as int));
    assert(a_head@ =~= after@.take(lo as int));
    assert(b_tail@ =~= before@.skip(hi as int));
    assert(a_tail@ =~= after@.skip(after@.len() - tail));
    bytes_equal(a_head, b_head) && bytes_equal(a_tail, b_tail)
}


/// Applying planned replacements never touches a byte outside them: when
/// the application succeeds, every byte before the lowest start and from
/// the highest end on is as it was.
pub proof fn lemma_apply_keeps_outside(content: Seq<u8>, ops: Seq<PlannedModel>)
    requires
        apply_spec(content, ops) is Ok,
    ensures
        outside_unchanged_spec(content, apply_spec(content, ops)->Ok_0, ops),
{
    let s = by_start(ops);
    let after = splice(content, s, 0);
    lemma_by_start_len(ops);
    if ops.len() == 0 {
        assert(after =~= content);
    } else {
        lemma_extremes_by_start(ops, content.len() as int);
        lemma_extremes_sorted(s, content.len() as int);
        lemma_splice_keeps_outside(content, s, 0);
        assert(0 <= s[0].range.0 <= s[0].range.1 <= content.len());
        assert(0 <= s.last().range.0 <= s.last().range.1 <= content.len());
        assert(after == content.subrange(0, s[0].range.0) + s[0].replacement + splice(
            content,
            s.drop_first(),
            s[0].range.1,
        ));
        assert(after.take(s[0].range.0) =~= content.take(s[0].range.0));
    }
}

proof fn lemma_by_start_len(ops: Seq<PlannedModel>)
    ensures
        by_start(ops).len() == ops.len(),
    decreases ops.len(),
{
    if ops.len() > 0 {
        lemma_by_start_len(ops.drop_last());
        lemma_insert_len(by_start(ops.drop_last()), ops.last());
    }
}

proof fn lemma_insert_len(s: Seq<PlannedModel>, x: PlannedModel)
    ensures
        insert_by_start(s, x).len() == s.len() + 1,
    decreases s.len(),
{
    if s.len() > 0 && x.range.0 >= s[0].range.0 {
        lemma_insert_len(s.drop_first(), x);
    }
}

} // verus!
