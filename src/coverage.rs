//! Counting aligned positions into a coverage vector.
//!
//! Position `i` of a vector counts the alignments that cover target position
//! `i`. Increments that land at or past the end of the vector are dropped,
//! and a count that has reached `u32::MAX` stays there.
use vstd::prelude::*;
use crate::cigar::{CigarOp, cigar_ops, parse_cigar};

verus! {

/// A count after one more alignment covers its position.
pub open spec fn bump(c: u32) -> u32 {
    if c < u32::MAX {
        (c + 1) as u32
    } else {
        c
    }
}

/// Where the `k`-th run starts on the target when the first starts at `start`.
pub open spec fn op_start(ops: Seq<CigarOp>, start: int, k: int) -> int
    decreases k,
{
    if k <= 0 {
        start
    } else {
        op_start(ops, start, k - 1) + ops[k - 1].len
    }
}

/// The `k`-th run counts and covers target position `i`.
pub open spec fn op_covers(ops: Seq<CigarOp>, start: int, k: int, i: int) -> bool {
    &&& ops[k].class.counts_spec()
    &&& op_start(ops, start, k) <= i < op_start(ops, start, k) + ops[k].len
}

/// One of the first `n` runs counts and covers target position `i`.
pub open spec fn covered_within(ops: Seq<CigarOp>, start: int, n: int, i: int) -> bool {
    exists|k: int| 0 <= k < n && #[trigger] op_covers(ops, start, k, i)
}

/// Some run of `ops`, laid out from `start`, counts and covers position `i`.
pub open spec fn covered_by_ops(ops: Seq<CigarOp>, start: int, i: int) -> bool {
    covered_within(ops, start, ops.len() as int, i)
}

/// `v` with one more count at each position where `covered` holds. The
/// length stays: positions past the end are not there to count.
pub open spec fn bumped(v: Seq<u32>, covered: spec_fn(int) -> bool) -> Seq<u32> {
    Seq::new(v.len(), |i: int| if covered(i) { bump(v[i]) } else { v[i] })
}

/// Positions `[start, end)`.
pub open spec fn in_span(start: int, end: int) -> spec_fn(int) -> bool {
    |i: int| start <= i < end
}

/// Positions that a counting run of `ops`, laid out from `start`, covers.
pub open spec fn in_ops(ops: Seq<CigarOp>, start: int) -> spec_fn(int) -> bool {
    |i: int| covered_by_ops(ops, start, i)
}

/// Runs never start before the runs ahead of them.
pub proof fn lemma_op_start_monotone(ops: Seq<CigarOp>, start: int, a: int, b: int)
    requires
        0 <= a <= b,
    ensures
        op_start(ops, start, a) <= op_start(ops, start, b),
    decreases b - a,
{
    if a < b {
        lemma_op_start_monotone(ops, start, a, b - 1);
    }
}

/// Where the `k`-th run starts at or past `n`, the runs from it on cover no
/// position below `n`.
proof fn lemma_runs_past_end(ops: Seq<CigarOp>, start: int, k: int, n: int)
    requires
        0 <= k <= ops.len(),
        op_start(ops, start, k) >= n,
    ensures
        forall|i: int|
            0 <= i < n ==> covered_by_ops(ops, start, i) == covered_within(ops, start, k, i),
{
    assert forall|i: int| 0 <= i < n implies covered_by_ops(ops, start, i) == covered_within(
        ops,
        start,
        k,
        i,
    ) by {
        if covered_by_ops(ops, start, i) {
            let j = choose|j: int| 0 <= j < ops.len() && #[trigger] op_covers(ops, start, j, i);
            if j >= k {
                lemma_op_start_monotone(ops, start, k, j);
            }
        }
        if covered_within(ops, start, k, i) {
            let j = choose|j: int| 0 <= j < k && #[trigger] op_covers(ops, start, j, i);
            assert(op_covers(ops, start, j, i));
        }
    }
}

/// Adds one to each count in `v[lo..hi]`.
fn bump_range(v: &mut Vec<u32>, lo: usize, hi: usize)
    requires
        lo <= hi <= old(v)@.len(),
    ensures
        final(v)@ == bumped(old(v)@, in_span(lo as int, hi as int)),
{
    let mut j: usize = lo;
    while j < hi
        invariant
            v@.len() == old(v)@.len(),
            lo <= j <= hi <= v@.len(),
            forall|i: int|
                0 <= i < v@.len() ==> #[trigger] v@[i] == if lo <= i < j {
                    bump(old(v)@[i])
                } else {
                    old(v)@[i]
                },
        decreases hi - j,
    {
        let c = v[j];
        v.set(j, if c < u32::MAX { c + 1 } else { c });
        j += 1;
    }
    assert(v@ =~= bumped(old(v)@, in_span(lo as int, hi as int)));
}

/// Counts one alignment that covers target positions `[start, end)`, gaps
/// and all. Positions at or past the end of the vector are passed over.
pub fn update_coverage_vector_total_overlap(coverage_vector: &mut Vec<u32>, start: usize, end: usize)
    ensures
        final(coverage_vector)@ == bumped(old(coverage_vector)@, in_span(start as int, end as int)),
{
    let n = coverage_vector.len();
    let hi = if end < n { end } else { n };
    if start < hi {
        bump_range(coverage_vector, start, hi);
    }
    assert(coverage_vector@ =~= bumped(old(coverage_vector)@, in_span(start as int, end as int)));
}

/// Counts one alignment made of the runs `ops`, the first starting at target
/// position `start`. Each run moves the cursor on by its length; runs of a
/// counting class add one at each position they span. Positions at or past
/// the end of the vector are passed over.
pub fn apply_operations(coverage_vector: &mut Vec<u32>, ops: &Vec<CigarOp>, start: usize)
    ensures
        final(coverage_vector)@ == bumped(old(coverage_vector)@, in_ops(ops@, start as int)),
{
    let ghost old_v = coverage_vector@;
    let n = coverage_vector.len();
    let mut pos: usize = start;
    let mut k: usize = 0;
    while k < ops.len()
        invariant
            k <= ops@.len(),
            pos as int == op_start(ops@, start as int, k as int),
            coverage_vector@.len() == n == old_v.len(),
            old_v == old(coverage_vector)@,
            forall|i: int|
                0 <= i < n ==> #[trigger] coverage_vector@[i] == if covered_within(
                    ops@,
                    start as int,
                    k as int,
                    i,
                ) {
                    bump(old_v[i])
                } else {
                    old_v[i]
                },
        decreases ops.len() - k,
    {
        if pos >= n {
            proof {
                lemma_runs_past_end(ops@, start as int, k as int, n as int);
                assert(coverage_vector@ =~= bumped(old_v, in_ops(ops@, start as int)));
            }
            return;
        }
        let op = ops[k];
        let hi = if op.len > n - pos { n } else { pos + op.len };
        if op.class.counts() {
            bump_range(coverage_vector, pos, hi);
        }
        assert forall|i: int| 0 <= i < n implies #[trigger] coverage_vector@[i] == if covered_within(
            ops@,
            start as int,
            k + 1,
            i,
        ) {
            bump(old_v[i])
        } else {
            old_v[i]
        } by {
            if covered_within(ops@, start as int, k as int, i) {
                let j = choose|j: int| 0 <= j < k && #[trigger] op_covers(ops@, start as int, j, i);
                lemma_op_start_monotone(ops@, start as int, j + 1, k as int);
                assert(covered_within(ops@, start as int, k + 1, i));
            } else if op_covers(ops@, start as int, k as int, i) {
                assert(covered_within(ops@, start as int, k + 1, i));
            } else {
                assert(!covered_within(ops@, start as int, k + 1, i));
            }
        }
        match pos.checked_add(op.len) {
            Some(p) => {
                pos = p;
            },
            None => {
                proof {
                    lemma_runs_past_end(ops@, start as int, k + 1, n as int);
                    assert(coverage_vector@ =~= bumped(old_v, in_ops(ops@, start as int)));
                }
                return;
            },
        }
        k += 1;
    }
    assert forall|i: int| 0 <= i < n implies covered_by_ops(ops@, start as int, i)
        == covered_within(ops@, start as int, k as int, i) by {}
    assert(coverage_vector@ =~= bumped(old_v, in_ops(ops@, start as int)));
}

/// Counts one alignment given by its operation string, the first run
/// starting at target position `start`.
pub fn update_coverage_vector(coverage_vector: &mut Vec<u32>, cigar: &str, start: usize)
    ensures
        final(coverage_vector)@ == bumped(
            old(coverage_vector)@,
            in_ops(cigar_ops(cigar@), start as int),
        ),
{
    let ops = parse_cigar(cigar);
    apply_operations(coverage_vector, &ops, start);
}

} // verus!
