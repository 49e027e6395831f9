//! Laws of counting that hold across calls.
use vstd::prelude::*;
use crate::cigar::CigarOp;
use crate::coverage::{bumped, in_ops, in_span, lemma_op_start_monotone, op_covers};
use crate::table::{add_coverage, has_target, keys_unique, target_index, zeros, TableModel};

verus! {

/// Counts add up: counting the same alignment twice adds two at each
/// position it covers, as long as the counts stay below `u32::MAX`.
pub proof fn lemma_count_twice(v: Seq<u32>, covered: spec_fn(int) -> bool)
    requires
        forall|i: int| 0 <= i < v.len() ==> v[i] <= u32::MAX - 2,
    ensures
        bumped(bumped(v, covered), covered) == Seq::new(
            v.len(),
            |i: int|
                if covered(i) {
                    (v[i] + 2) as u32
                } else {
                    v[i]
                },
        ),
{
    assert(bumped(bumped(v, covered), covered) =~= Seq::new(
        v.len(),
        |i: int|
            if covered(i) {
                (v[i] + 2) as u32
            } else {
                v[i]
            },
    ));
}

/// An alignment that starts at or past the end of the vector changes
/// nothing, in either counting mode, and the length never changes.
pub proof fn lemma_past_end_ignored(v: Seq<u32>, ops: Seq<CigarOp>, start: int, end: int)
    requires
        start >= v.len(),
    ensures
        bumped(v, in_span(start, end)) == v,
        bumped(v, in_ops(ops, start)) == v,
{
    assert forall|i: int| 0 <= i < v.len() implies !(#[trigger] in_ops(ops, start)(i)) by {
        if in_ops(ops, start)(i) {
            let k = choose|k: int| 0 <= k < ops.len() && #[trigger] op_covers(ops, start, k, i);
            lemma_op_start_monotone(ops, start, 0, k);
        }
    }
    assert(bumped(v, in_span(start, end)) =~= v);
    assert(bumped(v, in_ops(ops, start)) =~= v);
}

/// A target declared zero long gets an empty vector, and every later
/// alignment on it leaves the vector empty.
pub proof fn lemma_zero_length_target(t: TableModel, name: Seq<char>, covered: spec_fn(int) -> bool)
    requires
        keys_unique(t),
    ensures
        !has_target(t, name) ==> add_coverage(t, name, 0, covered) == t.push(
            (name, Seq::<u32>::empty()),
        ),
        forall|len: nat|
            has_target(t, name) && t[target_index(t, name)].1.len() == 0 ==> #[trigger] add_coverage(
                t,
                name,
                len,
                covered,
            ) == t,
{
    if !has_target(t, name) {
        assert(bumped(zeros(0), covered) =~= Seq::<u32>::empty());
        assert(t.push((name, zeros(0)))[t.len() as int].1 == zeros(0));
        assert(add_coverage(t, name, 0, covered) =~= t.push((name, Seq::<u32>::empty())));
    }
    assert forall|len: nat|
        has_target(t, name) && t[target_index(t, name)].1.len() == 0 implies #[trigger] add_coverage(
            t,
            name,
            len,
            covered,
        ) == t by {
        let k = target_index(t, name);
        assert(bumped(t[k].1, covered) =~= t[k].1);
        assert(t.update(k, (name, bumped(t[k].1, covered))) =~= t);
    }
}

/// Two alignments on a target not yet in the table make one entry, as long
/// as the first declared it, whose counts are the sum of both.
pub proof fn lemma_same_target_sums(
    t: TableModel,
    name: Seq<char>,
    len1: nat,
    len2: nat,
    c1: spec_fn(int) -> bool,
    c2: spec_fn(int) -> bool,
)
    requires
        keys_unique(t),
        !has_target(t, name),
    ensures
        ({
            let t2 = add_coverage(add_coverage(t, name, len1, c1), name, len2, c2);
            &&& t2.len() == t.len() + 1
            &&& t2.take(t.len() as int) == t
            &&& t2[t.len() as int].0 == name
            &&& t2[t.len() as int].1 == Seq::new(
                len1,
                |i: int| ((if c1(i) { 1int } else { 0 }) + (if c2(i) { 1int } else { 0 })) as u32,
            )
        }),
{
    let n = t.len() as int;
    let t1 = add_coverage(t, name, len1, c1);
    assert(t1 =~= t.push((name, bumped(zeros(len1), c1))));
    assert(t1[n].0 == name);
    assert(has_target(t1, name));
    let k = target_index(t1, name);
    assert(k == n) by {
        if k != n {
            assert(t[k].0 == name);
        }
    }
    let t2 = add_coverage(t1, name, len2, c2);
    assert(t2 =~= t.push((name, bumped(bumped(zeros(len1), c1), c2))));
    assert(t2.take(n) =~= t);
    assert(bumped(bumped(zeros(len1), c1), c2) =~= Seq::new(
        len1,
        |i: int| ((if c1(i) { 1int } else { 0 }) + (if c2(i) { 1int } else { 0 })) as u32,
    ));
}

} // verus!
