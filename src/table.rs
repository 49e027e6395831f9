//! The coverage table: one coverage vector per target, made on first sight.
use vstd::prelude::*;
use crate::cigar::{CigarOp, cigar_ops, parse_cigar};
use crate::coverage::{
    apply_operations,
    bumped,
    in_ops,
    in_span,
    update_coverage_vector_total_overlap,
};
use crate::record::{PafRecord, ParseError, RecordModel, parse_paf_line, parse_spec};

verus! {

/// A table as plain values: `(target name, counts)` in order of first sight.
pub type TableModel = Seq<(Seq<char>, Seq<u32>)>;

pub open spec fn has_target(t: TableModel, name: Seq<char>) -> bool {
    exists|k: int| 0 <= k < t.len() && #[trigger] t[k].0 == name
}

pub open spec fn keys_unique(t: TableModel) -> bool {
    forall|a: int, b: int|
        0 <= a < t.len() && 0 <= b < t.len() && #[trigger] t[a].0 == #[trigger] t[b].0 ==> a == b
}

/// The position of `name`'s entry, or the end where there is none yet.
pub open spec fn target_index(t: TableModel, name: Seq<char>) -> int {
    if has_target(t, name) {
        choose|k: int| 0 <= k < t.len() && #[trigger] t[k].0 == name
    } else {
        t.len() as int
    }
}

pub open spec fn zeros(n: nat) -> Seq<u32> {
    Seq::new(n, |i: int| 0u32)
}

/// `t` with an entry for `name`: the one it has, or a new one of `len` zero
/// counts at the end.
pub open spec fn with_target(t: TableModel, name: Seq<char>, len: nat) -> TableModel {
    if has_target(t, name) {
        t
    } else {
        t.push((name, zeros(len)))
    }
}

/// `t` after one alignment on target `name` (declared `len` long) that
/// covers the positions where `covered` holds.
pub open spec fn add_coverage(
    t: TableModel,
    name: Seq<char>,
    len: nat,
    covered: spec_fn(int) -> bool,
) -> TableModel {
    let t1 = with_target(t, name, len);
    let k = target_index(t, name);
    t1.update(k, (name, bumped(t1[k].1, covered)))
}

/// `t` after one record, or the error where operation-aware counting finds
/// no operation string.
pub open spec fn add_record_spec(t: TableModel, r: RecordModel, overlap: bool) -> Result<
    TableModel,
    ParseError,
> {
    if overlap {
        Ok(
            add_coverage(
                t,
                r.target_name,
                r.target_length as nat,
                in_span(r.start as int, r.end as int),
            ),
        )
    } else {
        match r.cigar {
            Some(c) => Ok(
                add_coverage(
                    t,
                    r.target_name,
                    r.target_length as nat,
                    in_ops(cigar_ops(c), r.start as int),
                ),
            ),
            None => Err(ParseError::MissingCigar),
        }
    }
}

/// `t` after one record line.
pub open spec fn add_line_spec(t: TableModel, line: Seq<char>, overlap: bool) -> Result<
    TableModel,
    ParseError,
> {
    match parse_spec(line) {
        Ok(r) => add_record_spec(t, r, overlap),
        Err(e) => Err(e),
    }
}

/// One output interval: `count` alignments cover `target[start..end)`.
#[derive(Debug, PartialEq, Eq)]
pub struct BedRecord {
    pub target: String,
    pub start: usize,
    pub end: usize,
    pub count: u32,
}

/// Coverage vectors keyed by target name, each as long as the first record
/// of its target declared.
pub struct CoverageTable {
    names: Vec<String>,
    counts: Vec<Vec<u32>>,
}

impl View for CoverageTable {
    type V = TableModel;

    closed spec fn view(&self) -> TableModel {
        Seq::new(self.names@.len(), |k: int| (self.names@[k]@, self.counts@[k]@))
    }
}

fn zero_vec(n: usize) -> (r: Vec<u32>)
    ensures
        r@ == zeros(n as nat),
{
    let mut r: Vec<u32> = Vec::new();
    while r.len() < n
        invariant
            r@.len() <= n,
            forall|i: int| 0 <= i < r@.len() ==> r@[i] == 0u32,
        decreases n - r@.len(),
    {
        r.push(0);
    }
    assert(r@ =~= zeros(n as nat));
    r
}

impl CoverageTable {
    pub closed spec fn wf(&self) -> bool {
        &&& self.names@.len() == self.counts@.len()
        &&& keys_unique(self@)
    }

    pub fn new() -> (r: CoverageTable)
        ensures
            r.wf(),
            r@ == Seq::<(Seq<char>, Seq<u32>)>::empty(),
    {
        let r = CoverageTable { names: Vec::new(), counts: Vec::new() };
        assert(r@ =~= Seq::<(Seq<char>, Seq<u32>)>::empty());
        r
    }

    pub fn len(&self) -> (r: usize)
        requires
            self.wf(),
        ensures
            r == self@.len(),
    {
        self.names.len()
    }

    pub fn target_name(&self, k: usize) -> (r: &String)
        requires
            self.wf(),
            k < self@.len(),
        ensures
            r@ == self@[k as int].0,
    {
        &self.names[k]
    }

    pub fn target_counts(&self, k: usize) -> (r: &Vec<u32>)
        requires
            self.wf(),
            k < self@.len(),
        ensures
            r@ == self@[k as int].1,
    {
        &self.counts[k]
    }

    /// The position of `name`'s entry, if it has one.
    pub fn find(&self, name: &String) -> (r: Option<usize>)
        requires
            self.wf(),
        ensures
            match r {
                Some(k) => has_target(self@, name@) && k == target_index(self@, name@),
                None => !has_target(self@, name@),
            },
    {
        let mut k: usize = 0;
        while k < self.names.len()
            invariant
                self.wf(),
                k <= self@.len(),
                forall|j: int| 0 <= j < k ==> #[trigger] self@[j].0 != name@,
            decreases self@.len() - k,
        {
            assert(self@[k as int].0 == self.names@[k as int]@);
            if self.names[k] == *name {
                assert(self@[k as int].0 == name@);
                return Some(k);
            }
            k += 1;
        }
        None
    }

    /// Takes the counts of entry `k` out, leaving an empty vector there.
    fn take_counts(&mut self, k: usize) -> (r: Vec<u32>)
        requires
            k < old(self).counts@.len(),
        ensures
            r == old(self).counts@[k as int],
            final(self).names == old(self).names,
            final(self).counts@.len() == old(self).counts@.len(),
            forall|j: int|
                0 <= j < old(self).counts@.len() && j != k ==> final(self).counts@[j]
                    == old(self).counts@[j],
    {
        let mut out: Vec<u32> = Vec::new();
        std::mem::swap(&mut self.counts[k], &mut out);
        out
    }

    /// The position of `name`'s entry, made with `len` zero counts where
    /// there is none yet.
    fn entry_index(&mut self, name: &String, len: usize) -> (r: usize)
        requires
            old(self).wf(),
        ensures
            final(self).wf(),
            final(self)@ == with_target(old(self)@, name@, len as nat),
            r == target_index(old(self)@, name@),
            r < final(self)@.len(),
    {
        match self.find(name) {
            Some(k) => k,
            None => {
                let ghost t = self@;
                self.names.push(name.clone());
                self.counts.push(zero_vec(len));
                assert(self@ =~= t.push((name@, zeros(len as nat))));
                self.names.len() - 1
            },
        }
    }

    /// Counts one alignment on target `name` covering `[start, end)`.
    pub fn add_span(&mut self, name: &String, target_length: usize, start: usize, end: usize)
        requires
            old(self).wf(),
        ensures
            final(self).wf(),
            final(self)@ == add_coverage(
                old(self)@,
                name@,
                target_length as nat,
                in_span(start as int, end as int),
            ),
    {
        let k = self.entry_index(name, target_length);
        let ghost t1 = self@;
        let mut c = self.take_counts(k);
        update_coverage_vector_total_overlap(&mut c, start, end);
        self.counts.set(k, c);
        assert(self@ =~= t1.update(k as int, (name@, bumped(t1[k as int].1, in_span(start as int, end as int)))));
    }

    /// Counts one alignment on target `name` made of the runs `ops`, the
    /// first starting at `start`.
    pub fn add_ops(&mut self, name: &String, target_length: usize, ops: &Vec<CigarOp>, start: usize)
        requires
            old(self).wf(),
        ensures
            final(self).wf(),
            final(self)@ == add_coverage(
                old(self)@,
                name@,
                target_length as nat,
                in_ops(ops@, start as int),
            ),
    {
        let k = self.entry_index(name, target_length);
        let ghost t1 = self@;
        let mut c = self.take_counts(k);
        apply_operations(&mut c, ops, start);
        self.counts.set(k, c);
        assert(self@ =~= t1.update(k as int, (name@, bumped(t1[k as int].1, in_ops(ops@, start as int)))));
    }

    /// Counts one record: its span where `overlap` is set, else its
    /// operation string, which it must then have.
    pub fn add_record(&mut self, rec: &PafRecord, overlap: bool) -> (r: Result<(), ParseError>)
        requires
            old(self).wf(),
        ensures
            final(self).wf(),
            match add_record_spec(old(self)@, rec@, overlap) {
                Ok(t) => r is Ok && final(self)@ == t,
                Err(e) => r == Err::<(), ParseError>(e) && final(self)@ == old(self)@,
            },
    {
        if overlap {
            self.add_span(&rec.target_name, rec.target_length, rec.start, rec.end);
            Ok(())
        } else {
            match &rec.cigar {
                Some(c) => {
                    let ops = parse_cigar(c.as_str());
                    self.add_ops(&rec.target_name, rec.target_length, &ops, rec.start);
                    Ok(())
                },
                None => Err(ParseError::MissingCigar),
            }
        }
    }

    /// Reads one record line and counts it. A line that cannot be read
    /// leaves the table as it was.
    pub fn add_line(&mut self, line: &str, overlap: bool) -> (r: Result<(), ParseError>)
        requires
            old(self).wf(),
        ensures
            final(self).wf(),
            match add_line_spec(old(self)@, line@, overlap) {
                Ok(t) => r is Ok && final(self)@ == t,
                Err(e) => r == Err::<(), ParseError>(e) && final(self)@ == old(self)@,
            },
    {
        match parse_paf_line(line) {
            Ok(rec) => self.add_record(&rec, overlap),
            Err(e) => Err(e),
        }
    }

    /// The output intervals of entry `k`: one per position, in order, zero
    /// counts included.
    pub fn bed_records(&self, k: usize) -> (r: Vec<BedRecord>)
        requires
            self.wf(),
            k < self@.len(),
        ensures
            r@.len() == self@[k as int].1.len(),
            forall|i: int|
                0 <= i < r@.len() ==> {
                    &&& #[trigger] r@[i].target@ == self@[k as int].0
                    &&& r@[i].start == i
                    &&& r@[i].end == i + 1
                    &&& r@[i].count == self@[k as int].1[i]
                },
    {
        let name = &self.names[k];
        let c = &self.counts[k];
        assert(self@[k as int] == (name@, c@));
        let mut r: Vec<BedRecord> = Vec::new();
        let mut i: usize = 0;
        while i < c.len()
            invariant
                i <= c@.len(),
                r@.len() == i,
                forall|j: int|
                    0 <= j < i ==> {
                        &&& #[trigger] r@[j].target@ == name@
                        &&& r@[j].start == j
                        &&& r@[j].end == j + 1
                        &&& r@[j].count == c@[j]
                    },
            decreases c@.len() - i,
        {
            r.push(BedRecord { target: name.clone(), start: i, end: i + 1, count: c[i] });
            i += 1;
        }
        r
    }
}

} // verus!
