//! Extracting the fields that coverage needs from one alignment record line.
use vstd::prelude::*;
use crate::decimal::{decimal_usize, parse_usize_range};
use crate::text::{chars_of, string_of_range};

verus! {

/// The fields of `s` between tab characters, as splitting on `'\t'` gives
/// them: `n` tabs make `n + 1` fields, empty ones included.
pub open spec fn fields_of(s: Seq<char>) -> Seq<Seq<char>>
    decreases s.len(),
{
    if s.len() == 0 {
        seq![Seq::<char>::empty()]
    } else {
        let f = fields_of(s.drop_last());
        if s.last() == '\t' {
            f.push(Seq::<char>::empty())
        } else {
            f.update(f.len() - 1, f.last().push(s.last()))
        }
    }
}

/// The tag that marks the field holding the operation string.
pub open spec fn is_tag_field(f: Seq<char>) -> bool {
    &&& f.len() >= 5
    &&& f[0] == 'c'
    &&& f[1] == 'g'
    &&& f[2] == ':'
    &&& f[3] == 'z'
    &&& f[4] == ':'
}

/// How many characters of `s` come before its first `:` (all of them if none).
pub open spec fn colon_pos(s: Seq<char>) -> nat
    decreases s.len(),
{
    if s.len() == 0 || s[0] == ':' {
        0
    } else {
        1 + colon_pos(s.skip(1))
    }
}

/// The third `:`-separated part of a tagged field: what follows the tag, up
/// to the next `:`.
pub open spec fn tag_value(f: Seq<char>) -> Seq<char> {
    f.skip(5).take(colon_pos(f.skip(5)) as int)
}

/// The index of the first tagged field at `k` or after it.
pub open spec fn first_tag_from(fs: Seq<Seq<char>>, k: int) -> Option<int>
    decreases fs.len() - k,
{
    if k < 0 || k >= fs.len() {
        None
    } else if is_tag_field(fs[k]) {
        Some(k)
    } else {
        first_tag_from(fs, k + 1)
    }
}

/// The operation string of a record's fields, if a field carries the tag.
pub open spec fn cigar_of_fields(fs: Seq<Seq<char>>) -> Option<Seq<char>> {
    match first_tag_from(fs, 0) {
        Some(k) => Some(tag_value(fs[k])),
        None => None,
    }
}

/// Why a record line could not be read.
#[derive(Debug, Clone, Copy, PartialEq, Eq, Structural)]
pub enum ParseError {
    /// Fewer than nine tab-separated fields.
    TooFewFields,
    /// The target length (field 6) is not an unsigned integer.
    BadTargetLength,
    /// The alignment start (field 7) is not an unsigned integer.
    BadStart,
    /// The alignment end (field 8) is not an unsigned integer.
    BadEnd,
    /// Operation-aware counting was asked for and no field carries the tag.
    MissingCigar,
}

/// The fields of a record line that coverage needs.
pub struct PafRecord {
    pub target_name: String,
    pub target_length: usize,
    /// First aligned target position (inclusive).
    pub start: usize,
    /// End of the aligned target span (exclusive).
    pub end: usize,
    /// The operation string, where a field carries the tag.
    pub cigar: Option<String>,
}

/// A record as plain values.
pub struct RecordModel {
    pub target_name: Seq<char>,
    pub target_length: usize,
    pub start: usize,
    pub end: usize,
    pub cigar: Option<Seq<char>>,
}

impl View for PafRecord {
    type V = RecordModel;

    open spec fn view(&self) -> RecordModel {
        RecordModel {
            target_name: self.target_name@,
            target_length: self.target_length,
            start: self.start,
            end: self.end,
            cigar: match self.cigar {
                Some(c) => Some(c@),
                None => None,
            },
        }
    }
}

/// What reading `line` gives: the first failing check in field order, or the
/// record.
pub open spec fn parse_spec(line: Seq<char>) -> Result<RecordModel, ParseError> {
    let fs = fields_of(line);
    if fs.len() < 9 {
        Err(ParseError::TooFewFields)
    } else if decimal_usize(fs[6]) is None {
        Err(ParseError::BadTargetLength)
    } else if decimal_usize(fs[7]) is None {
        Err(ParseError::BadStart)
    } else if decimal_usize(fs[8]) is None {
        Err(ParseError::BadEnd)
    } else {
        Ok(
            RecordModel {
                target_name: fs[5],
                target_length: decimal_usize(fs[6])->0,
                start: decimal_usize(fs[7])->0,
                end: decimal_usize(fs[8])->0,
                cigar: cigar_of_fields(fs),
            },
        )
    }
}

proof fn lemma_fields_nonempty(s: Seq<char>)
    ensures
        fields_of(s).len() >= 1,
    decreases s.len(),
{
    if s.len() > 0 {
        lemma_fields_nonempty(s.drop_last());
    }
}

/// `b` holds the bounds `(lo, hi)` of each field of `v`, in order.
pub open spec fn bounds_of_fields(v: Seq<char>, b: Seq<(usize, usize)>) -> bool {
    &&& b.len() == fields_of(v).len()
    &&& forall|k: int|
        0 <= k < b.len() ==> {
            &&& b[k].0 <= b[k].1 <= v.len()
            &&& #[trigger] fields_of(v)[k] == v.subrange(b[k].0 as int, b[k].1 as int)
        }
}

/// The first `b.len()` fields of `v[..i]` end at or before `i`, with the
/// bounds that `b` gives.
spec fn done_fields(v: Seq<char>, b: Seq<(usize, usize)>, i: int) -> bool {
    forall|k: int|
        #![trigger b[k]]
        0 <= k < b.len() ==> b[k].0 <= b[k].1 && b[k].1 <= i && fields_of(v.take(i))[k]
            == v.subrange(b[k].0 as int, b[k].1 as int)
}

fn field_bounds(v: &Vec<char>) -> (r: Vec<(usize, usize)>)
    ensures
        bounds_of_fields(v@, r@),
{
    let mut r: Vec<(usize, usize)> = Vec::new();
    let mut cur: usize = 0;
    let mut i: usize = 0;
    while i < v.len()
        invariant
            cur <= i <= v@.len(),
            fields_of(v@.take(i as int)).len() == r@.len() + 1,
            fields_of(v@.take(i as int))[r@.len() as int] == v@.subrange(cur as int, i as int),
            done_fields(v@, r@, i as int),
        decreases v.len() - i,
    {
        let ghost prev = fields_of(v@.take(i as int));
        let ghost next = fields_of(v@.take(i + 1));
        let ghost old_r = r@;
        assert(v@.take(i + 1).drop_last() == v@.take(i as int));
        assert(v@.take(i + 1).last() == v@[i as int]);
        if v[i] == '\t' {
            assert(next == prev.push(Seq::<char>::empty()));
            r.push((cur, i));
            cur = i + 1;
            assert(v@.subrange(cur as int, i + 1) =~= Seq::<char>::empty());
            assert forall|k: int| 0 <= k < r@.len() implies {
                &&& r@[k].0 <= r@[k].1 <= i + 1
                &&& #[trigger] next[k] == v@.subrange(r@[k].0 as int, r@[k].1 as int)
            } by {
                if k < old_r.len() {
                    assert(next[k] == prev[k]);
                }
            }
        } else {
            assert(next == prev.update(prev.len() - 1, prev.last().push(v@[i as int])));
            assert(v@.subrange(cur as int, i + 1) =~= v@.subrange(cur as int, i as int).push(
                v@[i as int],
            ));
            assert forall|k: int| 0 <= k < r@.len() implies {
                &&& r@[k].0 <= r@[k].1 <= i + 1
                &&& #[trigger] next[k] == v@.subrange(r@[k].0 as int, r@[k].1 as int)
            } by {
                assert(next[k] == prev[k]);
            }
        }
        i += 1;
        assert(fields_of(v@.take(i as int)) == next);
    }
    assert(v@.take(i as int) =~= v@);
    assert(fields_of(v@.take(i as int)) == fields_of(v@));
    r.push((cur, i));
    assert forall|k: int| 0 <= k < r@.len() implies {
        &&& r@[k].0 <= r@[k].1 <= v@.len()
        &&& #[trigger] fields_of(v@)[k] == v@.subrange(r@[k].0 as int, r@[k].1 as int)
    } by {
        assert(fields_of(v@.take(i as int))[k] == v@.subrange(r@[k].0 as int, r@[k].1 as int));
    }
    r
}

/// Where in `v[lo..hi]` the first `:` stands (`hi` if there is none).
fn colon_end(v: &Vec<char>, lo: usize, hi: usize) -> (e: usize)
    requires
        lo <= hi <= v@.len(),
    ensures
        lo <= e <= hi,
        e == lo + colon_pos(v@.subrange(lo as int, hi as int)),
{
    let mut i: usize = lo;
    while i < hi && v[i] != ':'
        invariant
            lo <= i <= hi <= v@.len(),
            colon_pos(v@.subrange(lo as int, hi as int)) == (i - lo) + colon_pos(
                v@.subrange(i as int, hi as int),
            ),
        decreases hi - i,
    {
        assert(v@.subrange(i as int, hi as int).skip(1) == v@.subrange(i + 1, hi as int));
        i += 1;
    }
    i
}

/// Splits `line` on tabs and reads the target name (field 5), the target
/// length (6), the alignment start (7) and end (8), and the operation string:
/// in the first field that starts with `cg:z:`, the part after that tag up to
/// the next `:`.
pub fn parse_paf_line(line: &str) -> (r: Result<PafRecord, ParseError>)
    ensures
        match r {
            Ok(rec) => parse_spec(line@) == Ok::<RecordModel, ParseError>(rec@),
            Err(e) => parse_spec(line@) == Err::<RecordModel, ParseError>(e),
        },
{
    let v = chars_of(line);
    let b = field_bounds(&v);
    let ghost fs = fields_of(v@);
    if b.len() < 9 {
        return Err(ParseError::TooFewFields);
    }
    assert(fs[6] == v@.subrange(b@[6].0 as int, b@[6].1 as int));
    assert(fs[7] == v@.subrange(b@[7].0 as int, b@[7].1 as int));
    assert(fs[8] == v@.subrange(b@[8].0 as int, b@[8].1 as int));
    let target_length = match parse_usize_range(&v, b[6].0, b[6].1) {
        Some(n) => n,
        None => {
            return Err(ParseError::BadTargetLength);
        },
    };
    let start = match parse_usize_range(&v, b[7].0, b[7].1) {
        Some(n) => n,
        None => {
            return Err(ParseError::BadStart);
        },
    };
    let end = match parse_usize_range(&v, b[8].0, b[8].1) {
        Some(n) => n,
        None => {
            return Err(ParseError::BadEnd);
        },
    };
    assert(fs[5] == v@.subrange(b@[5].0 as int, b@[5].1 as int));
    let target_name = string_of_range(&v, b[5].0, b[5].1);
    let mut k: usize = 0;
    while k < b.len()
        invariant
            0 <= k <= b@.len() == fs.len(),
            fs == fields_of(v@),
            bounds_of_fields(v@, b@),
            first_tag_from(fs, 0) == first_tag_from(fs, k as int),
            fs.len() >= 9,
            target_name@ == fs[5],
            decimal_usize(fs[6]) == Some(target_length),
            decimal_usize(fs[7]) == Some(start),
            decimal_usize(fs[8]) == Some(end),
            v@ == line@,
        decreases b@.len() - k,
    {
        let (lo, hi) = b[k];
        assert(fs[k as int] == v@.subrange(lo as int, hi as int));
        if hi - lo >= 5 && v[lo] == 'c' && v[lo + 1] == 'g' && v[lo + 2] == ':' && v[lo + 3] == 'z'
            && v[lo + 4] == ':' {
            assert(is_tag_field(fs[k as int]));
            assert(first_tag_from(fs, k as int) == Some(k as int));
            let e = colon_end(&v, lo + 5, hi);
            assert(fs[k as int].skip(5) =~= v@.subrange(lo + 5, hi as int));
            assert(tag_value(fs[k as int]) =~= v@.subrange(lo + 5, e as int));
            let cigar = string_of_range(&v, lo + 5, e);
            assert(cigar_of_fields(fs) == Some(cigar@));
            return Ok(PafRecord { target_name, target_length, start, end, cigar: Some(cigar) });
        }
        assert(!is_tag_field(fs[k as int]));
        k += 1;
    }
    Ok(PafRecord { target_name, target_length, start, end, cigar: None })
}

} // verus!
