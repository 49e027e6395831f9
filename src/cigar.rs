//! The operation string: runs of `<length><class>` read left to right.
//!
//! A run is a maximal stretch of ASCII digits followed directly by one of the
//! class letters `M`, `=` or `X`. Anything else (another letter, a digit run
//! with no class letter after it) is passed over. Run lengths too large for a
//! `usize` are held at `usize::MAX`: no vector is that long, so the counts
//! come out the same.
use vstd::prelude::*;
use crate::decimal::{digit_value, is_digit};
use crate::text::chars_of;

verus! {

/// The class of an alignment operation.
#[derive(Debug, Clone, Copy, PartialEq, Eq, Structural)]
pub enum OpClass {
    /// `M`: aligned, match or mismatch.
    Match,
    /// `=`: aligned and identical.
    Equal,
    /// `X`: aligned and different.
    Mismatch,
}

impl OpClass {
    /// Whether a run of this class adds to coverage. Every class moves the
    /// cursor along the target.
    pub open spec fn counts_spec(&self) -> bool {
        match self {
            OpClass::Match => true,
            OpClass::Equal => true,
            OpClass::Mismatch => false,
        }
    }

    #[verifier::when_used_as_spec(counts_spec)]
    pub fn counts(&self) -> (r: bool)
        ensures
            r == self.counts_spec(),
    {
        match self {
            OpClass::Match => true,
            OpClass::Equal => true,
            OpClass::Mismatch => false,
        }
    }
}

/// One run of the operation string.
#[derive(Debug, Clone, Copy, PartialEq, Eq, Structural)]
pub struct CigarOp {
    pub len: usize,
    pub class: OpClass,
}

/// The class that a letter names.
pub open spec fn class_of(c: char) -> Option<OpClass> {
    if c == 'M' {
        Some(OpClass::Match)
    } else if c == '=' {
        Some(OpClass::Equal)
    } else if c == 'X' {
        Some(OpClass::Mismatch)
    } else {
        None
    }
}

/// `n` with the digit `c` appended, held at `usize::MAX`.
pub open spec fn push_digit(n: usize, c: char) -> usize {
    if n * 10 + digit_value(c) > usize::MAX {
        usize::MAX
    } else {
        (n * 10 + digit_value(c)) as usize
    }
}

/// Reading one more character: the runs found so far, and the value of the
/// digit run that the text ends in, if it ends in one.
pub open spec fn scan_step(st: (Seq<CigarOp>, Option<usize>), c: char) -> (
    Seq<CigarOp>,
    Option<usize>,
) {
    if is_digit(c) {
        match st.1 {
            Some(n) => (st.0, Some(push_digit(n, c))),
            None => (st.0, Some(digit_value(c) as usize)),
        }
    } else {
        match (st.1, class_of(c)) {
            (Some(n), Some(k)) => (st.0.push(CigarOp { len: n, class: k }), None),
            _ => (st.0, None),
        }
    }
}

pub open spec fn scan(s: Seq<char>) -> (Seq<CigarOp>, Option<usize>)
    decreases s.len(),
{
    if s.len() == 0 {
        (Seq::empty(), None)
    } else {
        scan_step(scan(s.drop_last()), s.last())
    }
}

/// The runs of the operation string `s`, in order.
pub open spec fn cigar_ops(s: Seq<char>) -> Seq<CigarOp> {
    scan(s).0
}

/// Reads the runs of an operation string.
pub fn parse_cigar(s: &str) -> (r: Vec<CigarOp>)
    ensures
        r@ == cigar_ops(s@),
{
    let v = chars_of(s);
    let mut ops: Vec<CigarOp> = Vec::new();
    let mut run: Option<usize> = None;
    let mut i: usize = 0;
    while i < v.len()
        invariant
            i <= v@.len(),
            scan(v@.take(i as int)) == (ops@, run),
        decreases v.len() - i,
    {
        let c = v[i];
        assert(v@.take(i + 1).drop_last() == v@.take(i as int));
        assert(v@.take(i + 1).last() == c);
        if '0' <= c && c <= '9' {
            let d = (c as u32 - '0' as u32) as usize;
            assert(d == digit_value(c));
            run = match run {
                Some(n) => {
                    let next = match n.checked_mul(10) {
                        Some(m) => m.checked_add(d),
                        None => None,
                    };
                    match next {
                        Some(x) => Some(x),
                        None => Some(usize::MAX),
                    }
                },
                None => Some(d),
            };
        } else {
            let class = if c == 'M' {
                Some(OpClass::Match)
            } else if c == '=' {
                Some(OpClass::Equal)
            } else if c == 'X' {
                Some(OpClass::Mismatch)
            } else {
                None
            };
            match (run, class) {
                (Some(n), Some(k)) => {
                    ops.push(CigarOp { len: n, class: k });
                },
                _ => {},
            }
            run = None;
        }
        i += 1;
    }
    assert(v@.take(i as int) == v@);
    ops
}

} // verus!
