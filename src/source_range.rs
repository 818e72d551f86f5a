//! Line/column intervals of source text and their containment order.
use vstd::prelude::*;

verus! {

/// A range of source text, from (start_line, start_col) to (end_line, end_col).
#[derive(Debug, Clone, Copy, PartialEq, Eq)]
pub struct SourceRange {
    pub start_line: i32,
    pub start_col: i32,
    pub end_line: i32,
    pub end_col: i32,
}

/// Position (l1, c1) does not come after position (l2, c2), ordered by line, then column.
pub open spec fn pos_le(l1: int, c1: int, l2: int, c2: int) -> bool {
    l1 < l2 || (l1 == l2 && c1 <= c2)
}

impl SourceRange {
    /// `inner` starts no earlier and ends no later than `self`.
    pub open spec fn encloses(self, inner: SourceRange) -> bool {
        &&& pos_le(self.start_line as int, self.start_col as int, inner.start_line as int, inner.start_col as int)
        &&& pos_le(inner.end_line as int, inner.end_col as int, self.end_line as int, self.end_col as int)
    }

    /// The weight used to order definitions by extent: lines dominate columns.
    pub open spec fn size(self) -> int {
        (self.end_line - self.start_line) * 1000 + (self.end_col - self.start_col)
    }

    /// The all-zero range.
    pub open spec fn zero() -> SourceRange {
        SourceRange { start_line: 0, start_col: 0, end_line: 0, end_col: 0 }
    }

    /// Whether `other` lies entirely within `self`.
    pub fn contains(&self, other: &SourceRange) -> (r: bool)
        ensures
            r == self.encloses(*other),
    {
        if self.start_line > other.start_line || self.end_line < other.end_line {
            return false;
        }
        if self.start_line == other.start_line && self.start_col > other.start_col {
            return false;
        }
        if self.end_line == other.end_line && self.end_col < other.end_col {
            return false;
        }
        true
    }

    /// The extent weight of this range, computed without overflow.
    pub fn extent(&self) -> (r: i64)
        ensures
            r as int == self.size(),
    {
        (self.end_line as i64 - self.start_line as i64) * 1000 + (self.end_col as i64
            - self.start_col as i64)
    }
}

/// Every range encloses itself.
pub proof fn lemma_encloses_reflexive(r: SourceRange)
    ensures
        r.encloses(r),
{
}

/// Containment is transitive.
pub proof fn lemma_encloses_transitive(a: SourceRange, b: SourceRange, c: SourceRange)
    requires
        a.encloses(b),
        b.encloses(c),
    ensures
        a.encloses(c),
{
}

/// The range that an index records as a list of integers: three entries are
/// `[line, start_col, end_col]` on one line, four are
/// `[start_line, start_col, end_line, end_col]`, anything else is the zero range.
pub open spec fn range_of(s: Seq<i32>) -> SourceRange {
    if s.len() == 3 {
        SourceRange { start_line: s[0], start_col: s[1], end_line: s[0], end_col: s[2] }
    } else if s.len() == 4 {
        SourceRange { start_line: s[0], start_col: s[1], end_line: s[2], end_col: s[3] }
    } else {
        SourceRange::zero()
    }
}

/// Decodes the integer list of an occurrence into a range.
pub fn parse_scip_range(range: &[i32]) -> (r: SourceRange)
    ensures
        r == range_of(range@),
{
    if range.len() == 3 {
        SourceRange { start_line: range[0], start_col: range[1], end_line: range[0], end_col: range[2] }
    } else if range.len() == 4 {
        SourceRange { start_line: range[0], start_col: range[1], end_line: range[2], end_col: range[3] }
    } else {
        SourceRange { start_line: 0, start_col: 0, end_line: 0, end_col: 0 }
    }
}

} // verus!
