//! Code-region oracle, consumed as data: the set of byte ranges of a
//! document that lie inside fenced code blocks or inline code spans.
//!
//! The oracle is built once per document by the caller (it is an external
//! collaborator, not recomputed here) and answers whether a byte offset
//! falls inside a code region.

use vstd::prelude::*;

verus! {

/// Whether byte offset `b` falls inside one of the half-open ranges.
pub open spec fn in_ranges(rg: Seq<(usize, usize)>, b: int) -> bool {
    exists|k: int| 0 <= k < rg.len() && (#[trigger] rg[k]).0 <= b < rg[k].1
}

/// The byte ranges of a document that are code: fenced blocks and inline
/// spans, as half-open `[start, end)` byte ranges.
pub struct CodeRegions {
    ranges: Vec<(usize, usize)>,
}

impl CodeRegions {
    /// The half-open byte ranges held.
    pub closed spec fn view(&self) -> Seq<(usize, usize)> {
        self.ranges@
    }

    pub fn new(ranges: Vec<(usize, usize)>) -> (r: CodeRegions)
        ensures
            r@ == ranges@,
    {
        CodeRegions { ranges }
    }

    /// An oracle for a document with no code regions at all.
    pub fn none() -> (r: CodeRegions)
        ensures
            r@ == Seq::<(usize, usize)>::empty(),
    {
        let v: Vec<(usize, usize)> = Vec::new();
        CodeRegions { ranges: v }
    }

    /// The held ranges, for callers that compare or copy oracles.
    pub fn ranges_vec(&self) -> (r: &Vec<(usize, usize)>)
        ensures
            r@ == self@,
    {
        &self.ranges
    }

    /// Whether byte offset `b` is inside a fenced code block or code span.
    pub fn is_in_code_region(&self, b: usize) -> (r: bool)
        ensures
            r == in_ranges(self@, b as int),
    {
        let mut k: usize = 0;
        while k < self.ranges.len()
            invariant
                k <= self@.len(),
                forall|j: int| 0 <= j < k ==> !((#[trigger] self@[j]).0 <= b < self@[j].1),
            decreases self@.len() - k,
        {
            let (s, e) = self.ranges[k];
            if s <= b && b < e {
                return true;
            }
            k += 1;
        }
        false
    }
}

} // verus!
