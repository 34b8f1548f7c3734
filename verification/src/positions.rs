//! Flat character offsets converted to line/column positions via the
//! precomputed, sorted newline-offset list.

use vstd::prelude::*;

verus! {

/// A zero-based line/character position in a document.
#[derive(Clone, Copy, Debug, PartialEq, Eq, Structural)]
pub struct TextPosition {
    pub line: u32,
    pub character: u32,
}

/// A start/end pair of positions.
#[derive(Clone, Copy, Debug, PartialEq, Eq, Structural)]
pub struct TextRange {
    pub start: TextPosition,
    pub end: TextPosition,
}

/// Strictly increasing offsets.
pub open spec fn strictly_sorted(s: Seq<usize>) -> bool {
    forall|i: int, j: int| 0 <= i < j < s.len() ==> s[i] < s[j]
}

/// How many offsets lie strictly below `x`: the line number of offset `x`.
pub open spec fn count_lt(s: Seq<usize>, x: int) -> int
    decreases s.len(),
{
    if s.len() == 0 {
        0
    } else {
        count_lt(s.drop_last(), x) + if s.last() < x {
            1int
        } else {
            0int
        }
    }
}

/// The range that a `(start, end)` offset pair denotes: both columns are
/// measured from the line that `start` lies on.
pub open spec fn range_spec(nls: Seq<usize>, start: int, end: int) -> TextRange {
    let line = count_lt(nls, start);
    let ls: int = if line == 0 {
        0
    } else {
        nls[line - 1] + 1
    };
    TextRange {
        start: TextPosition { line: line as u32, character: (start - ls) as u32 },
        end: TextPosition { line: line as u32, character: (end - ls) as u32 },
    }
}

/// In a sorted list split at `k` (all below `k` less than `x`, the rest at
/// least `x`), exactly `k` offsets lie below `x`.
proof fn lemma_count_lt_split(s: Seq<usize>, x: int, k: int)
    requires
        0 <= k <= s.len(),
        forall|j: int| 0 <= j < k ==> s[j] < x,
        forall|j: int| k <= j < s.len() ==> s[j] >= x,
    ensures
        count_lt(s, x) == k,
    decreases s.len(),
{
    if s.len() > 0 {
        if k == s.len() {
            lemma_count_lt_split(s.drop_last(), x, k - 1);
        } else {
            lemma_count_lt_split(s.drop_last(), x, k);
        }
    }
}

pub proof fn lemma_count_lt_bounds(s: Seq<usize>, x: int)
    ensures
        0 <= count_lt(s, x) <= s.len(),
    decreases s.len(),
{
    if s.len() > 0 {
        lemma_count_lt_bounds(s.drop_last(), x);
    }
}

/// Distinct sorted naturals grow at least as fast as their index.
proof fn lemma_sorted_ge(s: Seq<usize>, i: int)
    requires
        strictly_sorted(s),
        0 <= i < s.len(),
    ensures
        s[i] >= i,
    decreases i,
{
    if i > 0 {
        lemma_sorted_ge(s, i - 1);
    }
}

/// Converts the flat offsets `start_index..end_index` into a line/column
/// range, by binary search over the sorted newline offsets.
pub fn calculate_position(
    newline_indexes: &Vec<usize>,
    start_index: usize,
    end_index: usize,
) -> (r: TextRange)
    requires
        strictly_sorted(newline_indexes@),
        start_index <= end_index,
        end_index <= u32::MAX,
    ensures
        r == range_spec(newline_indexes@, start_index as int, end_index as int),
{
    let ghost nls = newline_indexes@;
    let mut lo: usize = 0;
    let mut hi: usize = newline_indexes.len();
    while lo < hi
        invariant
            lo <= hi <= nls.len(),
            nls == newline_indexes@,
            strictly_sorted(nls),
            forall|j: int| 0 <= j < lo ==> nls[j] < start_index,
            forall|j: int| hi <= j < nls.len() ==> nls[j] >= start_index,
        decreases hi - lo,
    {
        let mid = lo + (hi - lo) / 2;
        if newline_indexes[mid] < start_index {
            proof {
                assert(forall|j: int| 0 <= j < mid ==> nls[j] <= nls[mid as int]);
            }
            lo = mid + 1;
        } else {
            proof {
                assert(forall|j: int| mid < j < nls.len() ==> nls[j] >= nls[mid as int]);
            }
            hi = mid;
        }
    }
    proof {
        lemma_count_lt_split(nls, start_index as int, lo as int);
    }
    let line_start: usize = if lo == 0 {
        0
    } else {
        newline_indexes[lo - 1] + 1
    };
    let line: u32 = lo as u32;
    proof {
        lemma_count_lt_bounds(nls, start_index as int);
        assert(line_start <= start_index);
        assert(lo <= u32::MAX) by {
            if lo > 0 {
                lemma_sorted_ge(nls, lo - 1);
                assert(nls[lo - 1] < start_index);
            }
        }
    }
    TextRange {
        start: TextPosition { line, character: (start_index - line_start) as u32 },
        end: TextPosition { line, character: (end_index - line_start) as u32 },
    }
}

} // verus!
