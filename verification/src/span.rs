//! Source positions: byte spans and a line index mapping byte offsets to
//! 1-based line/column pairs.

use vstd::prelude::*;
use vstd::string::StringSliceAdditionalSpecFns;

verus! {

/// A half-open byte range `[start, end)` into the source text.
#[derive(Debug, Clone, Copy, PartialEq, Eq, Hash)]
pub struct Span {
    /// Byte offset of the first byte in the range.
    pub start: u32,
    /// Byte offset one past the last byte in the range.
    pub end: u32,
}

impl Span {
    /// Builds a span from a start and end byte offset.
    pub fn new(start: u32, end: u32) -> (s: Span)
        ensures
            s.start == start,
            s.end == end,
    {
        Span { start, end }
    }

    /// Length of the span in bytes.
    pub fn len(self) -> (n: u32)
        requires
            self.start <= self.end,
        ensures
            n == self.end - self.start,
    {
        self.end - self.start
    }

    /// Whether the span covers zero bytes.
    pub fn is_empty(self) -> (b: bool)
        ensures
            b == (self.start == self.end),
    {
        self.start == self.end
    }

    /// A span covering both `self` and `other` (and any gap between them).
    pub fn to(self, other: Span) -> (s: Span)
        ensures
            s.start == if self.start <= other.start { self.start } else { other.start },
            s.end == if self.end >= other.end { self.end } else { other.end },
    {
        let start = if self.start <= other.start { self.start } else { other.start };
        let end = if self.end >= other.end { self.end } else { other.end };
        Span { start, end }
    }
}

} // verus!

verus! {

/// The start offsets of the lines of `bytes[0..n]`: `0`, then one past every
/// newline byte, in order.
pub open spec fn line_starts_of(bytes: Seq<u8>, n: nat) -> Seq<int>
    decreases n,
{
    if n == 0 {
        seq![0int]
    } else if bytes[n - 1] == 10u8 {
        line_starts_of(bytes, (n - 1) as nat).push(n as int)
    } else {
        line_starts_of(bytes, (n - 1) as nat)
    }
}

/// Line starts are `0` first, strictly increasing, and never past `n`.
pub proof fn lemma_line_starts_sorted(bytes: Seq<u8>, n: nat)
    ensures
        line_starts_of(bytes, n).len() >= 1,
        line_starts_of(bytes, n)[0] == 0,
        forall|i: int, j: int|
            0 <= i < j < line_starts_of(bytes, n).len() ==> line_starts_of(bytes, n)[i]
                < line_starts_of(bytes, n)[j],
        forall|i: int| 0 <= i < line_starts_of(bytes, n).len() ==> 0 <= #[trigger] line_starts_of(bytes, n)[i] <= n,
    decreases n,
{
    if n > 0 {
        lemma_line_starts_sorted(bytes, (n - 1) as nat);
    }
}

/// `lc` is the 1-based line and byte column of `offset` (clamped to `len`)
/// under the line starts `starts`: the line is the last one starting at or
/// before the offset.
pub open spec fn is_line_col(starts: Seq<int>, len: int, offset: int, lc: (u32, u32)) -> bool {
    let o = if offset <= len { offset } else { len };
    exists|k: int|
        #![trigger starts[k]]
        0 <= k < starts.len() && starts[k] <= o && (k + 1 == starts.len() || o < starts[k + 1])
            && lc.0 == k + 1 && lc.1 == o - starts[k] + 1
}

/// Precomputed newline offsets for turning byte offsets into 1-based
/// line/column pairs in logarithmic time.
#[derive(Debug)]
pub struct LineIndex {
    line_starts: Vec<u32>,
    len: u32,
}

impl LineIndex {
    /// The line start offsets, as integers.
    pub closed spec fn starts(&self) -> Seq<int> {
        self.line_starts@.map_values(|x: u32| x as int)
    }

    /// The source length in bytes.
    pub closed spec fn source_len(&self) -> int {
        self.len as int
    }

    #[verifier::type_invariant]
    closed spec fn wf(&self) -> bool {
        &&& self.line_starts@.len() >= 1
        &&& self.line_starts@[0] == 0
        &&& self.len < u32::MAX
        &&& forall|i: int, j: int|
            0 <= i < j < self.line_starts@.len() ==> self.line_starts@[i] < self.line_starts@[j]
        &&& forall|i: int| 0 <= i < self.line_starts@.len() ==> self.line_starts@[i] <= self.len
    }

    /// Builds the index by scanning `src` for `\n` bytes.
    pub fn new(src: &str) -> (idx: LineIndex)
        requires
            src.spec_bytes().len() < u32::MAX,
        ensures
            idx.starts() == line_starts_of(src.spec_bytes(), src.spec_bytes().len()),
            idx.source_len() == src.spec_bytes().len(),
    {
        let bytes = src.as_bytes();
        let n = bytes.len();
        let mut line_starts: Vec<u32> = Vec::new();
        line_starts.push(0);
        let mut i: usize = 0;
        while i < n
            invariant
                n == bytes@.len(),
                bytes@ == src.spec_bytes(),
                n < u32::MAX,
                i <= n,
                line_starts@.map_values(|x: u32| x as int) == line_starts_of(bytes@, i as nat),
            decreases n - i,
        {
            if bytes[i] == 10u8 {
                line_starts.push((i + 1) as u32);
            }
            i = i + 1;
            assert(line_starts@.map_values(|x: u32| x as int) =~= line_starts_of(bytes@, i as nat));
        }
        proof {
            lemma_line_starts_sorted(bytes@, n as nat);
            assert forall|k: int| 0 <= k < line_starts@.len() implies line_starts@[k] as int
                == line_starts_of(bytes@, n as nat)[k] by {
                assert(line_starts@.map_values(|x: u32| x as int)[k] == line_starts@[k] as int);
            }
        }
        LineIndex { line_starts, len: n as u32 }
    }

    /// The source length in bytes.
    pub fn byte_len(&self) -> (n: u32)
        ensures
            n == self.source_len(),
            n < u32::MAX,
    {
        proof {
            use_type_invariant(self);
        }
        self.len
    }

    /// Returns the 1-based `(line, column)` for `offset`. The column counts
    /// bytes from the line start; an offset past the end clamps to the end.
    pub fn line_col(&self, offset: u32) -> (lc: (u32, u32))
        ensures
            is_line_col(self.starts(), self.source_len(), offset as int, lc),
    {
        proof {
            use_type_invariant(self);
        }
        let o = if offset <= self.len { offset } else { self.len };
        let ls = &self.line_starts;
        // Binary search for the last line start at or before `o`.
        let mut lo: usize = 0;
        let mut hi: usize = ls.len();
        while lo + 1 < hi
            invariant
                0 <= lo < hi <= ls@.len(),
                ls@[lo as int] <= o,
                hi == ls@.len() || o < ls@[hi as int],
                forall|i: int, j: int| 0 <= i < j < ls@.len() ==> ls@[i] < ls@[j],
            decreases hi - lo,
        {
            let mid = lo + (hi - lo) / 2;
            if ls[mid] <= o {
                lo = mid;
            } else {
                hi = mid;
            }
        }
        assert(lo + 1 == ls@.len() || o < ls@[lo + 1]) by {
            if lo + 1 < ls@.len() {
                assert(hi == lo + 1);
            }
        }
        let col = o - ls[lo];
        let ghost k = lo as int;
        assert(self.starts()[k] == ls@[k] as int);
        assert(k + 1 < self.starts().len() ==> self.starts()[k + 1] == ls@[k + 1] as int);
        proof {
            assert(lo < u32::MAX) by {
                // every line start is distinct and at most `len`, so there are at most `len + 1`
                lemma_count_bound(ls@, lo as int);
            }
        }
        ((lo + 1) as u32, col + 1)
    }
}

impl Clone for LineIndex {
    fn clone(&self) -> (c: Self)
        ensures
            c.starts() == self.starts(),
            c.source_len() == self.source_len(),
    {
        proof {
            use_type_invariant(self);
        }
        let mut line_starts: Vec<u32> = Vec::new();
        let mut i: usize = 0;
        while i < self.line_starts.len()
            invariant
                i <= self.line_starts@.len(),
                line_starts@ == self.line_starts@.subrange(0, i as int),
            decreases self.line_starts@.len() - i,
        {
            line_starts.push(self.line_starts[i]);
            i = i + 1;
            assert(line_starts@ =~= self.line_starts@.subrange(0, i as int));
        }
        assert(line_starts@ =~= self.line_starts@);
        LineIndex { line_starts, len: self.len }
    }
}

/// In a strictly increasing sequence of `u32`, the value at index `k` is at
/// least `k`.
proof fn lemma_count_bound(s: Seq<u32>, k: int)
    requires
        0 <= k < s.len(),
        forall|i: int, j: int| 0 <= i < j < s.len() ==> s[i] < s[j],
    ensures
        s[k] >= k,
    decreases k,
{
    if k > 0 {
        lemma_count_bound(s, k - 1);
    }
}

} // verus!
