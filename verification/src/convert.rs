//! Byte offset and editor position conversion.
//!
//! Spans are byte offsets into the source, and [`LineIndex`] maps a byte
//! offset to a 1-based line and byte column. Editor positions are a 0-based
//! line and a 0-based character counted in UTF-16 code units. In UTF-8 text
//! every character starts with a non-continuation byte, and exactly the
//! characters outside the basic plane (the ones that take two UTF-16 units)
//! are four bytes long, led by a byte of `0xF0` or more; so the UTF-16 length
//! of a run of whole characters is the count of its non-continuation bytes
//! plus the count of its four-byte leads.

use crate::span::{line_starts_of, lemma_line_starts_sorted, is_line_col, LineIndex, Span};
use vstd::prelude::*;
use vstd::string::StringSliceAdditionalSpecFns;

verus! {

/// A 0-based line and UTF-16 character position.
#[derive(Debug, Clone, Copy, PartialEq, Eq, Structural)]
pub struct Position {
    /// The 0-based line.
    pub line: u32,
    /// The 0-based character, in UTF-16 code units from the line start.
    pub character: u32,
}

impl Position {
    /// A position from its line and character.
    pub fn new(line: u32, character: u32) -> (p: Position)
        ensures
            p.line == line && p.character == character,
    {
        Position { line, character }
    }
}

/// A range between two positions.
#[derive(Debug, Clone, Copy, PartialEq, Eq, Structural)]
pub struct Range {
    /// The start position (inclusive).
    pub start: Position,
    /// The end position (exclusive).
    pub end: Position,
}

impl Range {
    /// A range from its two ends.
    pub fn new(start: Position, end: Position) -> (r: Range)
        ensures
            r.start == start && r.end == end,
    {
        Range { start, end }
    }
}

/// Whether `b` continues a multi-byte UTF-8 character.
pub open spec fn is_continuation(b: u8) -> bool {
    0x80 <= b < 0xC0
}

/// The UTF-16 units a byte accounts for: one for each character start, one
/// more for the lead of a four-byte character.
pub open spec fn units_of(b: u8) -> int {
    (if is_continuation(b) { 0int } else { 1int }) + (if b >= 0xF0 { 1int } else { 0int })
}

/// The UTF-16 length of the bytes `a..b`.
pub open spec fn utf16_units(bytes: Seq<u8>, a: int, b: int) -> int
    decreases b - a,
{
    if b <= a {
        0
    } else {
        utf16_units(bytes, a, b - 1) + units_of(bytes[b - 1])
    }
}

/// The number of newlines among the first `o` bytes.
pub open spec fn line_no(bytes: Seq<u8>, o: nat) -> nat
    decreases o,
{
    if o == 0 {
        0
    } else {
        line_no(bytes, (o - 1) as nat) + if bytes[o - 1] == 10u8 { 1nat } else { 0nat }
    }
}

/// The start of the line holding byte `o`: one past the last newline among
/// the first `o` bytes, or `0`.
pub open spec fn line_head(bytes: Seq<u8>, o: nat) -> int
    decreases o,
{
    if o == 0 {
        0
    } else if bytes[o - 1] == 10u8 {
        o as int
    } else {
        line_head(bytes, (o - 1) as nat)
    }
}

/// `o` clamped to `len`.
pub open spec fn clamped(o: int, len: int) -> int {
    if o <= len {
        o
    } else {
        len
    }
}

/// The position of byte `offset` of `bytes`: its 0-based line, and the
/// UTF-16 length of its line up to it. An offset past the end clamps to the
/// end.
pub open spec fn position_of(bytes: Seq<u8>, offset: int) -> Position {
    let o = clamped(offset, bytes.len() as int);
    Position { line: line_no(bytes, o as nat) as u32, character: utf16_units(bytes, line_head(bytes, o as nat), o) as u32 }
}

/// The line starts of a prefix are the line starts at or before its end.
proof fn lemma_starts_prefix(bytes: Seq<u8>, o: nat, n: nat)
    requires
        o <= n,
    ensures
        line_starts_of(bytes, o) == line_starts_of(bytes, n).take(line_starts_of(bytes, o).len() as int),
        line_starts_of(bytes, o).len() <= line_starts_of(bytes, n).len(),
        forall|i: int|
            line_starts_of(bytes, o).len() <= i < line_starts_of(bytes, n).len() ==> #[trigger] line_starts_of(bytes, n)[i] > o,
    decreases n,
{
    if n > o {
        lemma_starts_prefix(bytes, o, (n - 1) as nat);
        lemma_line_starts_sorted(bytes, (n - 1) as nat);
        if bytes[n - 1] == 10u8 {
            let p = line_starts_of(bytes, (n - 1) as nat);
            assert(line_starts_of(bytes, n) == p.push(n as int));
            assert(p.push(n as int).take(line_starts_of(bytes, o).len() as int) =~= p.take(line_starts_of(bytes, o).len() as int));
        }
    } else {
        assert(line_starts_of(bytes, n).take(line_starts_of(bytes, n).len() as int) =~= line_starts_of(bytes, n));
    }
}

/// A prefix has one line start per newline, plus the first; the last is
/// the head of its last line.
proof fn lemma_starts_count(bytes: Seq<u8>, o: nat)
    ensures
        line_starts_of(bytes, o).len() == line_no(bytes, o) + 1,
        line_starts_of(bytes, o).last() == line_head(bytes, o),
    decreases o,
{
    if o > 0 {
        lemma_starts_count(bytes, (o - 1) as nat);
    }
}

/// The line `line_col` reports for `o` is `line_no(o) + 1`, and the line's
/// start is `line_head(o)`.
proof fn lemma_line_of(bytes: Seq<u8>, o: nat, lc: (u32, u32))
    requires
        o <= bytes.len(),
        is_line_col(line_starts_of(bytes, bytes.len()), bytes.len() as int, o as int, lc),
    ensures
        lc.0 == line_no(bytes, o) + 1,
        line_starts_of(bytes, bytes.len())[line_no(bytes, o) as int] == line_head(bytes, o),
{
    let n = bytes.len() as nat;
    let full = line_starts_of(bytes, n);
    let pre = line_starts_of(bytes, o);
    lemma_starts_prefix(bytes, o, n);
    lemma_starts_count(bytes, o);
    lemma_line_starts_sorted(bytes, n);
    lemma_line_starts_sorted(bytes, o);
    let k = choose|k: int|
        #![trigger full[k]]
        0 <= k < full.len() && full[k] <= o && (k + 1 == full.len() || o < full[k + 1]) && lc.0 == k + 1 && lc.1 == o
            - full[k] + 1;
    let l = pre.len() - 1;
    assert(full[l] == pre[l]);
    assert(full[l] <= o);
    if k < l {
        assert(full[k + 1] == pre[k + 1]);
        assert(pre[k + 1] <= o);
    }
    if k > l {
        assert(full[k] > o);
    }
    assert(k == l);
}

/// Converts a byte `offset` into the source to a 0-based position whose
/// character counts UTF-16 code units from the line start (on a character
/// boundary; inside a character it counts the characters begun before it).
pub fn offset_to_position(src: &str, index: &LineIndex, offset: u32) -> (p: Position)
    requires
        index.starts() == line_starts_of(src.spec_bytes(), src.spec_bytes().len()),
        index.source_len() == src.spec_bytes().len(),
    ensures
        p == position_of(src.spec_bytes(), offset as int),
{
    let bytes = src.as_bytes();
    let total = index.byte_len();
    let (line, _byte_col) = index.line_col(offset);
    let o: usize = if (offset as usize) < bytes.len() { offset as usize } else { bytes.len() };
    proof {
        lemma_line_of(bytes@, o as nat, (line, _byte_col));
        lemma_starts_count(bytes@, o as nat);
        lemma_line_starts_sorted(bytes@, bytes@.len());
    }
    let line0 = line - 1;
    let mut start: usize = o;
    while start > 0 && bytes[start - 1] != 10u8
        invariant
            start <= o <= bytes@.len(),
            line_head(bytes@, o as nat) == line_head(bytes@, start as nat),
        decreases start,
    {
        start = start - 1;
    }
    assert(line_head(bytes@, start as nat) == start as int);
    let mut units: u64 = 0;
    let mut i: usize = start;
    while i < o
        invariant
            start <= i <= o <= bytes@.len(),
            bytes@.len() == total < u32::MAX,
            units == utf16_units(bytes@, start as int, i as int),
            0 <= utf16_units(bytes@, start as int, i as int) <= 2 * (i - start),
        decreases o - i,
    {
        let b = bytes[i];
        let w: u64 = (if 0x80 <= b && b < 0xC0 { 0u64 } else { 1u64 }) + (if b >= 0xF0 { 1u64 } else { 0u64 });
        assert(w == units_of(b));
        units = units + w;
        i = i + 1;
    }
    Position { line: line0, character: units as u32 }
}

/// Converts a byte span into a range.
pub fn span_to_range(src: &str, index: &LineIndex, span: Span) -> (r: Range)
    requires
        index.starts() == line_starts_of(src.spec_bytes(), src.spec_bytes().len()),
        index.source_len() == src.spec_bytes().len(),
    ensures
        r.start == position_of(src.spec_bytes(), span.start as int),
        r.end == position_of(src.spec_bytes(), span.end as int),
{
    Range::new(offset_to_position(src, index, span.start), offset_to_position(src, index, span.end))
}

/// The range covering the entire source, from `(0, 0)` to the end.
pub fn full_range(src: &str, index: &LineIndex) -> (r: Range)
    requires
        index.starts() == line_starts_of(src.spec_bytes(), src.spec_bytes().len()),
        index.source_len() == src.spec_bytes().len(),
    ensures
        r.start == (Position { line: 0, character: 0 }),
        r.end == position_of(src.spec_bytes(), src.spec_bytes().len() as int),
{
    let n = index.byte_len();
    Range::new(Position::new(0, 0), offset_to_position(src, index, n))
}

/// The offset reached scanning a line from byte `i` with `u` UTF-16 units
/// already passed: the first character start at which `u` has reached
/// `target` or that is a newline, else the end of the text.
pub open spec fn scan_to(bytes: Seq<u8>, i: int, u: int, target: int) -> int
    decreases bytes.len() - i,
{
    if i >= bytes.len() {
        bytes.len() as int
    } else if is_continuation(bytes[i]) {
        scan_to(bytes, i + 1, u, target)
    } else if u >= target || bytes[i] == 10u8 {
        i
    } else {
        scan_to(bytes, i + 1, u + if bytes[i] >= 0xF0 { 2int } else { 1int }, target)
    }
}

/// The byte offset of a position: the start of its line plus as many whole
/// characters as take it to its UTF-16 character, clamped to the line's
/// end; the end of the text for a line past the last.
pub open spec fn offset_of(bytes: Seq<u8>, p: Position) -> int {
    let starts = line_starts_of(bytes, bytes.len());
    if p.line < starts.len() {
        scan_to(bytes, starts[p.line as int], 0, p.character as int)
    } else {
        bytes.len() as int
    }
}

/// Converts a 0-based position back to a byte offset into `src`: the
/// inverse of [`offset_to_position`] on character boundaries. A position
/// past the end of a line clamps to that line's end.
pub fn position_to_offset(src: &str, position: Position) -> (r: u32)
    requires
        src.spec_bytes().len() < u32::MAX,
    ensures
        r == offset_of(src.spec_bytes(), position),
{
    let bytes = src.as_bytes();
    let n = bytes.len();
    let ghost bs = bytes@;
    let mut line: u32 = 0;
    let mut line_start: usize = 0;
    let mut i: usize = 0;
    while i < n && line != position.line
        invariant
            i <= n == bs.len(),
            bs == bytes@,
            line == line_no(bs, i as nat),
            line <= position.line,
            line_start == line_head(bs, i as nat),
        decreases n - i,
    {
        if bytes[i] == 10u8 {
            line = line + 1;
            line_start = i + 1;
        }
        i = i + 1;
    }
    proof {
        lemma_starts_count(bs, i as nat);
        lemma_starts_prefix(bs, i as nat, n as nat);
    }
    if line != position.line {
        assert(line_starts_of(bs, n as nat).len() == line_no(bs, n as nat) + 1);
        return n as u32;
    }
    assert(line_starts_of(bs, n as nat)[position.line as int] == line_starts_of(bs, i as nat)[position.line as int]);
    let mut u: u64 = 0;
    let mut j: usize = line_start;
    assert(line_head(bs, i as nat) <= i) by {
        lemma_head_le(bs, i as nat);
    }
    while j < n
        invariant
            line_start <= j <= n == bs.len() < u32::MAX,
            bs == bytes@,
            bs == src.spec_bytes(),
            u <= 2 * (j - line_start),
            offset_of(bs, position) == scan_to(bs, j as int, u as int, position.character as int),
        decreases n - j,
    {
        let b = bytes[j];
        if 0x80 <= b && b < 0xC0 {
            j = j + 1;
        } else if u >= position.character as u64 || b == 10u8 {
            assert(b == bs[j as int]);
            assert(!is_continuation(bs[j as int]));
            assert(scan_to(bs, j as int, u as int, position.character as int) == j as int);
            return j as u32;
        } else {
            u = u + if b >= 0xF0 { 2u64 } else { 1u64 };
            j = j + 1;
        }
    }
    n as u32
}

/// A line head lies at or before its offset.
proof fn lemma_head_le(bytes: Seq<u8>, o: nat)
    ensures
        0 <= line_head(bytes, o) <= o,
    decreases o,
{
    if o > 0 {
        lemma_head_le(bytes, (o - 1) as nat);
    }
}

/// UTF-16 lengths add up over adjacent byte runs.
proof fn lemma_units_split(bytes: Seq<u8>, a: int, b: int, c: int)
    requires
        a <= b <= c,
    ensures
        utf16_units(bytes, a, c) == utf16_units(bytes, a, b) + utf16_units(bytes, b, c),
    decreases c - b,
{
    if c > b {
        lemma_units_split(bytes, a, b, c - 1);
    }
}

/// No newline lies between a line's head and a later offset on it.
proof fn lemma_no_newline(bytes: Seq<u8>, o: nat, k: int)
    requires
        line_head(bytes, o) <= k < o,
    ensures
        bytes[k] != 10u8,
    decreases o,
{
    if o > 0 && bytes[o - 1] != 10u8 && k < o - 1 {
        lemma_no_newline(bytes, (o - 1) as nat, k);
    }
}

/// Scanning from a character start `k` of `o`'s line, with the units up to
/// it passed, stops at `o` when the target is `o`'s units.
proof fn lemma_scan_reaches(bytes: Seq<u8>, o: int, k: int)
    requires
        0 <= line_head(bytes, o as nat) <= k <= o <= bytes.len(),
        o == bytes.len() || !is_continuation(bytes[o]),
    ensures
        scan_to(bytes, k, utf16_units(bytes, line_head(bytes, o as nat), k), utf16_units(bytes, line_head(bytes, o as nat), o)) == o,
    decreases o - k,
{
    let h = line_head(bytes, o as nat);
    if k < o {
        lemma_no_newline(bytes, o as nat, k);
        lemma_units_split(bytes, h, k, o);
        lemma_units_split(bytes, k, k + 1, o);
        lemma_units_nonneg(bytes, k + 1, o);
        lemma_scan_reaches(bytes, o, k + 1);
        assert(utf16_units(bytes, h, k + 1) == utf16_units(bytes, h, k) + units_of(bytes[k]));
        assert(utf16_units(bytes, k, k + 1) == units_of(bytes[k])) by {
            assert(utf16_units(bytes, k, k) == 0);
        }
        let u = utf16_units(bytes, h, k);
        let t = utf16_units(bytes, h, o);
        if is_continuation(bytes[k]) {
            assert(scan_to(bytes, k, u, t) == scan_to(bytes, k + 1, u, t));
        } else {
            assert(u < t);
            assert(scan_to(bytes, k, u, t) == scan_to(bytes, k + 1, u + if bytes[k] >= 0xF0 { 2int } else { 1int }, t));
        }
    }
}

/// UTF-16 lengths are never negative.
proof fn lemma_units_nonneg(bytes: Seq<u8>, a: int, b: int)
    ensures
        utf16_units(bytes, a, b) >= 0,
    decreases b - a,
{
    if b > a {
        lemma_units_nonneg(bytes, a, b - 1);
    }
}

/// Offsets and positions round-trip: the offset of a character boundary's
/// position is the boundary itself.
pub proof fn lemma_position_round_trip(bytes: Seq<u8>, o: int)
    requires
        bytes.len() < u32::MAX,
        0 <= o <= bytes.len(),
        o == bytes.len() || !is_continuation(bytes[o]),
        utf16_units(bytes, line_head(bytes, o as nat), o) <= u32::MAX,
    ensures
        offset_of(bytes, position_of(bytes, o)) == o,
{
    let n = bytes.len() as nat;
    lemma_starts_count(bytes, o as nat);
    lemma_starts_prefix(bytes, o as nat, n);
    lemma_head_le(bytes, o as nat);
    lemma_units_nonneg(bytes, line_head(bytes, o as nat), o);
    lemma_line_no_le(bytes, o as nat);
    let l = line_no(bytes, o as nat);
    assert(line_starts_of(bytes, n)[l as int] == line_starts_of(bytes, o as nat)[l as int]);
    lemma_scan_reaches(bytes, o, line_head(bytes, o as nat));
}

/// At most one newline per byte.
proof fn lemma_line_no_le(bytes: Seq<u8>, o: nat)
    ensures
        line_no(bytes, o) <= o,
    decreases o,
{
    if o > 0 {
        lemma_line_no_le(bytes, (o - 1) as nat);
    }
}

} // verus!
