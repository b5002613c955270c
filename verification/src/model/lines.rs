//! Line-based folding: the byte-offset folds of [`crate::model::fold`]
//! mapped to 0-based lines, keeping only regions that cross a line.

use crate::ast::Module;
use crate::convert::{offset_to_position, position_of};
use crate::model::fold::{folds_of_module, items_folds, FoldRange};
use crate::outline::indexes;
use crate::parser::{parse, parsed_from};
use crate::span::LineIndex;
use vstd::prelude::*;
use vstd::string::StringSliceAdditionalSpecFns;

verus! {

/// A foldable region in 0-based lines.
#[derive(Debug, Clone, Copy, PartialEq, Eq, Structural)]
pub struct LineFold {
    /// The 0-based line the region starts on.
    pub start_line: u32,
    /// The 0-based line the region ends on.
    pub end_line: u32,
}

/// The line forms of byte folds of a source of `bytes`: one per fold whose
/// end lies on a later line than its start, in order.
pub open spec fn line_folds_of(bytes: Seq<u8>, fs: Seq<FoldRange>) -> Seq<LineFold>
    decreases fs.len(),
{
    if fs.len() == 0 {
        seq![]
    } else {
        let f = fs.last();
        let a = position_of(bytes, f.start as int).line;
        let b = position_of(bytes, f.end as int).line;
        line_folds_of(bytes, fs.drop_last()) + if b > a {
            seq![LineFold { start_line: a, end_line: b }]
        } else {
            seq![]
        }
    }
}

/// The line forms of the folds of `src` that cross a line, in order.
pub fn line_folds(folds: &Vec<FoldRange>, src: &str, index: &LineIndex) -> (out: Vec<LineFold>)
    requires
        indexes(*index, src),
    ensures
        out@ == line_folds_of(src.spec_bytes(), folds@),
{
    let mut out: Vec<LineFold> = Vec::new();
    let mut i: usize = 0;
    assert(folds@.take(0) =~= seq![]);
    while i < folds.len()
        invariant
            i <= folds@.len(),
            indexes(*index, src),
            out@ == line_folds_of(src.spec_bytes(), folds@.take(i as int)),
        decreases folds@.len() - i,
    {
        assert(folds@.take(i + 1).drop_last() =~= folds@.take(i as int));
        assert(folds@.take(i + 1).last() == folds@[i as int]);
        let f = folds[i];
        let a = offset_to_position(src, index, f.start).line;
        let b = offset_to_position(src, index, f.end).line;
        if b > a {
            out.push(LineFold { start_line: a, end_line: b });
        }
        assert(out@ =~= line_folds_of(src.spec_bytes(), folds@.take(i + 1)));
        i = i + 1;
    }
    assert(folds@.take(folds@.len() as int) =~= folds@);
    out
}

/// The foldable regions of `src` as 0-based line ranges: every multi-line
/// declaration and statement block of the module it parses to;
/// single-line regions do not fold.
pub fn folding_ranges(src: &str) -> (out: Vec<LineFold>)
    requires
        src.spec_bytes().len() < u32::MAX,
    ensures
        exists|m: Module| parsed_from(src.spec_bytes(), m) && out@ == line_folds_of(src.spec_bytes(), items_folds(m.items@)),
{
    let index = LineIndex::new(src);
    let module = parse(src).ast;
    let folds = folds_of_module(&module);
    line_folds(&folds, src, &index)
}

} // verus!
