//! Lifeline head-card text geometry, in pixels from the card's top edge,
//! shared with the renderer so the card height computed here and the text
//! baselines drawn there stay in lockstep.

use vstd::prelude::*;

verus! {

/// Eyebrow (kind) baseline.
pub const EYEBROW_Y: i32 = 20;

/// Name baseline.
pub const TITLE_Y: i32 = 40;

/// Dimmed parent-path baseline, when present.
pub const PARENT_Y: i32 = 56;

/// First summary-line baseline when no parent path is shown.
pub const DESC_TOP_Y: i32 = 58;

/// Extra downward shift applied to the summary lines when a parent path sits
/// above them.
pub const DESC_SHIFT_Y: i32 = 16;

/// Vertical advance per summary line.
pub const DESC_LINE_H: i32 = 15;

/// Padding below the last drawn baseline.
pub const BOTTOM_PAD: i32 = 14;

/// Minimum card height (an eyebrow + name with nothing extra).
pub const MIN_H: i32 = 60;

/// Summary wraps to at most this many lines.
pub const MAX_DESC_LINES: usize = 2;

/// Horizontal inset of the text column (left rule + both text pads).
pub const TEXT_INSET: i32 = 33;

/// The card height a lifeline needs: the last drawn baseline (name, parent
/// path or last summary line) plus the bottom padding, floored at
/// [`MIN_H`]. A summary-line count too large for `i32` counts as one line.
pub open spec fn card_height_of(has_parent: bool, desc_lines: nat) -> int {
    let desc_top = DESC_TOP_Y + if has_parent { DESC_SHIFT_Y as int } else { 0 };
    let last = if desc_lines > 0 {
        let extra = if desc_lines - 1 <= i32::MAX { desc_lines - 1 } else { 0 };
        desc_top + extra * DESC_LINE_H
    } else if has_parent {
        PARENT_Y as int
    } else {
        TITLE_Y as int
    };
    if last + BOTTOM_PAD >= MIN_H {
        last + BOTTOM_PAD
    } else {
        MIN_H as int
    }
}

/// The card height a lifeline needs to fit its content: `has_parent` adds
/// the dimmed parent line, `desc_lines` the wrapped summary. All cards take
/// the max across participants so the header row stays flush.
pub fn card_height(has_parent: bool, desc_lines: usize) -> (h: i32)
    requires
        card_height_of(has_parent, desc_lines as nat) <= i32::MAX,
    ensures
        h == card_height_of(has_parent, desc_lines as nat),
{
    let desc_top = DESC_TOP_Y + if has_parent { DESC_SHIFT_Y } else { 0 };
    let last_baseline = if desc_lines > 0 {
        let extra: i32 = if desc_lines - 1 <= 2147483647usize { (desc_lines - 1) as i32 } else { 0 };
        desc_top + extra * DESC_LINE_H
    } else if has_parent {
        PARENT_Y
    } else {
        TITLE_Y
    };
    if last_baseline + BOTTOM_PAD >= MIN_H {
        last_baseline + BOTTOM_PAD
    } else {
        MIN_H
    }
}

} // verus!
