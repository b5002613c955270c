//! The sequence-diagram layout engine.
//!
//! Three passes:
//!
//! 1. **Measure**: participant card widths from their titles, and
//!    per-message label widths from the rendered text.
//! 2. **Space columns**: size each inter-lifeline gap independently: a gap is
//!    widened only by the labels that actually span it, floored at card +
//!    gutter so no card overlaps its neighbour, then place lifelines.
//! 3. **Walk vertically**: advance a `y` cursor down the items, emitting
//!    messages, growing fragment boxes around their sections (with a divider
//!    between sections), and recording each participant's activation span.

pub mod head;
pub mod walk;

use crate::layout::diagram::{
    Diagram, FragKind, Fragment, Item, Message, MsgKind, Participant, Section, flat_item,
    flat_items, flat_sections, weight_item, weight_items, weight_sections,
};
use crate::layout::geom::{Bounds, Rect, fits_i32, grown};
use crate::layout::placed::{Activation, Divider, Layout, PlacedFragment, PlacedMessage, PlacedParticipant};
use crate::layout::text::{
    TextMetrics, label_width_of, label_width_ok, line_budget, scale_ok, scaled, string_lines, wrapped,
};
use crate::layout::Projection;
use crate::layout::sequence::walk::{
    Walk, fragment_ok, notes, placed_at, same_message, step_ok, x_at, x_cap, y_cap, y_per_weight,
};
use crate::strs::{push_char, str_eq};
use vstd::prelude::*;
use vstd::string::{StrSliceExecFns, StringExecFns};

verus! {

/// Spacing constants for the sequence engine, in renderer coordinates.
#[derive(Debug, Clone, Copy, PartialEq, Eq, Structural)]
pub struct Metrics {
    pub text: TextMetrics,
    /// Canvas margin on every side.
    pub pad: i32,
    /// Minimum participant card width.
    pub node_w_min: i32,
    /// Y where the head cards sit.
    pub lifeline_top: i32,
    /// Vertical advance per call/return row.
    pub msg_gap: i32,
    /// Extra height a self-message loop adds.
    pub self_extra: i32,
    /// Operator-tab band: clearance above a fragment's first row.
    pub frame_head: i32,
    /// Padding below a fragment's last row.
    pub frame_foot: i32,
    /// Gap after a fragment, so the next message clears its border.
    pub frame_gap: i32,
    /// Gap below a section before its divider.
    pub else_pad: i32,
    /// Band below a divider, clearing the else guard.
    pub else_head: i32,
    /// Execution-activation bar width.
    pub act_w: i32,
    /// Return-stub length when a target lifeline is unresolved.
    pub ret_stub: i32,
    /// Horizontal padding inside a fragment border.
    pub frame_pad: i32,
    /// Where a self-message label starts, right of the lifeline.
    pub self_offset: i32,
    /// Minimum gutter between adjacent cards.
    pub col_gutter: i32,
    /// Horizontal padding added to a card around its title.
    pub card_pad: i32,
}

impl Default for Metrics {
    /// Metrics matching a monospace renderer font.
    fn default() -> (m: Metrics)
        ensures
            m == (Metrics {
                text: TextMetrics {
                    label_char_tenths: 78,
                    title_char_tenths: 80,
                    desc_char_tenths: 60,
                    label_pad: 14,
                },
                pad: 20,
                node_w_min: 168,
                lifeline_top: 64,
                msg_gap: 44,
                self_extra: 20,
                frame_head: 38,
                frame_foot: 14,
                frame_gap: 16,
                else_pad: 12,
                else_head: 26,
                act_w: 10,
                ret_stub: 46,
                frame_pad: 18,
                self_offset: 46,
                col_gutter: 48,
                card_pad: 28,
            }),
    {
        Metrics {
            text: TextMetrics::default(),
            pad: 20,
            node_w_min: 168,
            lifeline_top: 64,
            msg_gap: 44,
            self_extra: 20,
            frame_head: 38,
            frame_foot: 14,
            frame_gap: 16,
            else_pad: 12,
            else_head: 26,
            act_w: 10,
            ret_stub: 46,
            frame_pad: 18,
            self_offset: 46,
            col_gutter: 48,
            card_pad: 28,
        }
    }
}

/// Every metric lies in `[0, 4096]`: the range for which the engine keeps all
/// coordinates within `i32`.
pub open spec fn metrics_bounded(m: Metrics) -> bool {
    &&& 0 <= m.text.label_char_tenths <= 4096
    &&& 0 <= m.text.title_char_tenths <= 4096
    &&& 0 <= m.text.desc_char_tenths <= 4096
    &&& 0 <= m.text.label_pad <= 4096
    &&& 0 <= m.pad <= 4096
    &&& 0 <= m.node_w_min <= 4096
    &&& 0 <= m.lifeline_top <= 4096
    &&& 0 <= m.msg_gap <= 4096
    &&& 0 <= m.self_extra <= 4096
    &&& 0 <= m.frame_head <= 4096
    &&& 0 <= m.frame_foot <= 4096
    &&& 0 <= m.frame_gap <= 4096
    &&& 0 <= m.else_pad <= 4096
    &&& 0 <= m.else_head <= 4096
    &&& 0 <= m.act_w <= 4096
    &&& 0 <= m.ret_stub <= 4096
    &&& 0 <= m.frame_pad <= 4096
    &&& 0 <= m.self_offset <= 4096
    &&& 0 <= m.col_gutter <= 4096
    &&& 0 <= m.card_pad <= 4096
}

/// The vertical metrics that separate rows and fragment parts are positive.
pub open spec fn metrics_spaced(m: Metrics) -> bool {
    &&& m.msg_gap >= 1
    &&& m.frame_head >= 1
    &&& m.frame_foot >= 1
    &&& m.else_head >= 1
    &&& m.frame_pad >= 1
}

/// The `↩` return glyph followed by a space.
pub open spec fn return_glyph() -> Seq<char> {
    seq!['\u{21a9}', ' ']
}

/// The text a message pill renders: `label` + `detail` for a call, the label
/// for a self-message, and for a return `↩ label` (or `↩ return`) followed by
/// the type: `<detail>`, or ` detail` after the bare `↩ return`.
pub open spec fn pill_chars(kind: MsgKind, label: Seq<char>, detail: Seq<char>) -> Seq<char> {
    match kind {
        MsgKind::Call => label + detail,
        MsgKind::SelfMsg => label,
        MsgKind::Return => {
            let marker = if label.len() == 0 {
                return_glyph() + seq!['r', 'e', 't', 'u', 'r', 'n']
            } else {
                return_glyph() + label
            };
            let ty = if detail.len() == 0 {
                seq![]
            } else if label.len() == 0 {
                seq![' '] + detail
            } else {
                seq!['<'] + detail + seq!['>']
            };
            marker + ty
        },
    }
}

/// The pill text of a message.
pub open spec fn pill_text(msg: Message) -> Seq<char> {
    pill_chars(msg.kind, msg.label@, msg.detail@)
}

impl Metrics {
    /// The pill width a message's rendered text occupies (`method` +
    /// signature; `↩ marker` + `<type>`), so the lane is sized to what
    /// actually gets drawn.
    pub fn message_pill_width(&self, msg: &Message) -> (w: i32)
        requires
            label_width_ok(self.text, pill_text(*msg).len()),
        ensures
            w == label_width_of(self.text, pill_text(*msg).len()),
    {
        let mut s = String::new();
        match msg.kind {
            MsgKind::Call => {
                s.append(msg.label.as_str());
                s.append(msg.detail.as_str());
            },
            MsgKind::SelfMsg => {
                s.append(msg.label.as_str());
            },
            MsgKind::Return => {
                push_char(&mut s, '\u{21a9}');
                push_char(&mut s, ' ');
                if msg.label.as_str().unicode_len() == 0 {
                    proof {
                        reveal_strlit("return");
                    }
                    s.append("return");
                } else {
                    s.append(msg.label.as_str());
                }
                if msg.detail.as_str().unicode_len() > 0 {
                    if msg.label.as_str().unicode_len() == 0 {
                        push_char(&mut s, ' ');
                        s.append(msg.detail.as_str());
                    } else {
                        push_char(&mut s, '<');
                        s.append(msg.detail.as_str());
                        push_char(&mut s, '>');
                    }
                }
            },
        }
        assert(s@ =~= pill_text(*msg));
        self.text.label_width(s.as_str())
    }
}

/// The column of lifeline `id`: the last participant carrying that id.
pub open spec fn col_of(ps: Seq<Participant>, id: Seq<char>) -> Option<int>
    decreases ps.len(),
{
    if ps.len() == 0 {
        None
    } else if ps.last().id@ == id {
        Some(ps.len() - 1)
    } else {
        col_of(ps.drop_last(), id)
    }
}

/// The column of `id`, or the first column when no participant carries it.
pub open spec fn col_or_first(ps: Seq<Participant>, id: Seq<char>) -> int {
    match col_of(ps, id) {
        Some(c) => c,
        None => 0,
    }
}

/// A found column holds a participant with that id, and no later one does.
pub proof fn lemma_col_of(ps: Seq<Participant>, id: Seq<char>)
    ensures
        col_of(ps, id) matches Some(c) ==> 0 <= c < ps.len() && ps[c].id@ == id && forall|j: int|
            c < j < ps.len() ==> ps[j].id@ != id,
        col_of(ps, id) is None ==> forall|j: int| 0 <= j < ps.len() ==> ps[j].id@ != id,
    decreases ps.len(),
{
    if ps.len() > 0 && ps.last().id@ != id {
        lemma_col_of(ps.drop_last(), id);
        assert forall|j: int| 0 <= j < ps.len() - 1 implies ps.drop_last()[j] == ps[j] by {}
    }
}

/// Rounds `a / b` up, for `a >= 0` and `b >= 1`.
pub open spec fn ceil_div(a: int, b: int) -> int {
    (a + b - 1) / b
}

/// The width lane `k` (between columns `k` and `k + 1`) must reserve for
/// `msg`, if the message crosses or borders it: a self-message reserves its
/// loop and label in the lane to its right; a call or return spreads its
/// pill, cleared of the activation bars, evenly over the lanes it spans.
pub open spec fn demand(m: Metrics, ps: Seq<Participant>, msg: Message, k: int) -> Option<int> {
    if msg.kind == MsgKind::SelfMsg {
        if k == col_or_first(ps, msg.from@) {
            Some(m.self_offset + label_width_of(m.text, msg.label@.len()) + 24)
        } else {
            None
        }
    } else {
        let a = col_or_first(ps, msg.from@);
        let b = col_or_first(ps, msg.to@);
        let lo = if a <= b { a } else { b };
        let hi = if a <= b { b } else { a };
        let span = if hi - lo >= 1 { hi - lo } else { 1 };
        let need = label_width_of(m.text, pill_text(msg).len()) + m.act_w + 16;
        if lo <= k < hi {
            Some(ceil_div(need, span))
        } else {
            None
        }
    }
}

/// Lane `k` after widening `g` for every message of `msgs`: the largest of
/// `g` and every demand on the lane.
pub open spec fn lane(m: Metrics, ps: Seq<Participant>, msgs: Seq<Message>, k: int, g: int) -> int
    decreases msgs.len(),
{
    if msgs.len() == 0 {
        g
    } else {
        let before = lane(m, ps, msgs.drop_last(), k, g);
        match demand(m, ps, msgs.last(), k) {
            Some(d) => if d > before { d } else { before },
            None => before,
        }
    }
}

/// Widening over `a + b` is widening over `a`, then over `b`.
pub proof fn lemma_lane_concat(m: Metrics, ps: Seq<Participant>, a: Seq<Message>, b: Seq<Message>, k: int, g: int)
    ensures
        lane(m, ps, a + b, k, g) == lane(m, ps, b, k, lane(m, ps, a, k, g)),
    decreases b.len(),
{
    if b.len() == 0 {
        assert(a + b =~= a);
    } else {
        assert((a + b).drop_last() =~= a + b.drop_last());
        assert((a + b).last() == b.last());
        lemma_lane_concat(m, ps, a, b.drop_last(), k, g);
    }
}

/// A lane is at least its floor and at least every demand on it.
pub proof fn lemma_lane_ge(m: Metrics, ps: Seq<Participant>, msgs: Seq<Message>, k: int, g: int)
    ensures
        lane(m, ps, msgs, k, g) >= g,
        forall|j: int|
            0 <= j < msgs.len() && #[trigger] demand(m, ps, msgs[j], k) is Some ==> lane(m, ps, msgs, k, g)
                >= demand(m, ps, msgs[j], k)->0,
    decreases msgs.len(),
{
    if msgs.len() > 0 {
        lemma_lane_ge(m, ps, msgs.drop_last(), k, g);
        assert forall|j: int|
            0 <= j < msgs.len() && #[trigger] demand(m, ps, msgs[j], k) is Some implies lane(m, ps, msgs, k, g)
                >= demand(m, ps, msgs[j], k)->0 by {
            if j < msgs.len() - 1 {
                assert(msgs.drop_last()[j] == msgs[j]);
            }
        }
    }
}

/// A lane never exceeds a bound that its floor and every demand respect.
pub proof fn lemma_lane_le(m: Metrics, ps: Seq<Participant>, msgs: Seq<Message>, k: int, g: int, cap: int)
    requires
        g <= cap,
        forall|j: int|
            0 <= j < msgs.len() && #[trigger] demand(m, ps, msgs[j], k) is Some ==> demand(m, ps, msgs[j], k)->0
                <= cap,
    ensures
        lane(m, ps, msgs, k, g) <= cap,
    decreases msgs.len(),
{
    if msgs.len() > 0 {
        assert forall|j: int|
            0 <= j < msgs.len() - 1 && #[trigger] demand(m, ps, msgs.drop_last()[j], k) is Some implies demand(
                m,
                ps,
                msgs.drop_last()[j],
                k,
            )->0 <= cap by {
            assert(msgs.drop_last()[j] == msgs[j]);
        }
        lemma_lane_le(m, ps, msgs.drop_last(), k, g, cap);
        assert(demand(m, ps, msgs[msgs.len() - 1], k) is Some ==> demand(m, ps, msgs[msgs.len() - 1], k)->0 <= cap);
    }
}

/// Every message's texts fit the measuring arithmetic.
pub open spec fn message_bounded(msg: Message) -> bool {
    msg.label@.len() <= 2048 && msg.detail@.len() <= 2048
}

/// The lanes' widths for `msgs`, per lane, from the floors `gs`.
pub open spec fn lanes_after(m: Metrics, ps: Seq<Participant>, msgs: Seq<Message>, gs: Seq<i32>) -> Seq<int> {
    Seq::new(gs.len(), |k: int| lane(m, ps, msgs, k, gs[k] as int))
}

/// Column lookup: the last participant whose id is `id`.
fn find_col(ps: &Vec<Participant>, id: &str) -> (c: Option<usize>)
    ensures
        c matches Some(i) ==> col_of(ps@, id@) == Some(i as int),
        c is None ==> col_of(ps@, id@) is None,
{
    let mut i = ps.len();
    assert(ps@.subrange(0, i as int) =~= ps@);
    while i > 0
        invariant
            i <= ps@.len(),
            col_of(ps@, id@) == col_of(ps@.subrange(0, i as int), id@),
        decreases i,
    {
        let ghost pre = ps@.subrange(0, i as int);
        assert(pre.drop_last() =~= ps@.subrange(0, i - 1));
        if str_eq(ps[i - 1].id.as_str(), id) {
            return Some(i - 1);
        }
        i = i - 1;
    }
    None
}

/// The largest lane width any bounded diagram can demand.
pub open spec fn lane_cap() -> int {
    1_700_000
}

/// Label widths of bounded texts under bounded metrics fit the arithmetic
/// and stay small.
pub proof fn lemma_label_width_small(m: Metrics, n: nat)
    requires
        metrics_bounded(m),
        n <= 4106,
    ensures
        label_width_ok(m.text, n),
        0 <= label_width_of(m.text, n) <= 1_686_000,
        scale_ok(n, m.text.title_char_tenths as int),
        0 <= scaled(n, m.text.title_char_tenths as int) <= 1_682_000,
{
    let t = m.text.label_char_tenths as int;
    let u = m.text.title_char_tenths as int;
    assert(0 <= n * t <= 4106 * 4096) by (nonlinear_arith)
        requires
            0 <= n <= 4106,
            0 <= t <= 4096,
    ;
    assert(0 <= n * u <= 4106 * 4096) by (nonlinear_arith)
        requires
            0 <= n <= 4106,
            0 <= u <= 4096,
    ;
}

/// A pill's text is at most its label and detail plus ten characters.
pub proof fn lemma_pill_len(kind: MsgKind, label: Seq<char>, detail: Seq<char>)
    ensures
        pill_chars(kind, label, detail).len() <= label.len() + detail.len() + 10,
{
}

/// Every demand of a bounded message under bounded metrics is between zero
/// and [`lane_cap`].
pub proof fn lemma_demand_small(m: Metrics, ps: Seq<Participant>, msg: Message, k: int)
    requires
        metrics_bounded(m),
        message_bounded(msg),
    ensures
        demand(m, ps, msg, k) matches Some(d) ==> 0 <= d <= lane_cap(),
{
    lemma_pill_len(msg.kind, msg.label@, msg.detail@);
    lemma_label_width_small(m, pill_text(msg).len());
    lemma_label_width_small(m, msg.label@.len());
    if msg.kind != MsgKind::SelfMsg {
        let a = col_or_first(ps, msg.from@);
        let b = col_or_first(ps, msg.to@);
        let lo = if a <= b { a } else { b };
        let hi = if a <= b { b } else { a };
        let span = if hi - lo >= 1 { hi - lo } else { 1 };
        let need = label_width_of(m.text, pill_text(msg).len()) + m.act_w + 16;
        assert(0 <= ceil_div(need, span) <= need) by (nonlinear_arith)
            requires
                span >= 1,
                need >= 0,
        {
            assert((need + span - 1) / span <= need);
        }
    }
}

/// Widening for a single message applies that message's demand.
pub proof fn lemma_lane_one(m: Metrics, ps: Seq<Participant>, msg: Message, k: int, g: int)
    ensures
        lane(m, ps, seq![msg], k, g) == match demand(m, ps, msg, k) {
            Some(d) => if d > g { d } else { g },
            None => g,
        },
{
    let one = seq![msg];
    assert(one.drop_last() =~= seq![]);
    assert(lane(m, ps, one.drop_last(), k, g) == g);
}

/// Widens `gaps` for one message, as [`demand`] describes.
fn measure_message(msg: &Message, m: &Metrics, ps: &Vec<Participant>, gaps: &mut Vec<i32>)
    requires
        metrics_bounded(*m),
        message_bounded(*msg),
        old(gaps)@.len() + 1 == ps@.len(),
        ps@.len() <= 1024,
    ensures
        final(gaps)@.len() == old(gaps)@.len(),
        forall|k: int|
            0 <= k < old(gaps)@.len() ==> final(gaps)@[k] == lane(
                *m,
                ps@,
                seq![*msg],
                k,
                old(gaps)@[k] as int,
            ),
{
    let ghost g_in = gaps@;
    proof {
        assert forall|k: int| 0 <= k < g_in.len() implies lane(*m, ps@, seq![*msg], k, g_in[k] as int) == match demand(*m, ps@, *msg, k) {
            Some(d) => if d > g_in[k] { d } else { g_in[k] as int },
            None => g_in[k] as int,
        } by {
            lemma_lane_one(*m, ps@, *msg, k, g_in[k] as int);
        }
        lemma_pill_len(msg.kind, msg.label@, msg.detail@);
        lemma_label_width_small(*m, pill_text(*msg).len());
        lemma_label_width_small(*m, msg.label@.len());
    }
    match msg.kind {
        MsgKind::SelfMsg => {
            // The loop extends right of its lifeline; reserve that room in
            // the gap to the next column.
            let c = match find_col(ps, msg.from.as_str()) {
                Some(c) => c,
                None => 0,
            };
            if c < gaps.len() {
                let need = m.self_offset + m.text.label_width(msg.label.as_str()) + 24;
                let cur = gaps[c];
                let v = if need > cur { need } else { cur };
                gaps.set(c, v);
            }
        },
        _ => {
            let a = match find_col(ps, msg.from.as_str()) {
                Some(c) => c,
                None => 0,
            };
            let b = match find_col(ps, msg.to.as_str()) {
                Some(c) => c,
                None => 0,
            };
            proof {
                lemma_col_of(ps@, msg.from@);
                lemma_col_of(ps@, msg.to@);
            }
            let lo = if a <= b { a } else { b };
            let hi = if a <= b { b } else { a };
            let span: i32 = if hi - lo >= 1 { (hi - lo) as i32 } else { 1 };
            // Clear the activation bars at both endpoints plus breathing room.
            let need = m.message_pill_width(msg) + m.act_w + 16;
            let per = (need + span - 1) / span;
            let ghost g0 = gaps@;
            let mut k = lo;
            while k < hi
                invariant
                    lo <= k <= hi,
                    hi < ps@.len(),
                    gaps@.len() == g0.len(),
                    g0.len() + 1 == ps@.len(),
                    forall|j: int|
                        0 <= j < g0.len() ==> gaps@[j] == if lo <= j < k {
                            if per > g0[j] { per as int } else { g0[j] as int }
                        } else {
                            g0[j] as int
                        },
                decreases hi - k,
            {
                let cur = gaps[k];
                let v = if per > cur { per } else { cur };
                gaps.set(k, v);
                k = k + 1;
            }
        },
    }
}

/// Widens the inter-lifeline gaps a diagram needs: each call/return label
/// must fit the gaps it spans (its width shared evenly across them), and a
/// self-message reserves room in the gap to its right. `gaps[k]` is the gap
/// between columns `k` and `k + 1`.
fn measure(items: &Vec<Item>, m: &Metrics, ps: &Vec<Participant>, gaps: &mut Vec<i32>)
    requires
        metrics_bounded(*m),
        old(gaps)@.len() + 1 == ps@.len(),
        ps@.len() <= 1024,
        forall|j: int|
            0 <= j < flat_items(items@).len() ==> message_bounded(#[trigger] flat_items(items@)[j]),
    ensures
        final(gaps)@.len() == old(gaps)@.len(),
        forall|k: int|
            0 <= k < old(gaps)@.len() ==> final(gaps)@[k] == lane(
                *m,
                ps@,
                flat_items(items@),
                k,
                old(gaps)@[k] as int,
            ),
    decreases items,
{
    let ghost g0 = gaps@;
    let mut i: usize = 0;
    assert(items@.subrange(0, 0) =~= seq![]);
    assert forall|k: int| 0 <= k < g0.len() implies gaps@[k] == lane(
        *m,
        ps@,
        flat_items(items@.subrange(0, 0)),
        k,
        g0[k] as int,
    ) by {
        assert(flat_items(items@.subrange(0, 0)) =~= seq![]);
    }
    while i < items.len()
        invariant
            i <= items@.len(),
            metrics_bounded(*m),
            gaps@.len() == g0.len(),
            g0.len() + 1 == ps@.len(),
            ps@.len() <= 1024,
            forall|j: int|
                0 <= j < flat_items(items@).len() ==> message_bounded(#[trigger] flat_items(items@)[j]),
            forall|k: int|
                0 <= k < g0.len() ==> gaps@[k] == lane(
                    *m,
                    ps@,
                    flat_items(items@.subrange(0, i as int)),
                    k,
                    g0[k] as int,
                ),
        decreases items@.len() - i,
    {
        let ghost pre = flat_items(items@.subrange(0, i as int));
        proof {
            lemma_flat_step(items@, i + 1);
            lemma_flat_prefix(items@, i + 1);
        }
        let ghost before = gaps@;
        match &items[i] {
            Item::Message(msg) => {
                assert(flat_item(items@[i as int]) == seq![*msg]);
                assert(message_bounded(*msg)) by {
                    assert(flat_items(items@.subrange(0, i + 1))[pre.len() as int] == *msg);
                    assert(flat_items(items@)[pre.len() as int] == *msg);
                }
                measure_message(msg, m, ps, gaps);
            },
            Item::Fragment(frag) => {
                let mut s: usize = 0;
                let ghost secs = frag.sections@;
                assert(secs.subrange(0, 0) =~= seq![]);
                assert(flat_sections(secs.subrange(0, 0)) =~= seq![]);
                assert(flat_item(items@[i as int]) == flat_sections(secs));
                assert forall|j: int| 0 <= j < flat_sections(secs).len() implies message_bounded(
                    #[trigger] flat_sections(secs)[j],
                ) by {
                    assert(flat_items(items@.subrange(0, i + 1))[pre.len() + j] == flat_sections(secs)[j]);
                }
                while s < frag.sections.len()
                    invariant
                        s <= secs.len(),
                        secs == frag.sections@,
                        i < items@.len(),
                        items@[i as int] == Item::Fragment(*frag),
                        metrics_bounded(*m),
                        gaps@.len() == g0.len(),
                        g0.len() + 1 == ps@.len(),
                        ps@.len() <= 1024,
                        forall|j: int|
                            0 <= j < flat_sections(secs).len() ==> message_bounded(
                                #[trigger] flat_sections(secs)[j],
                            ),
                        forall|k: int|
                            0 <= k < g0.len() ==> gaps@[k] == lane(
                                *m,
                                ps@,
                                flat_sections(secs.subrange(0, s as int)),
                                k,
                                before[k] as int,
                            ),
                    decreases secs.len() - s,
                {
                    proof {
                        lemma_flat_sections_step(secs, s + 1);
                        lemma_flat_sections_prefix(secs, s + 1);
                        let it = items@[i as int];
                        assert(it == Item::Fragment(*frag));
                        assert(decreases_to!(*items => items@));
                        assert(decreases_to!(items@ => it));
                        assert(decreases_to!(it => it->Fragment_0));
                        assert(decreases_to!(*frag => frag.sections));
                        assert(decreases_to!(frag.sections => frag.sections@));
                        assert(decreases_to!(frag.sections@ => frag.sections@[s as int]));
                        assert(decreases_to!(frag.sections@[s as int] => frag.sections@[s as int].body));
                    }
                    let ghost fs = flat_sections(secs.subrange(0, s as int));
                    assert forall|j: int| 0 <= j < flat_items(secs[s as int].body@).len() implies message_bounded(
                        #[trigger] flat_items(secs[s as int].body@)[j],
                    ) by {
                        assert(flat_sections(secs.subrange(0, s + 1))[fs.len() + j] == flat_items(
                            secs[s as int].body@,
                        )[j]);
                    }
                    measure(&frag.sections[s].body, m, ps, gaps);
                    assert forall|k: int| 0 <= k < g0.len() implies gaps@[k] == lane(
                        *m,
                        ps@,
                        flat_sections(secs.subrange(0, s + 1)),
                        k,
                        before[k] as int,
                    ) by {
                        lemma_lane_concat(
                            *m,
                            ps@,
                            flat_sections(secs.subrange(0, s as int)),
                            flat_items(secs[s as int].body@),
                            k,
                            before[k] as int,
                        );
                    }
                    s = s + 1;
                }
                assert(secs.subrange(0, secs.len() as int) =~= secs);
            },
        }
        assert forall|k: int| 0 <= k < g0.len() implies gaps@[k] == lane(
            *m,
            ps@,
            flat_items(items@.subrange(0, i + 1)),
            k,
            g0[k] as int,
        ) by {
            lemma_lane_concat(*m, ps@, pre, flat_item(items@[i as int]), k, g0[k] as int);
        }
        i = i + 1;
    }
    assert(items@.subrange(0, items@.len() as int) =~= items@);
}

/// The messages of `items` up to `n` are those up to `n - 1`, then those of
/// item `n - 1`.
pub proof fn lemma_flat_step(items: Seq<Item>, n: int)
    requires
        1 <= n <= items.len(),
    ensures
        flat_items(items.subrange(0, n)) == flat_items(items.subrange(0, n - 1)) + flat_item(
            items[n - 1],
        ),
{
    let s = items.subrange(0, n);
    assert(s.subrange(0, s.len() - 1) =~= items.subrange(0, n - 1));
    assert(s[s.len() - 1] == items[n - 1]);
}

/// The messages of a prefix of `items` are a prefix of the messages of
/// `items`.
pub proof fn lemma_flat_prefix(items: Seq<Item>, n: int)
    requires
        0 <= n <= items.len(),
    ensures
        flat_items(items.subrange(0, n)).len() <= flat_items(items).len(),
        forall|j: int|
            0 <= j < flat_items(items.subrange(0, n)).len() ==> #[trigger] flat_items(
                items.subrange(0, n),
            )[j] == flat_items(items)[j],
    decreases items.len() - n,
{
    if n < items.len() {
        lemma_flat_prefix(items, n + 1);
        lemma_flat_step(items, n + 1);
        assert forall|j: int| 0 <= j < flat_items(items.subrange(0, n)).len() implies #[trigger] flat_items(
            items.subrange(0, n),
        )[j] == flat_items(items)[j] by {
            assert(flat_items(items.subrange(0, n + 1))[j] == flat_items(items.subrange(0, n))[j]);
        }
    } else {
        assert(items.subrange(0, n) =~= items);
    }
}

/// The sections analogue of [`lemma_flat_step`].
pub proof fn lemma_flat_sections_step(secs: Seq<Section>, n: int)
    requires
        1 <= n <= secs.len(),
    ensures
        flat_sections(secs.subrange(0, n)) == flat_sections(secs.subrange(0, n - 1)) + flat_items(
            secs[n - 1].body@,
        ),
{
    let s = secs.subrange(0, n);
    assert(s.subrange(0, s.len() - 1) =~= secs.subrange(0, n - 1));
    assert(s[s.len() - 1] == secs[n - 1]);
}

/// The sections analogue of [`lemma_flat_prefix`].
pub proof fn lemma_flat_sections_prefix(secs: Seq<Section>, n: int)
    requires
        0 <= n <= secs.len(),
    ensures
        flat_sections(secs.subrange(0, n)).len() <= flat_sections(secs).len(),
        forall|j: int|
            0 <= j < flat_sections(secs.subrange(0, n)).len() ==> #[trigger] flat_sections(
                secs.subrange(0, n),
            )[j] == flat_sections(secs)[j],
    decreases secs.len() - n,
{
    if n < secs.len() {
        lemma_flat_sections_prefix(secs, n + 1);
        lemma_flat_sections_step(secs, n + 1);
        assert forall|j: int| 0 <= j < flat_sections(secs.subrange(0, n)).len() implies #[trigger] flat_sections(
            secs.subrange(0, n),
        )[j] == flat_sections(secs)[j] by {
            assert(flat_sections(secs.subrange(0, n + 1))[j] == flat_sections(secs.subrange(0, n))[j]);
        }
    } else {
        assert(secs.subrange(0, n) =~= secs);
    }
}

/// The summary lines a participant's head card draws: its summary wrapped to
/// the card's text column (at most [`head::MAX_DESC_LINES`] lines), or none.
pub open spec fn summary_lines_of(p: Participant, text: TextMetrics, node_w: int) -> Seq<Seq<char>> {
    let text_w = if node_w - head::TEXT_INSET >= 1 { node_w - head::TEXT_INSET } else { 1 };
    match p.summary {
        Some(s) => wrapped(s@, line_budget(text_w, text.desc_char_tenths as int), head::MAX_DESC_LINES as int),
        None => seq![],
    }
}

/// The head-card height participant `p` needs.
pub open spec fn head_height_of(p: Participant, text: TextMetrics, node_w: int) -> int {
    head::card_height_of(p.parent_path is Some, summary_lines_of(p, text, node_w).len())
}

/// A wrapped description has at most `max_lines` lines.
pub proof fn lemma_wrapped_len(text: Seq<char>, max_chars: int, max_lines: int)
    requires
        max_lines >= 0,
    ensures
        wrapped(text, max_chars, max_lines).len() <= max_lines,
{
}

/// A lifeline head's text below the name: the dimmed parent path and the
/// wrapped, capped summary.
struct HeadContent {
    parent_path: Option<String>,
    summary_lines: Vec<String>,
}

/// The head content for every participant, plus the uniform card height that
/// fits the tallest.
fn head_content(ps: &Vec<Participant>, text: &TextMetrics, node_w: i32) -> (r: (Vec<HeadContent>, i32))
    requires
        node_w >= 0,
    ensures
        r.0@.len() == ps@.len(),
        forall|i: int|
            0 <= i < ps@.len() ==> (#[trigger] r.0@[i]).parent_path == ps@[i].parent_path
                && string_lines(r.0@[i].summary_lines@) == summary_lines_of(ps@[i], *text, node_w as int),
        r.1 >= head::MIN_H,
        r.1 <= 103,
        forall|i: int| 0 <= i < ps@.len() ==> r.1 >= head_height_of(#[trigger] ps@[i], *text, node_w as int),
        r.1 == head::MIN_H || exists|i: int|
            0 <= i < ps@.len() && r.1 == head_height_of(#[trigger] ps@[i], *text, node_w as int),
{
    let text_w = if node_w - head::TEXT_INSET >= 1 { node_w - head::TEXT_INSET } else { 1 };
    let mut content: Vec<HeadContent> = Vec::new();
    let mut node_h = head::MIN_H;
    let mut i: usize = 0;
    while i < ps.len()
        invariant
            i <= ps@.len(),
            content@.len() == i,
            text_w == if node_w - head::TEXT_INSET >= 1 { node_w - head::TEXT_INSET } else { 1 },
            forall|j: int|
                0 <= j < i ==> (#[trigger] content@[j]).parent_path == ps@[j].parent_path
                    && string_lines(content@[j].summary_lines@) == summary_lines_of(ps@[j], *text, node_w as int),
            head::MIN_H <= node_h <= 103,
            forall|j: int| 0 <= j < i ==> node_h >= head_height_of(#[trigger] ps@[j], *text, node_w as int),
            node_h == head::MIN_H || exists|j: int|
                0 <= j < i && node_h == head_height_of(#[trigger] ps@[j], *text, node_w as int),
        decreases ps@.len() - i,
    {
        let p = &ps[i];
        let summary_lines = match &p.summary {
            Some(s) => text.wrap_desc(s.as_str(), text_w, head::MAX_DESC_LINES),
            None => Vec::new(),
        };
        proof {
            if p.summary is Some {
                lemma_wrapped_len(
                    p.summary->0@,
                    line_budget(text_w as int, text.desc_char_tenths as int),
                    head::MAX_DESC_LINES as int,
                );
            }
            assert(string_lines(summary_lines@).len() == summary_lines@.len());
        }
        let h = head::card_height(p.parent_path.is_some(), summary_lines.len());
        assert(h == head_height_of(ps@[i as int], *text, node_w as int));
        if h > node_h {
            node_h = h;
        }
        content.push(HeadContent { parent_path: p.parent_path.clone(), summary_lines });
        i = i + 1;
    }
    (content, node_h)
}

/// The card width: the widest title plus padding, floored at the minimum.
pub open spec fn card_width_ok(ps: Seq<Participant>, m: Metrics, node_w: int) -> bool {
    &&& node_w >= m.node_w_min
    &&& forall|i: int|
        0 <= i < ps.len() ==> node_w >= scaled(#[trigger] ps[i].label@.len(), m.text.title_char_tenths as int)
            + m.card_pad
    &&& (node_w == m.node_w_min || exists|i: int|
        0 <= i < ps.len() && node_w == scaled(#[trigger] ps[i].label@.len(), m.text.title_char_tenths as int)
            + m.card_pad)
}

/// Pass 1: the card width.
fn card_width(ps: &Vec<Participant>, m: &Metrics) -> (node_w: i32)
    requires
        metrics_bounded(*m),
        forall|i: int| 0 <= i < ps@.len() ==> (#[trigger] ps@[i]).label@.len() <= 2048,
    ensures
        card_width_ok(ps@, *m, node_w as int),
        0 <= node_w <= 1_690_000,
{
    let mut node_w = m.node_w_min;
    let mut i: usize = 0;
    while i < ps.len()
        invariant
            i <= ps@.len(),
            metrics_bounded(*m),
            forall|j: int| 0 <= j < ps@.len() ==> (#[trigger] ps@[j]).label@.len() <= 2048,
            card_width_ok(ps@.subrange(0, i as int), *m, node_w as int),
            0 <= node_w <= 1_690_000,
        decreases ps@.len() - i,
    {
        proof {
            lemma_label_width_small(*m, ps@[i as int].label@.len());
        }
        let w = m.text.title_width(ps[i].label.as_str()) + m.card_pad;
        let ghost pre = ps@.subrange(0, i as int);
        let ghost post = ps@.subrange(0, i + 1);
        if w > node_w {
            node_w = w;
        }
        proof {
            assert forall|j: int| 0 <= j < post.len() implies node_w >= scaled(
                #[trigger] post[j].label@.len(),
                m.text.title_char_tenths as int,
            ) + m.card_pad by {
                if j < i {
                    assert(post[j] == pre[j]);
                }
            }
            if node_w != m.node_w_min {
                if node_w == w {
                    assert(post[i as int] == ps@[i as int]);
                } else {
                    let j = choose|j: int|
                        0 <= j < pre.len() && node_w == scaled(
                            #[trigger] pre[j].label@.len(),
                            m.text.title_char_tenths as int,
                        ) + m.card_pad;
                    assert(post[j] == pre[j]);
                }
            }
        }
        i = i + 1;
    }
    assert(ps@.subrange(0, ps@.len() as int) =~= ps@);
    node_w
}

/// Lifeline positions: `x0`, then each next one a gap further.
fn place_columns(gaps: &Vec<i32>, x0: i32) -> (xs: Vec<i32>)
    requires
        0 <= x0 <= 850_000,
        gaps@.len() <= 1023,
        forall|k: int| 0 <= k < gaps@.len() ==> 0 <= #[trigger] gaps@[k] <= lane_cap(),
    ensures
        xs@.len() == gaps@.len() + 1,
        xs@[0] == x0,
        forall|k: int| 0 <= k < gaps@.len() ==> #[trigger] xs@[k + 1] == xs@[k] + gaps@[k],
        forall|k: int| 0 <= k < xs@.len() ==> x0 <= #[trigger] xs@[k] <= x0 + k * lane_cap(),
{
    let mut xs: Vec<i32> = Vec::new();
    let mut x = x0;
    xs.push(x);
    let mut k: usize = 0;
    while k < gaps.len()
        invariant
            k <= gaps@.len(),
            0 <= x0 <= 850_000,
            gaps@.len() <= 1023,
            forall|j: int| 0 <= j < gaps@.len() ==> 0 <= #[trigger] gaps@[j] <= lane_cap(),
            xs@.len() == k + 1,
            xs@[0] == x0,
            x == xs@[k as int],
            forall|j: int| 0 <= j < k ==> #[trigger] xs@[j + 1] == xs@[j] + gaps@[j],
            forall|j: int| 0 <= j < xs@.len() ==> x0 <= #[trigger] xs@[j] <= x0 + j * lane_cap(),
        decreases gaps@.len() - k,
    {
        x = x + gaps[k];
        xs.push(x);
        k = k + 1;
    }
    xs
}

/// Consecutive lifelines `a <= b` are at least `(b - a) * per` apart when
/// every lane between them is at least `per` wide.
pub proof fn lemma_columns_apart(xs: Seq<i32>, gaps: Seq<i32>, a: int, b: int, per: int)
    requires
        xs.len() == gaps.len() + 1,
        forall|k: int| 0 <= k < gaps.len() ==> xs[k + 1] == xs[k] + #[trigger] gaps[k],
        0 <= a <= b < xs.len(),
        forall|k: int| a <= k < b ==> #[trigger] gaps[k] >= per,
    ensures
        xs[b] - xs[a] >= (b - a) * per,
    decreases b - a,
{
    if a < b {
        lemma_columns_apart(xs, gaps, a, b - 1, per);
        let k = b - 1;
        assert(xs[k + 1] == xs[k] + gaps[k]);
        assert(gaps[k] >= per);
        assert(xs[b] - xs[a] >= (b - 1 - a) * per + per);
        assert((b - a) * per == (b - 1 - a) * per + per) by (nonlinear_arith);
    } else {
        assert((b - a) * per == 0) by (nonlinear_arith)
            requires
                a == b,
        ;
    }
}

/// Spreading `need` over `span` lanes at `ceil(need / span)` each covers it.
pub proof fn lemma_ceil_div_covers(need: int, span: int)
    requires
        need >= 0,
        span >= 1,
    ensures
        span * ceil_div(need, span) >= need,
{
    let q = (need + span - 1) / span;
    let r = (need + span - 1) % span;
    assert(need + span - 1 == span * q + r && 0 <= r < span) by {
        vstd::arithmetic::div_mod::lemma_fundamental_div_mod(need + span - 1, span);
    }
}

/// A copy of `v`, string by string.
fn clone_strings(v: &Vec<String>) -> (r: Vec<String>)
    ensures
        r@ == v@,
{
    let mut r: Vec<String> = Vec::new();
    let mut i: usize = 0;
    while i < v.len()
        invariant
            i <= v@.len(),
            r@ == v@.subrange(0, i as int),
        decreases v@.len() - i,
    {
        r.push(v[i].clone());
        i = i + 1;
        assert(r@ =~= v@.subrange(0, i as int));
    }
    r
}

/// The placed lifelines: each participant's texts and head content, its
/// card centred on its lifeline at the card row, and its dashed line from
/// the card's bottom to `bottom`.
fn place_participants(
    ps: &Vec<Participant>,
    content: &Vec<HeadContent>,
    xs: &Vec<i32>,
    node_w: i32,
    node_h: i32,
    m: &Metrics,
    bottom: i32,
) -> (pp: Vec<PlacedParticipant>)
    requires
        content@.len() == ps@.len(),
        xs@.len() == ps@.len(),
        0 <= node_w <= 1_690_000,
        0 <= node_h <= 103,
        metrics_bounded(*m),
        forall|i: int| 0 <= i < xs@.len() ==> 0 <= #[trigger] xs@[i] <= 1_800_000_000,
    ensures
        pp@.len() == ps@.len(),
        forall|i: int|
            0 <= i < ps@.len() ==> {
                let q = #[trigger] pp@[i];
                &&& q.id@ == ps@[i].id@
                &&& q.label@ == ps@[i].label@
                &&& q.kind@ == ps@[i].kind@
                &&& q.parent_path == content@[i].parent_path
                &&& q.summary_lines@ == content@[i].summary_lines@
                &&& q.card == Rect { x: (xs@[i] - node_w / 2) as i32, y: m.lifeline_top, w: node_w, h: node_h }
                &&& q.lifeline_x == xs@[i]
                &&& q.top == m.lifeline_top + node_h
                &&& q.bottom == bottom
            },
{
    let mut pp: Vec<PlacedParticipant> = Vec::new();
    let mut i: usize = 0;
    while i < ps.len()
        invariant
            i <= ps@.len(),
            content@.len() == ps@.len(),
            xs@.len() == ps@.len(),
            0 <= node_w <= 1_690_000,
            0 <= node_h <= 103,
            metrics_bounded(*m),
            forall|j: int| 0 <= j < xs@.len() ==> 0 <= #[trigger] xs@[j] <= 1_800_000_000,
            pp@.len() == i,
            forall|j: int|
                0 <= j < i ==> {
                    let q = #[trigger] pp@[j];
                    &&& q.id@ == ps@[j].id@
                    &&& q.label@ == ps@[j].label@
                    &&& q.kind@ == ps@[j].kind@
                    &&& q.parent_path == content@[j].parent_path
                    &&& q.summary_lines@ == content@[j].summary_lines@
                    &&& q.card == Rect { x: (xs@[j] - node_w / 2) as i32, y: m.lifeline_top, w: node_w, h: node_h }
                    &&& q.lifeline_x == xs@[j]
                    &&& q.top == m.lifeline_top + node_h
                    &&& q.bottom == bottom
                },
        decreases ps@.len() - i,
    {
        let p = &ps[i];
        let c = &content[i];
        let parent_path = match &c.parent_path {
            Some(s) => Some(s.clone()),
            None => None,
        };
        pp.push(
            PlacedParticipant {
                id: p.id.clone(),
                label: p.label.clone(),
                kind: p.kind.clone(),
                parent_path,
                summary_lines: clone_strings(&c.summary_lines),
                card: Rect::new(xs[i] - node_w / 2, m.lifeline_top, node_w, node_h),
                lifeline_x: xs[i],
                top: m.lifeline_top + node_h,
                bottom,
            },
        );
        i = i + 1;
    }
    pp
}

/// The low end of a span.
pub open spec fn span_lo(s: Option<(i32, i32)>) -> int {
    match s {
        Some((lo, hi)) => lo as int,
        None => 0,
    }
}

/// The high end of a span.
pub open spec fn span_hi(s: Option<(i32, i32)>) -> int {
    match s {
        Some((lo, hi)) => hi as int,
        None => 0,
    }
}

/// `a` is participant `p`'s bar on lifeline `x`, six beyond its span `s`.
pub open spec fn bar_for(a: Activation, p: Participant, x: i32, s: Option<(i32, i32)>) -> bool {
    &&& s is Some
    &&& a.participant@ == p.id@
    &&& a.x == x
    &&& a.top == span_lo(s) - 6
    &&& a.bottom == span_hi(s) + 6
}

/// The activation bars: for each participant involved in some message, a
/// bar on its lifeline from six above its first involvement to six below
/// its last; the first participant's bar is the owner's. Alongside, for
/// each participant the index of its bar, and for each bar its participant.
fn place_activations(ps: &Vec<Participant>, spans: &Vec<Option<(i32, i32)>>, xs: &Vec<i32>) -> (r: (
    Vec<Activation>,
    Ghost<Seq<int>>,
    Ghost<Seq<int>>,
))
    requires
        1 <= ps@.len(),
        spans@.len() == ps@.len(),
        xs@.len() == ps@.len(),
        forall|j: int|
            0 <= j < spans@.len() && (#[trigger] spans@[j]) is Some ==> 0 <= span_lo(spans@[j])
                <= span_hi(spans@[j]) <= 1_300_000_000,
    ensures
        r.1@.len() == ps@.len(),
        r.2@.len() == r.0@.len(),
        forall|j: int|
            0 <= j < ps@.len() && (#[trigger] spans@[j]) is Some ==> 0 <= r.1@[j] < r.0@.len()
                && bar_for(r.0@[r.1@[j]], ps@[j], xs@[j], spans@[j]),
        forall|a: int|
            0 <= a < r.0@.len() ==> 0 <= #[trigger] r.2@[a] < ps@.len() && bar_for(
                r.0@[a],
                ps@[r.2@[a]],
                xs@[r.2@[a]],
                spans@[r.2@[a]],
            ) && r.0@[a].owner == (ps@[r.2@[a]].id@ == ps@[0].id@),
{
    let mut acts: Vec<Activation> = Vec::new();
    let ghost mut pos: Seq<int> = seq![];
    let ghost mut idx: Seq<int> = seq![];
    let mut j: usize = 0;
    while j < ps.len()
        invariant
            j <= ps@.len(),
            1 <= ps@.len(),
            spans@.len() == ps@.len(),
            xs@.len() == ps@.len(),
            forall|i: int|
                0 <= i < spans@.len() && (#[trigger] spans@[i]) is Some ==> 0 <= span_lo(spans@[i])
                    <= span_hi(spans@[i]) <= 1_300_000_000,
            pos.len() == j,
            idx.len() == acts@.len(),
            forall|i: int|
                0 <= i < j && (#[trigger] spans@[i]) is Some ==> 0 <= pos[i] < acts@.len() && bar_for(
                    acts@[pos[i]],
                    ps@[i],
                    xs@[i],
                    spans@[i],
                ),
            forall|a: int|
                0 <= a < acts@.len() ==> 0 <= #[trigger] idx[a] < ps@.len() && bar_for(
                    acts@[a],
                    ps@[idx[a]],
                    xs@[idx[a]],
                    spans@[idx[a]],
                ) && acts@[a].owner == (ps@[idx[a]].id@ == ps@[0].id@),
        decreases ps@.len() - j,
    {
        match spans[j] {
            None => {
                proof {
                    pos = pos.push(0);
                }
            },
            Some((lo, hi)) => {
                let ghost a0 = acts@;
                let owner = str_eq(ps[j].id.as_str(), ps[0].id.as_str());
                acts.push(
                    Activation {
                        participant: ps[j].id.clone(),
                        x: xs[j],
                        top: lo - 6,
                        bottom: hi + 6,
                        owner,
                    },
                );
                proof {
                    pos = pos.push(a0.len() as int);
                    idx = idx.push(j as int);
                    assert forall|a: int| 0 <= a < a0.len() implies acts@[a] == a0[a] by {}
                }
            },
        }
        j = j + 1;
    }
    (acts, Ghost(pos), Ghost(idx))
}

/// The right extent: the rightmost card edge, fragment border, or end of a
/// self-message label.
fn right_extent(last_x: i32, node_w: i32, fragments: &Vec<PlacedFragment>, messages: &Vec<PlacedMessage>, m: &Metrics) -> (right: i32)
    requires
        metrics_bounded(*m),
        0 <= last_x <= x_cap(),
        0 <= node_w <= 1_690_000,
        forall|f: int|
            0 <= f < fragments@.len() ==> crate::layout::sequence::walk::fragment_fits(
                #[trigger] fragments@[f],
            ),
        forall|k: int|
            0 <= k < messages@.len() && (#[trigger] messages@[k]).kind == MsgKind::SelfMsg ==> -4096
                <= messages@[k].from_x <= x_cap() && messages@[k].label@.len() <= 2048,
    ensures
        right >= last_x + node_w / 2,
        forall|f: int|
            0 <= f < fragments@.len() ==> right >= (#[trigger] fragments@[f]).rect.x
                + fragments@[f].rect.w,
        forall|k: int|
            0 <= k < messages@.len() && (#[trigger] messages@[k]).kind == MsgKind::SelfMsg ==> right
                >= messages@[k].from_x + m.self_offset + label_width_of(m.text, messages@[k].label@.len()),
        right == last_x + node_w / 2 || (exists|f: int|
            0 <= f < fragments@.len() && right == (#[trigger] fragments@[f]).rect.x
                + fragments@[f].rect.w) || (exists|k: int|
            0 <= k < messages@.len() && (#[trigger] messages@[k]).kind == MsgKind::SelfMsg && right
                == messages@[k].from_x + m.self_offset + label_width_of(
                m.text,
                messages@[k].label@.len(),
            )),
        right <= x_cap() + 1_700_000,
{
    let mut right = last_x + node_w / 2;
    let mut f: usize = 0;
    while f < fragments.len()
        invariant
            f <= fragments@.len(),
            0 <= last_x <= x_cap(),
            0 <= node_w <= 1_690_000,
            forall|g: int|
                0 <= g < fragments@.len() ==> crate::layout::sequence::walk::fragment_fits(
                    #[trigger] fragments@[g],
                ),
            right >= last_x + node_w / 2,
            right <= x_cap() + 1_700_000,
            forall|g: int|
                0 <= g < f ==> right >= (#[trigger] fragments@[g]).rect.x + fragments@[g].rect.w,
            right == last_x + node_w / 2 || (exists|g: int|
                0 <= g < f && right == (#[trigger] fragments@[g]).rect.x + fragments@[g].rect.w),
        decreases fragments@.len() - f,
    {
        let r = fragments[f].rect.right();
        if r > right {
            right = r;
        }
        f = f + 1;
    }
    let mut k: usize = 0;
    while k < messages.len()
        invariant
            k <= messages@.len(),
            metrics_bounded(*m),
            0 <= last_x <= x_cap(),
            0 <= node_w <= 1_690_000,
            forall|j: int|
                0 <= j < messages@.len() && (#[trigger] messages@[j]).kind == MsgKind::SelfMsg ==> -4096
                    <= messages@[j].from_x <= x_cap() && messages@[j].label@.len() <= 2048,
            right >= last_x + node_w / 2,
            right <= x_cap() + 1_700_000,
            forall|g: int|
                0 <= g < fragments@.len() ==> right >= (#[trigger] fragments@[g]).rect.x
                    + fragments@[g].rect.w,
            forall|j: int|
                0 <= j < k && (#[trigger] messages@[j]).kind == MsgKind::SelfMsg ==> right
                    >= messages@[j].from_x + m.self_offset + label_width_of(m.text, messages@[j].label@.len()),
            right == last_x + node_w / 2 || (exists|g: int|
                0 <= g < fragments@.len() && right == (#[trigger] fragments@[g]).rect.x
                    + fragments@[g].rect.w) || (exists|j: int|
                0 <= j < k && (#[trigger] messages@[j]).kind == MsgKind::SelfMsg && right
                    == messages@[j].from_x + m.self_offset + label_width_of(
                    m.text,
                    messages@[j].label@.len(),
                )),
        decreases messages@.len() - k,
    {
        let msg = &messages[k];
        if msg.kind == MsgKind::SelfMsg {
            proof {
                lemma_label_width_small(*m, msg.label@.len());
            }
            let end = msg.from_x + m.self_offset + m.text.label_width(msg.label.as_str());
            if end > right {
                right = end;
            }
        }
        k = k + 1;
    }
    right
}

/// Diagrams the engine lays out within `i32` coordinates: bounded metrics,
/// at most 1024 participants whose titles have at most 2048 characters,
/// message texts of at most 2048 characters, and an item tree of weight at
/// most 65536.
pub open spec fn sequence_fits(d: Diagram, m: Metrics) -> bool {
    &&& metrics_bounded(m)
    &&& d.participants@.len() <= 1024
    &&& forall|i: int| 0 <= i < d.participants@.len() ==> (#[trigger] d.participants@[i]).label@.len() <= 2048
    &&& forall|k: int|
        0 <= k < flat_items(d.items@).len() ==> message_bounded(#[trigger] flat_items(d.items@)[k])
    &&& weight_items(d.items@) <= 65536
}

/// The lifeline x positions of a layout, left to right.
pub open spec fn lifeline_xs(out: Layout) -> Seq<i32> {
    out.participants@.map_values(|p: PlacedParticipant| p.lifeline_x)
}

/// The head cards: each participant's texts and head content, its card of
/// the uniform size centred on its lifeline at the card row, and its dashed
/// line from the card's bottom to the body's bottom.
#[verifier::opaque]
pub open spec fn heads_placed(out: Layout, d: Diagram, m: Metrics) -> bool {
    let ps = d.participants@;
    let pp = out.participants@;
    let node_w = pp[0].card.w as int;
    let node_h = pp[0].card.h as int;
    &&& pp.len() == ps.len()
    &&& card_width_ok(ps, m, node_w)
    &&& node_h >= head::MIN_H
    &&& forall|i: int| 0 <= i < ps.len() ==> node_h >= head_height_of(#[trigger] ps[i], m.text, node_w)
    &&& (node_h == head::MIN_H || exists|i: int|
        0 <= i < ps.len() && node_h == head_height_of(#[trigger] ps[i], m.text, node_w))
    &&& forall|i: int|
        0 <= i < ps.len() ==> {
            let q = #[trigger] pp[i];
            &&& q.id@ == ps[i].id@
            &&& q.label@ == ps[i].label@
            &&& q.kind@ == ps[i].kind@
            &&& q.parent_path == ps[i].parent_path
            &&& string_lines(q.summary_lines@) == summary_lines_of(ps[i], m.text, node_w)
            &&& q.card == Rect { x: (q.lifeline_x - node_w / 2) as i32, y: m.lifeline_top, w: node_w as i32, h: node_h as i32 }
            &&& q.top == m.lifeline_top + node_h
            &&& q.bottom == out.height - m.pad
        }
}

/// The lifelines: the first half a card in from the margin, each next one
/// a lane further, each lane as wide as [`lane`] makes it from the card +
/// gutter floor.
#[verifier::opaque]
pub open spec fn columns_placed(out: Layout, d: Diagram, m: Metrics) -> bool {
    let ps = d.participants@;
    let xs = lifeline_xs(out);
    let node_w = out.participants@[0].card.w as int;
    &&& xs[0] == m.pad + node_w / 2
    &&& forall|k: int|
        0 <= k < ps.len() - 1 ==> #[trigger] xs[k + 1] - xs[k] == lane(
            m,
            ps,
            flat_items(d.items@),
            k,
            node_w + m.col_gutter,
        )
}

/// The messages: one per message of the diagram, in evaluation order,
/// carrying its kind, ids and texts, its arrow between the lifelines, its
/// step number, and a row below the cards and above the body's bottom.
#[verifier::opaque]
pub open spec fn messages_placed(out: Layout, d: Diagram, m: Metrics) -> bool {
    let ps = d.participants@;
    let flat = flat_items(d.items@);
    let ms = out.messages@;
    let xs = lifeline_xs(out);
    let body_top = m.lifeline_top + out.participants@[0].card.h + m.msg_gap;
    &&& ms.len() == flat.len()
    &&& forall|k: int|
        0 <= k < ms.len() ==> {
            &&& same_message(#[trigger] ms[k], flat[k])
            &&& placed_at(m, ps, xs, xs[0] - m.frame_pad, ms[k])
            &&& step_ok(ms, k)
            &&& body_top <= ms[k].y <= out.height - m.pad
        }
}

/// The canvas: as wide as its rightmost card edge, fragment border or
/// self-message label plus the margin, and as tall as the body plus the
/// margin.
#[verifier::opaque]
pub open spec fn canvas_sized(out: Layout, m: Metrics) -> bool {
    let xs = lifeline_xs(out);
    let node_w = out.participants@[0].card.w as int;
    let right = out.width - m.pad;
    let last_edge = xs[xs.len() - 1] + node_w / 2;
    &&& right >= last_edge
    &&& forall|f: int|
        0 <= f < out.fragments@.len() ==> right >= (#[trigger] out.fragments@[f]).rect.x
            + out.fragments@[f].rect.w
    &&& forall|k: int|
        0 <= k < out.messages@.len() && (#[trigger] out.messages@[k]).kind == MsgKind::SelfMsg ==> right
            >= out.messages@[k].from_x + m.self_offset + label_width_of(
            m.text,
            out.messages@[k].label@.len(),
        )
    &&& (right == last_edge || (exists|f: int|
        0 <= f < out.fragments@.len() && right == (#[trigger] out.fragments@[f]).rect.x
            + out.fragments@[f].rect.w) || (exists|k: int|
        0 <= k < out.messages@.len() && (#[trigger] out.messages@[k]).kind == MsgKind::SelfMsg && right
            == out.messages@[k].from_x + m.self_offset + label_width_of(
            m.text,
            out.messages@[k].label@.len(),
        )))
}

/// No two adjacent head cards overlap.
#[verifier::opaque]
pub open spec fn cards_disjoint(out: Layout) -> bool {
    forall|i: int|
        0 <= i < out.participants@.len() - 1 ==> (#[trigger] out.participants@[i]).card.x
            + out.participants@[i].card.w <= out.participants@[i + 1].card.x
}

/// Every call or return between two distinct lifelines fits its pill in the
/// lane between them.
#[verifier::opaque]
pub open spec fn labels_fit(out: Layout, d: Diagram, m: Metrics) -> bool {
    let ps = d.participants@;
    let xs = lifeline_xs(out);
    forall|k: int|
        #![trigger out.messages@[k]]
        0 <= k < out.messages@.len() && out.messages@[k].kind != MsgKind::SelfMsg && col_of(
            ps,
            out.messages@[k].from@,
        ) is Some && col_of(ps, out.messages@[k].to@) is Some && col_of(ps, out.messages@[k].from@)
            != col_of(ps, out.messages@[k].to@) ==> {
            let a = col_of(ps, out.messages@[k].from@)->0;
            let b = col_of(ps, out.messages@[k].to@)->0;
            let avail = if xs[a] >= xs[b] { xs[a] - xs[b] } else { xs[b] - xs[a] };
            label_width_of(
                m.text,
                pill_chars(out.messages@[k].kind, out.messages@[k].label@, out.messages@[k].detail@).len(),
            ) <= avail
        }
}

/// Every self-message's label ends within the canvas.
#[verifier::opaque]
pub open spec fn self_labels_fit(out: Layout, m: Metrics) -> bool {
    forall|k: int|
        0 <= k < out.messages@.len() && (#[trigger] out.messages@[k]).kind == MsgKind::SelfMsg
            ==> out.messages@[k].from_x + m.self_offset + label_width_of(
            m.text,
            out.messages@[k].label@.len(),
        ) <= out.width
}

/// Every lifeline a message involves has an activation bar on it covering
/// the message's row.
#[verifier::opaque]
pub open spec fn activations_cover(out: Layout, d: Diagram) -> bool {
    let ps = d.participants@;
    let xs = lifeline_xs(out);
    forall|k: int, j: int|
        0 <= k < out.messages@.len() && 0 <= j < ps.len() && notes(#[trigger] out.messages@[k], #[trigger] ps[j].id@)
            ==> exists|a: int|
            0 <= a < out.activations@.len() && (#[trigger] out.activations@[a]).participant@ == ps[j].id@
                && out.activations@[a].x == xs[j] && out.activations@[a].top <= out.messages@[k].y
                <= out.activations@[a].bottom
}

/// Every activation bar sits on a participant's lifeline and is the owner's
/// exactly when that participant carries the first participant's id.
#[verifier::opaque]
pub open spec fn activations_owned(out: Layout, d: Diagram) -> bool {
    forall|a: int| 0 <= a < out.activations@.len() ==> #[trigger] bar_owned(out, d, a)
}

/// Bar `a` of `out` sits on the lifeline of a participant carrying its id,
/// spans a positive height, and is the owner's exactly when that participant
/// carries the first participant's id.
pub open spec fn bar_owned(out: Layout, d: Diagram, a: int) -> bool {
    exists|j: int|
        0 <= j < d.participants@.len() && (#[trigger] d.participants@[j]).id@
            == out.activations@[a].participant@ && out.activations@[a].x == lifeline_xs(out)[j]
            && out.activations@[a].owner == (d.participants@[j].id@ == d.participants@[0].id@)
            && out.activations@[a].top < out.activations@[a].bottom
}

/// With positive vertical spacing, rows strictly descend and every fragment
/// box is non-empty with its dividers strictly inside, top to bottom.
#[verifier::opaque]
pub open spec fn spaced_layout(out: Layout) -> bool {
    &&& forall|k1: int, k2: int|
        0 <= k1 < k2 < out.messages@.len() ==> (#[trigger] out.messages@[k1]).y
            < (#[trigger] out.messages@[k2]).y
    &&& forall|f: int| 0 <= f < out.fragments@.len() ==> fragment_ok(#[trigger] out.fragments@[f])
}

/// Each message sits on the row the walk gives it: the body starts one
/// message gap below the head cards, a call or return advances the cursor
/// one row, a self-message its row and loop, a fragment its bands and
/// sections; the canvas ends one pad below the last row's advance.
pub open spec fn rows_placed(out: Layout, d: Diagram, m: Metrics) -> bool {
    let body_top = m.lifeline_top + out.participants@[0].card.h + m.msg_gap;
    &&& forall|k: int|
        0 <= k < out.messages@.len() ==> (#[trigger] out.messages@[k]).y == crate::layout::sequence::walk::items_ys(
            m,
            body_top,
            d.items@,
        )[k]
    &&& out.height == body_top + crate::layout::sequence::walk::items_h(m, d.items@) + m.pad
}

/// The rightmost of the first `n` lifelines.
pub open spec fn xs_max(xs: Seq<i32>, n: int) -> int
    decreases n,
{
    if n <= 1 {
        xs[0] as int
    } else {
        let r = xs_max(xs, n - 1);
        if xs[n - 1] > r {
            xs[n - 1] as int
        } else {
            r
        }
    }
}

/// Each fragment gets one box, listed as the walk completes them (nested
/// ones before the one around them): its operator, the first guard as its
/// tab label, a divider below each section but the last carrying the next
/// guard (or `else`), and a box from its top band through its foot band
/// over the lifelines its messages touch, padded by the frame pad; one
/// whose messages touch no lifeline spans the walk's width, from a frame
/// pad left of the first lifeline to a frame pad and a return stub right
/// of the rightmost.
pub open spec fn frags_placed(out: Layout, d: Diagram, m: Metrics) -> bool {
    let xs = lifeline_xs(out);
    let body_top = m.lifeline_top + out.participants@[0].card.h + m.msg_gap;
    crate::layout::sequence::walk::frag_views(out.fragments@) == crate::layout::sequence::walk::items_frags(
        m,
        d.participants@,
        xs,
        xs[0] - m.frame_pad,
        xs_max(xs, xs.len() as int) + m.frame_pad + m.ret_stub,
        body_top,
        d.items@,
    )
}

/// Lays `diagram` out into absolute coordinates under `metrics`.
#[verifier::rlimit(80)]
pub fn layout(diagram: &Diagram, metrics: &Metrics) -> (out: Layout)
    requires
        sequence_fits(*diagram, *metrics),
    ensures
        diagram.participants@.len() == 0 ==> out.width == 2 * metrics.pad && out.height == 2
            * metrics.pad && out.participants@.len() == 0 && out.messages@.len() == 0
            && out.activations@.len() == 0 && out.fragments@.len() == 0,
        diagram.participants@.len() > 0 ==> {
            &&& heads_placed(out, *diagram, *metrics)
            &&& columns_placed(out, *diagram, *metrics)
            &&& messages_placed(out, *diagram, *metrics)
            &&& canvas_sized(out, *metrics)
            &&& cards_disjoint(out)
            &&& labels_fit(out, *diagram, *metrics)
            &&& self_labels_fit(out, *metrics)
            &&& activations_cover(out, *diagram)
            &&& activations_owned(out, *diagram)
            &&& rows_placed(out, *diagram, *metrics)
            &&& frags_placed(out, *diagram, *metrics)
            &&& (metrics_spaced(*metrics) ==> spaced_layout(out))
        },
{
    let m = *metrics;
    let ps = &diagram.participants;
    let n = ps.len();
    if n == 0 {
        return Layout {
            width: 2 * m.pad,
            height: 2 * m.pad,
            participants: Vec::new(),
            messages: Vec::new(),
            activations: Vec::new(),
            fragments: Vec::new(),
        };
    }
    let ghost flat = flat_items(diagram.items@);
    // Pass 1: card width, head content and the uniform card height.
    let node_w = card_width(ps, &m);
    let (content, node_h) = head_content(ps, &m.text, node_w);
    // Pass 2: column gaps.
    let base = node_w + m.col_gutter;
    let mut gaps: Vec<i32> = Vec::new();
    let mut k: usize = 0;
    while k < n - 1
        invariant
            k <= n - 1,
            n == ps@.len(),
            gaps@.len() == k,
            forall|j: int| 0 <= j < k ==> #[trigger] gaps@[j] == base,
        decreases n - 1 - k,
    {
        gaps.push(base);
        k = k + 1;
    }
    let ghost g0 = gaps@;
    measure(&diagram.items, &m, ps, &mut gaps);
    proof {
        assert forall|j: int| 0 <= j < gaps@.len() implies 0 <= #[trigger] gaps@[j] <= lane_cap() && gaps@[j]
            == lane(m, ps@, flat, j, base as int) by {
            assert forall|i: int|
                0 <= i < flat.len() && #[trigger] demand(m, ps@, flat[i], j) is Some implies demand(
                    m,
                    ps@,
                    flat[i],
                    j,
                )->0 <= lane_cap() by {
                lemma_demand_small(m, ps@, flat[i], j);
            }
            lemma_lane_le(m, ps@, flat, j, base as int, lane_cap());
            lemma_lane_ge(m, ps@, flat, j, base as int);
        }
    }
    let x0 = m.pad + node_w / 2;
    let xs = place_columns(&gaps, x0);
    let mut lo_x = xs[0];
    let mut hi_x = xs[0];
    let mut i: usize = 0;
    while i < xs.len()
        invariant
            i <= xs@.len(),
            xs@.len() == n,
            n >= 1,
            forall|j: int| 0 <= j < xs@.len() ==> x0 <= #[trigger] xs@[j] <= x_cap(),
            xs@[0] == x0,
            lo_x == xs@[0],
            x0 <= hi_x <= x_cap(),
            forall|j: int| 0 <= j < i ==> #[trigger] xs@[j] <= hi_x,
            hi_x == xs_max(xs@, if i == 0 { 1 } else { i as int }),
        decreases xs@.len() - i,
    {
        if xs[i] < lo_x {
            lo_x = xs[i];
        }
        if xs[i] > hi_x {
            hi_x = xs[i];
        }
        i = i + 1;
    }
    let min_x = lo_x - m.frame_pad;
    let max_x = hi_x + m.frame_pad + m.ret_stub;
    // Pass 3: the vertical walk.
    let body_top = m.lifeline_top + node_h + m.msg_gap;
    let mut spans: Vec<Option<(i32, i32)>> = Vec::new();
    let mut j: usize = 0;
    while j < n
        invariant
            j <= n,
            spans@.len() == j,
            forall|q: int| 0 <= q < j ==> (#[trigger] spans@[q]) is None,
        decreases n - j,
    {
        spans.push(None);
        j = j + 1;
    }
    proof {
        assert forall|q: int| 0 <= q < xs@.len() implies 0 <= #[trigger] xs@[q] <= x_cap() && min_x
            + m.frame_pad <= xs@[q] && xs@[q] + m.frame_pad + m.ret_stub <= max_x by {}
    }
    let mut walk = Walk {
        m,
        ps,
        xs: &xs,
        min_x,
        max_x,
        messages: Vec::new(),
        fragments: Vec::new(),
        spans,
        y: body_top,
        step: 0,
        y0: Ghost(body_top as int),
    };
    proof {
        crate::layout::sequence::walk::lemma_walk_start(walk);
    }
    let ghost w_start = walk;
    walk.items(&diagram.items);
    let body_bottom = walk.y;
    let ghost w = walk;
    proof {
        crate::layout::sequence::walk::lemma_walk_facts(w);
        crate::layout::sequence::walk::lemma_extends_from_empty(w, w_start);
    }
    let Walk { messages, fragments, spans, .. } = walk;
    let participants = place_participants(ps, &content, &xs, node_w, node_h, &m, body_bottom);
    let (activations, Ghost(pos), Ghost(idx)) = place_activations(ps, &spans, &xs);
    proof {
        assert forall|q: int|
            0 <= q < messages@.len() && (#[trigger] messages@[q]).kind == MsgKind::SelfMsg implies -4096
            <= messages@[q].from_x <= x_cap() && messages@[q].label@.len() <= 2048 by {
            lemma_col_of(ps@, messages@[q].from@);
            assert(same_message(messages@[w_start.messages@.len() + q], flat[q]));
            assert(message_bounded(flat[q]));
        }
    }
    let right = right_extent(xs[n - 1], node_w, &fragments, &messages, &m);
    let out = Layout {
        width: right + m.pad,
        height: body_bottom + m.pad,
        participants,
        messages,
        activations,
        fragments,
    };
    proof {
        let pp = out.participants@;
        let xsq = xs@;
        assert(lifeline_xs(out) =~= xsq);
        assert forall|q: int| 0 <= q < ps@.len() implies string_lines((#[trigger] pp[q]).summary_lines@)
            == summary_lines_of(ps@[q], m.text, node_w as int) by {
            assert(pp[q].summary_lines@ == content@[q].summary_lines@);
        }
        assert(w_start.messages@.len() == 0);
        assert forall|k: int| 0 <= k < out.messages@.len() implies same_message(
            #[trigger] out.messages@[k],
            flat[k],
        ) by {
            assert(out.messages@[w_start.messages@.len() + k] == out.messages@[k]);
        }
        assert(crate::layout::sequence::walk::frag_views(w_start.fragments@) =~= seq![]);
        assert(seq![] + crate::layout::sequence::walk::items_frags(
            m,
            ps@,
            xsq,
            min_x as int,
            max_x as int,
            body_top as int,
            diagram.items@,
        ) =~= crate::layout::sequence::walk::items_frags(
            m,
            ps@,
            xsq,
            min_x as int,
            max_x as int,
            body_top as int,
            diagram.items@,
        ));
        assert forall|k: int| 0 <= k < out.messages@.len() implies (#[trigger] out.messages@[k]).y
            == crate::layout::sequence::walk::items_ys(m, body_top as int, diagram.items@)[k] by {
            assert(out.messages@[w_start.messages@.len() + k] == out.messages@[k]);
        }
        lemma_columns(out, *diagram, m, gaps@, xsq, base as int);
        lemma_labels(out, *diagram, m, gaps@, xsq, base as int);
        lemma_activations(out, *diagram, xsq, spans@, pos, idx);
        lemma_assembled(out, *diagram, m, xsq, node_w as int, node_h as int, body_bottom as int, right as int);
    }
    out
}

/// A call or return between two distinct resolved lifelines gets a lane
/// span wide enough for its pill.
pub proof fn lemma_label_fits(
    m: Metrics,
    ps: Seq<Participant>,
    flat: Seq<Message>,
    gaps: Seq<i32>,
    xs: Seq<i32>,
    base: int,
    k: int,
)
    requires
        metrics_bounded(m),
        0 <= k < flat.len(),
        message_bounded(flat[k]),
        flat[k].kind != MsgKind::SelfMsg,
        col_of(ps, flat[k].from@) is Some,
        col_of(ps, flat[k].to@) is Some,
        col_of(ps, flat[k].from@) != col_of(ps, flat[k].to@),
        xs.len() == ps.len(),
        xs.len() == gaps.len() + 1,
        forall|q: int| 0 <= q < gaps.len() ==> xs[q + 1] == xs[q] + #[trigger] gaps[q],
        forall|q: int| 0 <= q < gaps.len() ==> #[trigger] gaps[q] == lane(m, ps, flat, q, base),
    ensures
        ({
            let a = col_of(ps, flat[k].from@)->0;
            let b = col_of(ps, flat[k].to@)->0;
            let avail = if xs[a] >= xs[b] { xs[a] - xs[b] } else { xs[b] - xs[a] };
            label_width_of(m.text, pill_text(flat[k]).len()) <= avail
        }),
{
    let msg = flat[k];
    lemma_col_of(ps, msg.from@);
    lemma_col_of(ps, msg.to@);
    let a = col_of(ps, msg.from@)->0;
    let b = col_of(ps, msg.to@)->0;
    let lo = if a <= b { a } else { b };
    let hi = if a <= b { b } else { a };
    let span = hi - lo;
    lemma_pill_len(msg.kind, msg.label@, msg.detail@);
    lemma_label_width_small(m, pill_text(msg).len());
    let need = label_width_of(m.text, pill_text(msg).len()) + m.act_w + 16;
    let per = ceil_div(need, span);
    assert forall|q: int| lo <= q < hi implies #[trigger] gaps[q] >= per by {
        lemma_lane_ge(m, ps, flat, q, base);
        assert(demand(m, ps, flat[k], q) == Some(per));
    }
    lemma_columns_apart(xs, gaps, lo, hi, per);
    lemma_ceil_div_covers(need, span);
    assert(span * per == (hi - lo) * per);
}

/// The columns of a layout: lanes are as [`lane`] widens them, so adjacent
/// cards never overlap.
proof fn lemma_columns(out: Layout, d: Diagram, m: Metrics, gaps: Seq<i32>, xs: Seq<i32>, base: int)
    requires
        metrics_bounded(m),
        lifeline_xs(out) == xs,
        xs.len() == gaps.len() + 1,
        xs.len() == d.participants@.len(),
        out.participants@.len() == xs.len(),
        base == out.participants@[0].card.w + m.col_gutter,
        forall|q: int| 0 <= q < gaps.len() ==> xs[q + 1] == xs[q] + #[trigger] gaps[q],
        forall|q: int|
            0 <= q < gaps.len() ==> #[trigger] gaps[q] == lane(m, d.participants@, flat_items(d.items@), q, base),
        forall|q: int|
            0 <= q < xs.len() ==> (#[trigger] out.participants@[q]).card == (Rect {
                x: (xs[q] - out.participants@[0].card.w / 2) as i32,
                y: m.lifeline_top,
                w: out.participants@[0].card.w,
                h: out.participants@[0].card.h,
            }),
        forall|q: int| 0 <= q < xs.len() ==> 0 <= #[trigger] xs[q] <= x_cap(),
        0 <= out.participants@[0].card.w <= 1_690_000,
    ensures
        cards_disjoint(out),
        forall|k: int|
            0 <= k < d.participants@.len() - 1 ==> #[trigger] xs[k + 1] - xs[k] == lane(
                m,
                d.participants@,
                flat_items(d.items@),
                k,
                out.participants@[0].card.w + m.col_gutter,
            ),
{
    reveal(cards_disjoint);
    let pp = out.participants@;
    assert forall|q: int| 0 <= q < pp.len() - 1 implies (#[trigger] pp[q]).card.x + pp[q].card.w
        <= pp[q + 1].card.x by {
        lemma_lane_ge(m, d.participants@, flat_items(d.items@), q, base);
        assert(gaps[q] == lane(m, d.participants@, flat_items(d.items@), q, base));
        assert(xs[q + 1] == xs[q] + gaps[q]);
        assert(pp[q + 1].card.x == xs[q + 1] - out.participants@[0].card.w / 2);
    }
    assert forall|k: int| 0 <= k < d.participants@.len() - 1 implies #[trigger] xs[k + 1] - xs[k] == lane(
        m,
        d.participants@,
        flat_items(d.items@),
        k,
        out.participants@[0].card.w + m.col_gutter,
    ) by {
        assert(gaps[k] == lane(m, d.participants@, flat_items(d.items@), k, base));
        assert(xs[k + 1] == xs[k] + gaps[k]);
    }
}

/// Every call or return between distinct resolved lifelines fits its lane.
proof fn lemma_labels(out: Layout, d: Diagram, m: Metrics, gaps: Seq<i32>, xs: Seq<i32>, base: int)
    requires
        sequence_fits(d, m),
        lifeline_xs(out) == xs,
        xs.len() == gaps.len() + 1,
        xs.len() == d.participants@.len(),
        out.messages@.len() == flat_items(d.items@).len(),
        forall|k: int|
            0 <= k < out.messages@.len() ==> same_message(#[trigger] out.messages@[k], flat_items(d.items@)[k]),
        forall|q: int| 0 <= q < gaps.len() ==> xs[q + 1] == xs[q] + #[trigger] gaps[q],
        forall|q: int|
            0 <= q < gaps.len() ==> #[trigger] gaps[q] == lane(m, d.participants@, flat_items(d.items@), q, base),
    ensures
        labels_fit(out, d, m),
{
    reveal(labels_fit);
    let ps = d.participants@;
    let flat = flat_items(d.items@);
    assert forall|k: int|
        #![trigger out.messages@[k]]
        0 <= k < out.messages@.len() && out.messages@[k].kind != MsgKind::SelfMsg && col_of(
            ps,
            out.messages@[k].from@,
        ) is Some && col_of(ps, out.messages@[k].to@) is Some && col_of(ps, out.messages@[k].from@)
            != col_of(ps, out.messages@[k].to@) implies {
            let a = col_of(ps, out.messages@[k].from@)->0;
            let b = col_of(ps, out.messages@[k].to@)->0;
            let avail = if xs[a] >= xs[b] { xs[a] - xs[b] } else { xs[b] - xs[a] };
            label_width_of(
                m.text,
                pill_chars(out.messages@[k].kind, out.messages@[k].label@, out.messages@[k].detail@).len(),
            ) <= avail
        } by {
        assert(same_message(out.messages@[k], flat[k]));
        lemma_label_fits(m, ps, flat, gaps, xs, base, k);
    }
}

/// Activation bars cover every message involving their lifeline, and each
/// bar belongs to a participant.
proof fn lemma_activations(
    out: Layout,
    d: Diagram,
    xs: Seq<i32>,
    spans: Seq<Option<(i32, i32)>>,
    pos: Seq<int>,
    idx: Seq<int>,
)
    requires
        lifeline_xs(out) == xs,
        xs.len() == d.participants@.len(),
        spans.len() == d.participants@.len(),
        pos.len() == d.participants@.len(),
        idx.len() == out.activations@.len(),
        forall|j: int|
            0 <= j < spans.len() && (#[trigger] spans[j]) is Some ==> span_lo(spans[j]) <= span_hi(spans[j]),
        forall|k: int, j: int|
            0 <= k < out.messages@.len() && 0 <= j < d.participants@.len() && notes(
                #[trigger] out.messages@[k],
                d.participants@[j].id@,
            ) ==> (#[trigger] spans[j]) is Some && span_lo(spans[j]) <= out.messages@[k].y <= span_hi(
                spans[j],
            ),
        forall|j: int|
            0 <= j < d.participants@.len() && (#[trigger] spans[j]) is Some ==> 0 <= pos[j]
                < out.activations@.len() && bar_for(out.activations@[pos[j]], d.participants@[j], xs[j], spans[j]),
        forall|a: int|
            0 <= a < out.activations@.len() ==> 0 <= #[trigger] idx[a] < d.participants@.len() && bar_for(
                out.activations@[a],
                d.participants@[idx[a]],
                xs[idx[a]],
                spans[idx[a]],
            ) && out.activations@[a].owner == (d.participants@[idx[a]].id@ == d.participants@[0].id@),
    ensures
        activations_cover(out, d),
        activations_owned(out, d),
{
    reveal(activations_cover);
    reveal(activations_owned);
    let ps = d.participants@;
    assert forall|k: int, j: int|
        0 <= k < out.messages@.len() && 0 <= j < ps.len() && notes(
            #[trigger] out.messages@[k],
            #[trigger] ps[j].id@,
        ) implies exists|a: int|
        0 <= a < out.activations@.len() && (#[trigger] out.activations@[a]).participant@ == ps[j].id@
            && out.activations@[a].x == xs[j] && out.activations@[a].top <= out.messages@[k].y
            <= out.activations@[a].bottom by {
        assert(spans[j] is Some);
        assert(bar_for(out.activations@[pos[j]], ps[j], xs[j], spans[j]));
    }
    assert forall|a: int| 0 <= a < out.activations@.len() implies #[trigger] bar_owned(out, d, a) by {
        let j = idx[a];
        assert(0 <= idx[a] < ps.len());
        assert(bar_for(out.activations@[a], ps[j], xs[j], spans[j]));
        assert(spans[j] is Some);
        assert(span_lo(spans[j]) <= span_hi(spans[j]));
        assert(ps[j].id@ == out.activations@[a].participant@);
        assert(out.activations@[a].x == lifeline_xs(out)[j]);
        assert(out.activations@[a].owner == (ps[j].id@ == ps[0].id@));
        assert(out.activations@[a].top < out.activations@[a].bottom);
    }
}

/// The head cards, columns, messages and canvas of an assembled layout.
proof fn lemma_assembled(
    out: Layout,
    d: Diagram,
    m: Metrics,
    xs: Seq<i32>,
    node_w: int,
    node_h: int,
    body_bottom: int,
    right: int,
)
    requires
        sequence_fits(d, m),
        lifeline_xs(out) == xs,
        xs.len() == d.participants@.len(),
        xs.len() >= 1,
        out.participants@.len() == xs.len(),
        xs[0] == m.pad + node_w / 2,
        card_width_ok(d.participants@, m, node_w),
        node_h >= head::MIN_H,
        forall|i: int|
            0 <= i < d.participants@.len() ==> node_h >= head_height_of(#[trigger] d.participants@[i], m.text, node_w),
        node_h == head::MIN_H || exists|i: int|
            0 <= i < d.participants@.len() && node_h == head_height_of(#[trigger] d.participants@[i], m.text, node_w),
        forall|i: int|
            0 <= i < xs.len() ==> {
                let q = #[trigger] out.participants@[i];
                &&& q.id@ == d.participants@[i].id@
                &&& q.label@ == d.participants@[i].label@
                &&& q.kind@ == d.participants@[i].kind@
                &&& q.parent_path == d.participants@[i].parent_path
                &&& string_lines(q.summary_lines@) == summary_lines_of(d.participants@[i], m.text, node_w)
                &&& q.card == (Rect { x: (xs[i] - node_w / 2) as i32, y: m.lifeline_top, w: node_w as i32, h: node_h as i32 })
                &&& q.lifeline_x == xs[i]
                &&& q.top == m.lifeline_top + node_h
                &&& q.bottom == body_bottom
            },
        out.height == body_bottom + m.pad,
        out.width == right + m.pad,
        forall|k: int|
            0 <= k < d.participants@.len() - 1 ==> #[trigger] xs[k + 1] - xs[k] == lane(
                m,
                d.participants@,
                flat_items(d.items@),
                k,
                node_w + m.col_gutter,
            ),
        out.messages@.len() == flat_items(d.items@).len(),
        forall|k: int|
            0 <= k < out.messages@.len() ==> {
                &&& same_message(#[trigger] out.messages@[k], flat_items(d.items@)[k])
                &&& placed_at(m, d.participants@, xs, xs[0] - m.frame_pad, out.messages@[k])
                &&& step_ok(out.messages@, k)
                &&& m.lifeline_top + node_h + m.msg_gap <= out.messages@[k].y <= body_bottom
            },
        metrics_spaced(m) ==> forall|k1: int, k2: int|
            0 <= k1 < k2 < out.messages@.len() ==> #[trigger] out.messages@[k1].y
                < #[trigger] out.messages@[k2].y,
        metrics_spaced(m) ==> forall|f: int|
            0 <= f < out.fragments@.len() ==> fragment_ok(#[trigger] out.fragments@[f]),
        right >= xs[xs.len() - 1] + node_w / 2,
        forall|f: int|
            0 <= f < out.fragments@.len() ==> right >= (#[trigger] out.fragments@[f]).rect.x
                + out.fragments@[f].rect.w,
        forall|k: int|
            0 <= k < out.messages@.len() && (#[trigger] out.messages@[k]).kind == MsgKind::SelfMsg ==> right
                >= out.messages@[k].from_x + m.self_offset + label_width_of(m.text, out.messages@[k].label@.len()),
        right == xs[xs.len() - 1] + node_w / 2 || (exists|f: int|
            0 <= f < out.fragments@.len() && right == (#[trigger] out.fragments@[f]).rect.x
                + out.fragments@[f].rect.w) || (exists|k: int|
            0 <= k < out.messages@.len() && (#[trigger] out.messages@[k]).kind == MsgKind::SelfMsg && right
                == out.messages@[k].from_x + m.self_offset + label_width_of(
                m.text,
                out.messages@[k].label@.len(),
            )),
    ensures
        heads_placed(out, d, m),
        columns_placed(out, d, m),
        messages_placed(out, d, m),
        canvas_sized(out, m),
        self_labels_fit(out, m),
        metrics_spaced(m) ==> spaced_layout(out),
{
    reveal(heads_placed);
    reveal(columns_placed);
    reveal(messages_placed);
    reveal(canvas_sized);
    reveal(self_labels_fit);
    reveal(spaced_layout);
    assert(out.participants@[0].card.w == node_w && out.participants@[0].card.h == node_h);
}

/// The sequence projection engine.
#[derive(Debug, Clone, Copy, Default)]
pub struct Sequence;

impl Projection for Sequence {
    type Input = Diagram;
    type Metrics = Metrics;
    type Output = Layout;

    open spec fn accepts(input: &Diagram, metrics: &Metrics) -> bool {
        sequence_fits(*input, *metrics)
    }

    fn layout(input: &Diagram, metrics: &Metrics) -> (out: Layout) {
        self::layout(input, metrics)
    }
}

} // verus!
