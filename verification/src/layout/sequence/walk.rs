//! The vertical walk: a `y` cursor advancing down the items, emitting
//! messages, growing fragment boxes around their sections and recording each
//! participant's activation span.

use crate::layout::diagram::{
    FragKind,     Fragment, Item, Message, MsgKind, Participant, Section, flat_item, flat_items, flat_sections,
    weight_item, weight_items, weight_sections,
};
use crate::layout::geom::{Bounds, Rect, fits_i32, grown};
use crate::layout::placed::{Divider, PlacedFragment, PlacedMessage};
use crate::layout::sequence::{
    Metrics, col_of, find_col, lemma_col_of, lemma_flat_prefix, lemma_flat_sections_prefix,
    lemma_flat_sections_step, lemma_flat_step, metrics_bounded, metrics_spaced, span_hi, span_lo,
};
use crate::strs::str_eq;
use vstd::prelude::*;

verus! {

/// The highest `y` the walk may reach.
pub open spec fn y_cap() -> int {
    1_200_000_000
}

/// The most `y` one unit of item weight may advance the cursor.
pub open spec fn y_per_weight() -> int {
    16384
}

/// The highest lifeline `x` of a bounded diagram.
pub open spec fn x_cap() -> int {
    1_740_000_000
}

/// The lifeline x of `id`, if a participant carries it.
pub open spec fn x_at(ps: Seq<Participant>, xs: Seq<i32>, id: Seq<char>) -> Option<int> {
    match col_of(ps, id) {
        Some(c) => Some(xs[c] as int),
        None => None,
    }
}

/// The arrow of `pm`: a self-message sits on its sender's lifeline (or the
/// left edge when unresolved); a call or return runs from the sender's
/// lifeline to the target's (or a return stub left of the sender), each end
/// pulled in by half an activation bar.
pub open spec fn placed_at(m: Metrics, ps: Seq<Participant>, xs: Seq<i32>, min_x: int, pm: PlacedMessage) -> bool {
    let fx = match x_at(ps, xs, pm.from@) {
        Some(x) => x,
        None => min_x,
    };
    if pm.kind == MsgKind::SelfMsg {
        pm.from_x == fx && pm.to_x == fx && pm.dir == 1
    } else {
        let tx = match x_at(ps, xs, pm.to@) {
            Some(x) => x,
            None => fx - m.ret_stub,
        };
        let dir: int = if tx >= fx { 1 } else { -1 };
        pm.dir == dir && pm.from_x == fx + dir * (m.act_w / 2) && pm.to_x == tx - dir * (m.act_w / 2)
    }
}

/// Whether `pm` involves lifeline `id`: its sender, or the target of a call
/// or return.
pub open spec fn notes(pm: PlacedMessage, id: Seq<char>) -> bool {
    pm.from@ == id || (pm.kind != MsgKind::SelfMsg && pm.to@ == id)
}

/// How many of the first `n` placed messages are calls or self-messages.
pub open spec fn numbered(ms: Seq<PlacedMessage>, n: int) -> nat
    decreases n,
{
    if n <= 0 {
        0
    } else {
        numbered(ms, n - 1) + if ms[n - 1].kind == MsgKind::Return {
            0nat
        } else {
            1nat
        }
    }
}

/// Message `k` carries its reading-order step: the count of calls and
/// self-messages up to it, none for a return.
pub open spec fn step_ok(ms: Seq<PlacedMessage>, k: int) -> bool {
    ms[k].step == if ms[k].kind == MsgKind::Return {
        None::<u32>
    } else {
        Some(numbered(ms, k + 1) as u32)
    }
}

/// `pm` carries the kind, ids and texts of `msg`.
pub open spec fn same_message(pm: PlacedMessage, msg: Message) -> bool {
    &&& pm.kind == msg.kind
    &&& pm.from@ == msg.from@
    &&& pm.to@ == msg.to@
    &&& pm.label@ == msg.label@
    &&& pm.detail@ == msg.detail@
}

/// A fragment box's right and bottom edges are representable.
pub open spec fn fragment_fits(f: PlacedFragment) -> bool {
    fits_i32(f.rect.x + f.rect.w) && fits_i32(f.rect.y + f.rect.h) && f.rect.x + f.rect.w
        <= x_cap() + 20_000
}

/// A fragment box is non-empty and its dividers lie strictly inside it, top
/// to bottom.
pub open spec fn fragment_ok(f: PlacedFragment) -> bool {
    &&& f.rect.w > 0
    &&& f.rect.h > 0
    &&& forall|i: int|
        0 <= i < f.dividers@.len() ==> f.rect.y < #[trigger] f.dividers@[i].y < f.rect.y + f.rect.h
    &&& forall|i: int, j: int|
        0 <= i < j < f.dividers@.len() ==> #[trigger] f.dividers@[i].y < #[trigger] f.dividers@[j].y
}

/// `s` widened to include `y`.
pub open spec fn widen(s: Option<(i32, i32)>, y: i32) -> Option<(i32, i32)> {
    match s {
        None => Some((y, y)),
        Some((lo, hi)) => Some((if y < lo { y } else { lo }, if y > hi { y } else { hi })),
    }
}

/// Mutable state threaded through the vertical walk.
pub struct Walk<'a> {
    pub m: Metrics,
    pub ps: &'a Vec<Participant>,
    pub xs: &'a Vec<i32>,
    pub min_x: i32,
    pub max_x: i32,
    pub messages: Vec<PlacedMessage>,
    pub fragments: Vec<PlacedFragment>,
    /// Per participant: the lowest and highest `y` its id was involved at.
    pub spans: Vec<Option<(i32, i32)>>,
    pub y: i32,
    pub step: u32,
    /// Where the walk started.
    pub y0: Ghost<int>,
}

impl<'a> Walk<'a> {
    /// The walk's context is consistent and every emitted message, span and
    /// fragment obeys the engine's geometry.
    pub closed spec fn inv(&self) -> bool {
        let ps = self.ps@;
        let xs = self.xs@;
        let ms = self.messages@;
        &&& metrics_bounded(self.m)
        &&& 1 <= ps.len() <= 1024
        &&& xs.len() == ps.len()
        &&& self.spans@.len() == ps.len()
        &&& forall|i: int|
            0 <= i < xs.len() ==> 0 <= #[trigger] xs[i] <= x_cap() && self.min_x + self.m.frame_pad
                <= xs[i] && xs[i] + self.m.frame_pad + self.m.ret_stub <= self.max_x
        &&& -4096 <= self.min_x <= self.max_x <= x_cap() + 8192
        &&& 0 <= self.y0@ <= self.y <= y_cap()
        &&& ms.len() <= 65536
        &&& self.step == numbered(ms, ms.len() as int)
        &&& forall|k: int|
            0 <= k < ms.len() ==> placed_at(self.m, ps, xs, self.min_x as int, #[trigger] ms[k])
                && self.y0@ <= ms[k].y <= self.y && step_ok(ms, k)
        &&& metrics_spaced(self.m) ==> forall|k: int|
            0 <= k < ms.len() ==> #[trigger] ms[k].y < self.y
        &&& metrics_spaced(self.m) ==> forall|k1: int, k2: int|
            0 <= k1 < k2 < ms.len() ==> #[trigger] ms[k1].y < #[trigger] ms[k2].y
        &&& forall|j: int|
            0 <= j < ps.len() ==> (#[trigger] self.spans@[j] matches Some((lo, hi)) ==> self.y0@ <= lo
                <= hi <= self.y)
        &&& forall|k: int, j: int|
            0 <= k < ms.len() && 0 <= j < ps.len() && notes(#[trigger] ms[k], ps[j].id@) ==> (
            #[trigger] self.spans@[j] matches Some((lo, hi)) && lo <= ms[k].y <= hi)
        &&& forall|f: int|
            0 <= f < self.fragments@.len() ==> fragment_fits(#[trigger] self.fragments@[f]) && (
            metrics_spaced(self.m) ==> fragment_ok(self.fragments@[f]))
    }

    /// `self` keeps the context of `o` and extends its outputs.
    pub closed spec fn extends(&self, o: Walk<'a>) -> bool {
        &&& self.m == o.m
        &&& self.ps == o.ps
        &&& self.xs == o.xs
        &&& self.min_x == o.min_x
        &&& self.max_x == o.max_x
        &&& self.y0 == o.y0
        &&& o.y <= self.y
        &&& o.messages@.len() <= self.messages@.len()
        &&& self.messages@.subrange(0, o.messages@.len() as int) == o.messages@
        &&& o.fragments@.len() <= self.fragments@.len()
        &&& self.fragments@.subrange(0, o.fragments@.len() as int) == o.fragments@
    }

    /// The lifeline x of `id`.
    pub fn x_of(&self, id: &str) -> (r: Option<i32>)
        requires
            self.inv(),
        ensures
            r matches Some(x) ==> x_at(self.ps@, self.xs@, id@) == Some(x as int) && 0 <= x <= x_cap(),
            r is None ==> x_at(self.ps@, self.xs@, id@) is None,
    {
        match find_col(self.ps, id) {
            Some(c) => {
                proof {
                    lemma_col_of(self.ps@, id@);
                }
                Some(self.xs[c])
            },
            None => None,
        }
    }

    /// Records that lifeline `id` is involved at `y`, growing its span.
    pub fn note(&mut self, id: &str, y: i32)
        requires
            old(self).spans@.len() == old(self).ps@.len(),
        ensures
            final(self).spans@.len() == old(self).spans@.len(),
            forall|j: int|
                0 <= j < old(self).spans@.len() ==> #[trigger] final(self).spans@[j] == if old(
                    self,
                ).ps@[j].id@ == id@ {
                    widen(old(self).spans@[j], y)
                } else {
                    old(self).spans@[j]
                },
            final(self).m == old(self).m,
            final(self).ps == old(self).ps,
            final(self).xs == old(self).xs,
            final(self).min_x == old(self).min_x,
            final(self).max_x == old(self).max_x,
            final(self).messages == old(self).messages,
            final(self).fragments == old(self).fragments,
            final(self).y == old(self).y,
            final(self).step == old(self).step,
            final(self).y0 == old(self).y0,
    {
        let ghost s0 = self.spans@;
        let mut j: usize = 0;
        while j < self.ps.len()
            invariant
                j <= self.ps@.len(),
                self.spans@.len() == s0.len(),
                s0.len() == self.ps@.len(),
                self.m == old(self).m,
                self.ps == old(self).ps,
                self.xs == old(self).xs,
                self.min_x == old(self).min_x,
                self.max_x == old(self).max_x,
                self.messages == old(self).messages,
                self.fragments == old(self).fragments,
                self.y == old(self).y,
                self.step == old(self).step,
                self.y0 == old(self).y0,
                s0 == old(self).spans@,
                forall|i: int|
                    0 <= i < s0.len() ==> #[trigger] self.spans@[i] == if i < j && self.ps@[i].id@
                        == id@ {
                        widen(s0[i], y)
                    } else {
                        s0[i]
                    },
            decreases self.ps@.len() - j,
        {
            if str_eq(self.ps[j].id.as_str(), id) {
                let next = match self.spans[j] {
                    None => (y, y),
                    Some((lo, hi)) => (if y < lo { y } else { lo }, if y > hi { y } else { hi }),
                };
                self.spans.set(j, Some(next));
            }
            j = j + 1;
        }
    }
}

impl<'a> Walk<'a> {
    /// Places one message at the cursor and advances it: a self-message by
    /// its row and loop, a call or return by one row. Calls and
    /// self-messages take the next step number.
    pub fn message(&mut self, msg: &Message)
        requires
            old(self).inv(),
            old(self).y + y_per_weight() <= y_cap(),
            old(self).messages@.len() + 1 <= 65536,
        ensures
            final(self).inv(),
            final(self).extends(*old(self)),
            final(self).messages@.len() == old(self).messages@.len() + 1,
            same_message(final(self).messages@[old(self).messages@.len() as int], *msg),
            final(self).messages@[old(self).messages@.len() as int].y == old(self).y,
            final(self).fragments == old(self).fragments,
            final(self).y <= old(self).y + y_per_weight(),
            final(self).y == old(self).y + row_advance(old(self).m, msg.kind),
            final(self).m == old(self).m,
    {
        let m = self.m;
        let from_x = match self.x_of(msg.from.as_str()) {
            Some(x) => x,
            None => self.min_x,
        };
        let y = self.y;
        let ghost before = *self;
        let ghost ms0 = self.messages@;
        proof {
            lemma_numbered_le(ms0, ms0.len() as int);
        }
        let pm = match msg.kind {
            MsgKind::SelfMsg => {
                self.step = self.step + 1;
                self.note(msg.from.as_str(), y);
                PlacedMessage {
                    kind: MsgKind::SelfMsg,
                    from: msg.from.clone(),
                    to: msg.to.clone(),
                    from_x,
                    to_x: from_x,
                    y,
                    dir: 1,
                    step: Some(self.step),
                    label: msg.label.clone(),
                    detail: msg.detail.clone(),
                }
            },
            _ => {
                let to_x = match self.x_of(msg.to.as_str()) {
                    Some(x) => x,
                    None => from_x - m.ret_stub,
                };
                let dir: i32 = if to_x >= from_x { 1 } else { -1 };
                let step = if msg.kind == MsgKind::Call {
                    self.step = self.step + 1;
                    Some(self.step)
                } else {
                    None
                };
                self.note(msg.from.as_str(), y);
                self.note(msg.to.as_str(), y);
                PlacedMessage {
                    kind: msg.kind,
                    from: msg.from.clone(),
                    to: msg.to.clone(),
                    from_x: from_x + dir * (m.act_w / 2),
                    to_x: to_x - dir * (m.act_w / 2),
                    y,
                    dir,
                    step,
                    label: msg.label.clone(),
                    detail: msg.detail.clone(),
                }
            },
        };
        self.messages.push(pm);
        let advance = if msg.kind == MsgKind::SelfMsg { m.msg_gap + m.self_extra } else { m.msg_gap };
        self.y = self.y + advance;
        proof {
            let ms = self.messages@;
            assert(ms.drop_last() =~= ms0);
            assert(ms.subrange(0, ms0.len() as int) =~= ms0);
            assert(self.fragments@.subrange(0, self.fragments@.len() as int) =~= self.fragments@);
            lemma_numbered_push(ms0, pm, ms0.len() as int);
            assert forall|k: int| 0 <= k < ms.len() implies step_ok(ms, k) by {
                if k < ms0.len() {
                    lemma_numbered_push(ms0, pm, k + 1);
                    assert(step_ok(ms0, k));
                }
            }
            assert forall|k: int, j: int|
                0 <= k < ms.len() && 0 <= j < self.ps@.len() && notes(#[trigger] ms[k], self.ps@[j].id@)
                implies (#[trigger] self.spans@[j] matches Some((lo, hi)) && lo <= ms[k].y <= hi) by {
                if k < ms0.len() {
                    assert(ms[k] == ms0[k]);
                    assert(before.spans@[j] matches Some((lo, hi)) && lo <= ms0[k].y <= hi);
                }
            }
        }
    }
}

/// The extent of a bounds box built from lifeline positions stays within
/// the diagram's horizontal range, on the `y = 0` line.
pub open spec fn box_ok(b: Option<(i32, i32, i32, i32)>) -> bool {
    b matches Some((a, b0, c, d)) ==> -12288 <= a <= x_cap() + 8192 && -12288 <= c <= x_cap() + 8192
        && b0 == 0 && d == 0
}

/// The lifeline x positions an item's messages touch, in order: a
/// message's sender, then its self-loop offset, its target, or (for a
/// return to a non-participant) a stub left of the sender; a fragment's
/// sections in turn.
pub open spec fn item_xs(m: Metrics, ps: Seq<Participant>, xs: Seq<i32>, it: Item) -> Seq<i32>
    decreases it,
{
    match it {
        Item::Message(msg) => match x_at(ps, xs, msg.from@) {
            None => seq![],
            Some(fx) => seq![fx as i32] + if msg.kind == MsgKind::SelfMsg {
                seq![(fx + m.self_offset) as i32]
            } else {
                match x_at(ps, xs, msg.to@) {
                    Some(tx) => seq![tx as i32],
                    None => seq![(fx - m.ret_stub) as i32],
                }
            },
        },
        Item::Fragment(frag) => sections_xs(m, ps, xs, frag.sections@),
    }
}

/// The x positions items touch, in order.
pub open spec fn items_xs(m: Metrics, ps: Seq<Participant>, xs: Seq<i32>, items: Seq<Item>) -> Seq<i32>
    decreases items,
{
    if items.len() == 0 {
        seq![]
    } else {
        items_xs(m, ps, xs, items.subrange(0, items.len() - 1)) + item_xs(m, ps, xs, items[items.len() - 1])
    }
}

/// The x positions the sections' bodies touch, in order.
pub open spec fn sections_xs(m: Metrics, ps: Seq<Participant>, xs: Seq<i32>, secs: Seq<Section>) -> Seq<i32>
    decreases secs,
{
    if secs.len() == 0 {
        seq![]
    } else {
        sections_xs(m, ps, xs, secs.subrange(0, secs.len() - 1)) + items_xs(m, ps, xs, secs[secs.len() - 1].body@)
    }
}

/// An extent grown over the points `(x, 0)` for each `x` of `pts`, in order.
pub open spec fn grown_over(e: Option<(i32, i32, i32, i32)>, pts: Seq<i32>) -> Option<(i32, i32, i32, i32)>
    decreases pts.len(),
{
    if pts.len() == 0 {
        e
    } else {
        grown(grown_over(e, pts.drop_last()), pts.last(), 0)
    }
}

/// Growing over two runs of points is growing over the first, then the
/// second.
pub proof fn lemma_grown_over_concat(e: Option<(i32, i32, i32, i32)>, a: Seq<i32>, b: Seq<i32>)
    ensures
        grown_over(e, a + b) == grown_over(grown_over(e, a), b),
    decreases b.len(),
{
    if b.len() == 0 {
        assert(a + b =~= a);
    } else {
        assert((a + b).drop_last() =~= a + b.drop_last());
        assert((a + b).last() == b.last());
        lemma_grown_over_concat(e, a, b.drop_last());
    }
}

/// How far the cursor advances past a message: one row, plus the loop of a
/// self-message.
pub open spec fn row_advance(m: Metrics, kind: MsgKind) -> int {
    if kind == MsgKind::SelfMsg {
        m.msg_gap + m.self_extra
    } else {
        m.msg_gap as int
    }
}

/// How far the cursor advances over an item: a message's row, or a
/// fragment's operator band, sections (a divider before each but the
/// first), foot and trailing gap.
pub open spec fn item_h(m: Metrics, it: Item) -> int
    decreases it,
{
    match it {
        Item::Message(msg) => row_advance(m, msg.kind),
        Item::Fragment(f) => m.frame_head + secs_h(m, f.sections@) + m.frame_foot + m.frame_gap,
    }
}

/// How far the cursor advances over items.
pub open spec fn items_h(m: Metrics, items: Seq<Item>) -> int
    decreases items,
{
    if items.len() == 0 {
        0
    } else {
        items_h(m, items.subrange(0, items.len() - 1)) + item_h(m, items[items.len() - 1])
    }
}

/// The divider band before a section that is not the first.
pub open spec fn divider_h(m: Metrics, n_before: int) -> int {
    if n_before > 0 {
        m.else_pad + m.else_head
    } else {
        0
    }
}

/// How far the cursor advances over a fragment's sections.
pub open spec fn secs_h(m: Metrics, secs: Seq<Section>) -> int
    decreases secs,
{
    if secs.len() == 0 {
        0
    } else {
        secs_h(m, secs.subrange(0, secs.len() - 1)) + divider_h(m, secs.len() - 1) + items_h(
            m,
            secs[secs.len() - 1].body@,
        )
    }
}

/// The rows of an item's messages, in order, the item starting at `y`.
pub open spec fn item_ys(m: Metrics, y: int, it: Item) -> Seq<int>
    decreases it,
{
    match it {
        Item::Message(_) => seq![y],
        Item::Fragment(f) => secs_ys(m, y + m.frame_head, f.sections@),
    }
}

/// The rows of items' messages, in order, the items starting at `y`.
pub open spec fn items_ys(m: Metrics, y: int, items: Seq<Item>) -> Seq<int>
    decreases items,
{
    if items.len() == 0 {
        seq![]
    } else {
        let pre = items.subrange(0, items.len() - 1);
        items_ys(m, y, pre) + item_ys(m, y + items_h(m, pre), items[items.len() - 1])
    }
}

/// The rows of sections' messages, in order, the sections starting at `y`.
pub open spec fn secs_ys(m: Metrics, y: int, secs: Seq<Section>) -> Seq<int>
    decreases secs,
{
    if secs.len() == 0 {
        seq![]
    } else {
        let pre = secs.subrange(0, secs.len() - 1);
        secs_ys(m, y, pre) + items_ys(m, y + secs_h(m, pre) + divider_h(m, pre.len() as int), secs[secs.len() - 1].body@)
    }
}

/// The rows and advance of a prefix grow by those of the next item.
pub proof fn lemma_ys_step(m: Metrics, y: int, items: Seq<Item>, n: int)
    requires
        1 <= n <= items.len(),
    ensures
        items_ys(m, y, items.subrange(0, n)) == items_ys(m, y, items.subrange(0, n - 1)) + item_ys(
            m,
            y + items_h(m, items.subrange(0, n - 1)),
            items[n - 1],
        ),
        items_h(m, items.subrange(0, n)) == items_h(m, items.subrange(0, n - 1)) + item_h(m, items[n - 1]),
{
    let s = items.subrange(0, n);
    assert(s.subrange(0, s.len() - 1) =~= items.subrange(0, n - 1));
    assert(s[s.len() - 1] == items[n - 1]);
}

/// The rows and advance of a prefix of sections grow by those of the next
/// section.
pub proof fn lemma_secs_ys_step(m: Metrics, y: int, secs: Seq<Section>, n: int)
    requires
        1 <= n <= secs.len(),
    ensures
        secs_ys(m, y, secs.subrange(0, n)) == secs_ys(m, y, secs.subrange(0, n - 1)) + items_ys(
            m,
            y + secs_h(m, secs.subrange(0, n - 1)) + divider_h(m, n - 1),
            secs[n - 1].body@,
        ),
        secs_h(m, secs.subrange(0, n)) == secs_h(m, secs.subrange(0, n - 1)) + divider_h(m, n - 1) + items_h(
            m,
            secs[n - 1].body@,
        ),
{
    let s = secs.subrange(0, n);
    assert(s.subrange(0, s.len() - 1) =~= secs.subrange(0, n - 1));
    assert(s[s.len() - 1] == secs[n - 1]);
}

/// There is one row per message.
pub proof fn lemma_ys_len(m: Metrics, y: int, items: Seq<Item>)
    ensures
        items_ys(m, y, items).len() == flat_items(items).len(),
    decreases items,
{
    if items.len() > 0 {
        let pre = items.subrange(0, items.len() - 1);
        lemma_ys_len(m, y, pre);
        lemma_item_ys_len(m, y + items_h(m, pre), items[items.len() - 1]);
    }
}

/// There is one row per message of an item.
pub proof fn lemma_item_ys_len(m: Metrics, y: int, it: Item)
    ensures
        item_ys(m, y, it).len() == flat_item(it).len(),
    decreases it,
{
    match it {
        Item::Message(_) => {},
        Item::Fragment(f) => {
            lemma_secs_ys_len(m, y + m.frame_head, f.sections@);
        },
    }
}

/// There is one row per message of the sections.
pub proof fn lemma_secs_ys_len(m: Metrics, y: int, secs: Seq<Section>)
    ensures
        secs_ys(m, y, secs).len() == flat_sections(secs).len(),
    decreases secs,
{
    if secs.len() > 0 {
        let pre = secs.subrange(0, secs.len() - 1);
        lemma_secs_ys_len(m, y, pre);
        lemma_ys_len(m, y + secs_h(m, pre) + divider_h(m, pre.len() as int), secs[secs.len() - 1].body@);
    }
}

/// A placed fragment as plain values: operator, box, tab label, and each
/// divider's row and guard.
pub type FragView = (FragKind, (int, int, int, int), Seq<char>, Seq<(int, Seq<char>)>);

/// The plain view of a placed fragment.
pub open spec fn frag_view(f: PlacedFragment) -> FragView {
    (
        f.kind,
        (f.rect.x as int, f.rect.y as int, f.rect.w as int, f.rect.h as int),
        f.label@,
        f.dividers@.map_values(|d: Divider| (d.y as int, d.guard@)),
    )
}

/// The plain views of placed fragments.
pub open spec fn frag_views(fs: Seq<PlacedFragment>) -> Seq<FragView> {
    fs.map_values(|f: PlacedFragment| frag_view(f))
}

/// The horizontal extent of a fragment's sections: the lifelines their
/// messages touch, or the whole walk width when they touch none.
pub open spec fn extent_of(m: Metrics, ps: Seq<Participant>, xs: Seq<i32>, mn: int, mx: int, secs: Seq<Section>) -> (int, int) {
    match grown_over(None, sections_xs(m, ps, xs, secs)) {
        None => (mn, mx),
        Some((a, _, c, _)) => (a as int, c as int),
    }
}


/// The dividers of a fragment whose sections start at `y0`: one before each
/// section but the first, an `else` pad below the sections above it,
/// carrying that section's guard (or `else`).
pub open spec fn dividers_of(m: Metrics, y0: int, secs: Seq<Section>) -> Seq<(int, Seq<char>)> {
    Seq::new(
        if secs.len() > 0 { (secs.len() - 1) as nat } else { 0 },
        |d: int| (y0 + secs_h(m, secs.subrange(0, d + 1)) + m.else_pad, divider_guard(secs[d + 1].guard@)),
    )
}

/// The placed fragment of `f` walked from `y`: its box spans the touched
/// lifelines padded by the frame pad, from `y` through its foot band.
pub open spec fn frag_of(m: Metrics, ps: Seq<Participant>, xs: Seq<i32>, mn: int, mx: int, y: int, f: Fragment) -> FragView {
    let e = extent_of(m, ps, xs, mn, mx, f.sections@);
    (
        f.kind,
        (e.0 - m.frame_pad, y, e.1 - e.0 + 2 * m.frame_pad, m.frame_head + secs_h(m, f.sections@) + m.frame_foot),
        if f.sections@.len() > 0 { f.sections@[0].guard@ } else { seq![] },
        dividers_of(m, y + m.frame_head, f.sections@),
    )
}

/// The fragments an item places, walked from `y`: nested ones first, then
/// its own.
pub open spec fn item_frags(m: Metrics, ps: Seq<Participant>, xs: Seq<i32>, mn: int, mx: int, y: int, it: Item) -> Seq<FragView>
    decreases it,
{
    match it {
        Item::Message(_) => seq![],
        Item::Fragment(f) => secs_frags(m, ps, xs, mn, mx, y + m.frame_head, f.sections@) + seq![
            frag_of(m, ps, xs, mn, mx, y, f),
        ],
    }
}

/// The fragments items place, in the order they are completed.
pub open spec fn items_frags(m: Metrics, ps: Seq<Participant>, xs: Seq<i32>, mn: int, mx: int, y: int, items: Seq<Item>) -> Seq<FragView>
    decreases items,
{
    if items.len() == 0 {
        seq![]
    } else {
        let pre = items.subrange(0, items.len() - 1);
        items_frags(m, ps, xs, mn, mx, y, pre) + item_frags(m, ps, xs, mn, mx, y + items_h(m, pre), items[items.len() - 1])
    }
}

/// The fragments sections place, in the order they are completed.
pub open spec fn secs_frags(m: Metrics, ps: Seq<Participant>, xs: Seq<i32>, mn: int, mx: int, y: int, secs: Seq<Section>) -> Seq<FragView>
    decreases secs,
{
    if secs.len() == 0 {
        seq![]
    } else {
        let pre = secs.subrange(0, secs.len() - 1);
        secs_frags(m, ps, xs, mn, mx, y, pre) + items_frags(
            m,
            ps,
            xs,
            mn,
            mx,
            y + secs_h(m, pre) + divider_h(m, pre.len() as int),
            secs[secs.len() - 1].body@,
        )
    }
}

/// Placed fragments grow by the ones the next item places.
pub proof fn lemma_frags_step(m: Metrics, ps: Seq<Participant>, xs: Seq<i32>, mn: int, mx: int, y: int, items: Seq<Item>, n: int)
    requires
        1 <= n <= items.len(),
    ensures
        items_frags(m, ps, xs, mn, mx, y, items.subrange(0, n)) == items_frags(m, ps, xs, mn, mx, y, items.subrange(0, n - 1))
            + item_frags(m, ps, xs, mn, mx, y + items_h(m, items.subrange(0, n - 1)), items[n - 1]),
{
    let s = items.subrange(0, n);
    assert(s.subrange(0, s.len() - 1) =~= items.subrange(0, n - 1));
    assert(s[s.len() - 1] == items[n - 1]);
}

/// Placed fragments of sections grow by those of the next section.
pub proof fn lemma_secs_frags_step(m: Metrics, ps: Seq<Participant>, xs: Seq<i32>, mn: int, mx: int, y: int, secs: Seq<Section>, n: int)
    requires
        1 <= n <= secs.len(),
    ensures
        secs_frags(m, ps, xs, mn, mx, y, secs.subrange(0, n)) == secs_frags(m, ps, xs, mn, mx, y, secs.subrange(0, n - 1))
            + items_frags(m, ps, xs, mn, mx, y + secs_h(m, secs.subrange(0, n - 1)) + divider_h(m, n - 1), secs[n - 1].body@),
{
    let s = secs.subrange(0, n);
    assert(s.subrange(0, s.len() - 1) =~= secs.subrange(0, n - 1));
    assert(s[s.len() - 1] == secs[n - 1]);
}

/// Concatenation of sequences is associative.
pub proof fn lemma_seq_add_assoc<A>(a: Seq<A>, b: Seq<A>, c: Seq<A>)
    ensures
        (a + b) + c == a + (b + c),
{
    assert((a + b) + c =~= a + (b + c));
}

/// The guard drawn beside a divider: the section's guard, or `else`.
pub open spec fn divider_guard(guard: Seq<char>) -> Seq<char> {
    if guard.len() == 0 {
        seq!['e', 'l', 's', 'e']
    } else {
        guard
    }
}

impl<'a> Walk<'a> {
    /// Grows `bounds` over the lifelines the messages of `items` touch,
    /// recursing into nested fragments. A return to a non-participant reaches
    /// a left stub.
    pub fn collect_extent(&self, items: &Vec<Item>, bounds: &mut Bounds)
        requires
            self.inv(),
            box_ok(old(bounds)@),
        ensures
            box_ok(final(bounds)@),
            final(bounds)@ == grown_over(old(bounds)@, items_xs(self.m, self.ps@, self.xs@, items@)),
        decreases items,
    {
        let ghost b0 = bounds@;
        let mut i: usize = 0;
        assert(items@.subrange(0, 0) =~= seq![]);
        while i < items.len()
            invariant
                self.inv(),
                box_ok(bounds@),
                i <= items@.len(),
                bounds@ == grown_over(b0, items_xs(self.m, self.ps@, self.xs@, items@.subrange(0, i as int))),
            decreases items@.len() - i,
        {
            let ghost bp = bounds@;
            let ghost it = items@[i as int];
            proof {
                let t = items@.subrange(0, i + 1);
                assert(t.subrange(0, t.len() - 1) =~= items@.subrange(0, i as int));
                assert(t[t.len() - 1] == it);
            }
            match &items[i] {
                Item::Message(msg) => {
                    match self.x_of(msg.from.as_str()) {
                        None => {
                            assert(item_xs(self.m, self.ps@, self.xs@, it) =~= seq![]);
                        },
                        Some(from_x) => {
                            bounds.add_point(from_x, 0);
                            let second: i32 = if msg.kind == MsgKind::SelfMsg {
                                from_x + self.m.self_offset
                            } else {
                                match self.x_of(msg.to.as_str()) {
                                    Some(x) => x,
                                    None => from_x - self.m.ret_stub,
                                }
                            };
                            bounds.add_point(second, 0);
                            proof {
                                let pts = item_xs(self.m, self.ps@, self.xs@, it);
                                assert(pts =~= seq![from_x, second]);
                                assert(pts.drop_last() =~= seq![from_x]);
                                assert(pts.drop_last().drop_last() =~= seq![]);
                                assert(grown_over(bp, pts.drop_last().drop_last()) == bp);
                                assert(grown_over(bp, pts.drop_last()) == grown(bp, from_x, 0));
                                assert(grown_over(bp, pts) == grown(grown(bp, from_x, 0), second, 0));
                                assert(bounds@ == grown_over(bp, pts));
                            }
                        },
                    }
                },
                Item::Fragment(frag) => {
                    let mut s: usize = 0;
                    let ghost secs = frag.sections@;
                    assert(secs.subrange(0, 0) =~= seq![]);
                    while s < frag.sections.len()
                        invariant
                            self.inv(),
                            box_ok(bounds@),
                            s <= frag.sections@.len(),
                            secs == frag.sections@,
                            i < items@.len(),
                            items@[i as int] == Item::Fragment(*frag),
                            bounds@ == grown_over(bp, sections_xs(self.m, self.ps@, self.xs@, secs.subrange(0, s as int))),
                        decreases frag.sections@.len() - s,
                    {
                        proof {
                            let it = items@[i as int];
                            assert(decreases_to!(*items => items@));
                            assert(decreases_to!(items@ => it));
                            assert(decreases_to!(it => it->Fragment_0));
                            assert(decreases_to!(*frag => frag.sections));
                            assert(decreases_to!(frag.sections => frag.sections@));
                            assert(decreases_to!(frag.sections@ => frag.sections@[s as int]));
                            assert(decreases_to!(frag.sections@[s as int] => frag.sections@[s as int].body));
                            let t = secs.subrange(0, s + 1);
                            assert(t.subrange(0, t.len() - 1) =~= secs.subrange(0, s as int));
                        }
                        let ghost bs = bounds@;
                        self.collect_extent(&frag.sections[s].body, bounds);
                        proof {
                            lemma_grown_over_concat(
                                bp,
                                sections_xs(self.m, self.ps@, self.xs@, secs.subrange(0, s as int)),
                                items_xs(self.m, self.ps@, self.xs@, secs[s as int].body@),
                            );
                        }
                        s = s + 1;
                    }
                    assert(secs.subrange(0, secs.len() as int) =~= secs);
                },
            }
            proof {
                lemma_grown_over_concat(
                    b0,
                    items_xs(self.m, self.ps@, self.xs@, items@.subrange(0, i as int)),
                    item_xs(self.m, self.ps@, self.xs@, it),
                );
            }
            i = i + 1;
        }
        assert(items@.subrange(0, items@.len() as int) =~= items@);
    }

    /// The horizontal extent `(lo, hi)` of the lifelines a fragment's
    /// messages touch; an empty fragment spans the full width.
    pub fn fragment_extent(&self, sections: &Vec<Section>) -> (r: (i32, i32))
        requires
            self.inv(),
        ensures
            r.0 <= r.1,
            -12288 <= r.0,
            r.1 <= x_cap() + 8192,
            r == match grown_over(None, sections_xs(self.m, self.ps@, self.xs@, sections@)) {
                None => (self.min_x, self.max_x),
                Some((a, _, c, _)) => (a, c),
            },
    {
        let mut bounds = Bounds::new();
        let mut s: usize = 0;
        assert(sections@.subrange(0, 0) =~= seq![]);
        while s < sections.len()
            invariant
                self.inv(),
                box_ok(bounds@),
                s <= sections@.len(),
                bounds@ == grown_over(None, sections_xs(self.m, self.ps@, self.xs@, sections@.subrange(0, s as int))),
            decreases sections@.len() - s,
        {
            proof {
                let t = sections@.subrange(0, s + 1);
                assert(t.subrange(0, t.len() - 1) =~= sections@.subrange(0, s as int));
            }
            self.collect_extent(&sections[s].body, &mut bounds);
            proof {
                lemma_grown_over_concat(
                    None,
                    sections_xs(self.m, self.ps@, self.xs@, sections@.subrange(0, s as int)),
                    items_xs(self.m, self.ps@, self.xs@, sections@[s as int].body@),
                );
            }
            s = s + 1;
        }
        assert(sections@.subrange(0, sections@.len() as int) =~= sections@);
        match bounds.rect() {
            None => (self.min_x, self.max_x),
            Some(r) => (r.x, r.right()),
        }
    }
}

/// The weight of a prefix of `items` grows by the weight of the next item
/// and never exceeds the weight of `items`.
pub proof fn lemma_weight_step(items: Seq<Item>, n: int)
    requires
        1 <= n <= items.len(),
    ensures
        weight_items(items.subrange(0, n)) == weight_items(items.subrange(0, n - 1)) + weight_item(
            items[n - 1],
        ),
        weight_items(items.subrange(0, n)) <= weight_items(items),
    decreases items.len() - n,
{
    let s = items.subrange(0, n);
    assert(s.subrange(0, s.len() - 1) =~= items.subrange(0, n - 1));
    assert(s[s.len() - 1] == items[n - 1]);
    if n < items.len() {
        lemma_weight_step(items, n + 1);
    } else {
        assert(items.subrange(0, n) =~= items);
    }
}

/// The sections analogue of [`lemma_weight_step`].
pub proof fn lemma_weight_sections_step(secs: Seq<Section>, n: int)
    requires
        1 <= n <= secs.len(),
    ensures
        weight_sections(secs.subrange(0, n)) == weight_sections(secs.subrange(0, n - 1)) + 1
            + weight_items(secs[n - 1].body@),
        weight_sections(secs.subrange(0, n)) <= weight_sections(secs),
    decreases secs.len() - n,
{
    let s = secs.subrange(0, n);
    assert(s.subrange(0, s.len() - 1) =~= secs.subrange(0, n - 1));
    assert(s[s.len() - 1] == secs[n - 1]);
    if n < secs.len() {
        lemma_weight_sections_step(secs, n + 1);
    } else {
        assert(secs.subrange(0, n) =~= secs);
    }
}

/// Extending is transitive.
pub proof fn lemma_extends_trans<'a>(a: Walk<'a>, b: Walk<'a>, c: Walk<'a>)
    requires
        b.extends(a),
        c.extends(b),
    ensures
        c.extends(a),
{
    assert(c.messages@.subrange(0, a.messages@.len() as int) =~= c.messages@.subrange(
        0,
        b.messages@.len() as int,
    ).subrange(0, a.messages@.len() as int));
    assert(c.fragments@.subrange(0, a.fragments@.len() as int) =~= c.fragments@.subrange(
        0,
        b.fragments@.len() as int,
    ).subrange(0, a.fragments@.len() as int));
}

impl<'a> Walk<'a> {
    /// Walks `items` in order.
    #[verifier::rlimit(80)]
    pub fn items(&mut self, items: &Vec<Item>)
        requires
            old(self).inv(),
            old(self).y + weight_items(items@) * y_per_weight() <= y_cap(),
            old(self).messages@.len() + weight_items(items@) <= 65536,
        ensures
            final(self).inv(),
            final(self).extends(*old(self)),
            final(self).messages@.len() == old(self).messages@.len() + flat_items(items@).len(),
            forall|k: int|
                0 <= k < flat_items(items@).len() ==> same_message(
                    #[trigger] final(self).messages@[old(self).messages@.len() + k],
                    flat_items(items@)[k],
                ),
            final(self).messages@.len() <= old(self).messages@.len() + weight_items(items@),
            final(self).y <= old(self).y + weight_items(items@) * y_per_weight(),
            final(self).y == old(self).y + items_h(old(self).m, items@),
            forall|k: int|
                0 <= k < flat_items(items@).len() ==> (#[trigger] final(self).messages@[old(self).messages@.len()
                    + k]).y == items_ys(old(self).m, old(self).y as int, items@)[k],
            frag_views(final(self).fragments@) == frag_views(old(self).fragments@) + items_frags(
                old(self).m,
                old(self).ps@,
                old(self).xs@,
                old(self).min_x as int,
                old(self).max_x as int,
                old(self).y as int,
                items@,
            ),
        decreases items,
    {
        let ghost start = *self;
        let ghost n0 = self.messages@.len();
        let mut i: usize = 0;
        assert(items@.subrange(0, 0) =~= seq![]);
        assert(self.messages@.subrange(0, n0 as int) =~= self.messages@);
        assert(self.fragments@.subrange(0, self.fragments@.len() as int) =~= self.fragments@);
        while i < items.len()
            invariant
                i <= items@.len(),
                self.inv(),
                self.extends(start),
                n0 == start.messages@.len(),
                start.y + weight_items(items@) * y_per_weight() <= y_cap(),
                n0 + weight_items(items@) <= 65536,
                self.messages@.len() == n0 + flat_items(items@.subrange(0, i as int)).len(),
                forall|k: int|
                    0 <= k < flat_items(items@.subrange(0, i as int)).len() ==> same_message(
                        #[trigger] self.messages@[n0 + k],
                        flat_items(items@.subrange(0, i as int))[k],
                    ),
                self.messages@.len() <= n0 + weight_items(items@.subrange(0, i as int)),
                self.y <= start.y + weight_items(items@.subrange(0, i as int)) * y_per_weight(),
                self.y == start.y + items_h(start.m, items@.subrange(0, i as int)),
                forall|k: int|
                    0 <= k < flat_items(items@.subrange(0, i as int)).len() ==> (#[trigger] self.messages@[n0
                        + k]).y == items_ys(start.m, start.y as int, items@.subrange(0, i as int))[k],
                frag_views(self.fragments@) == frag_views(start.fragments@) + items_frags(
                    start.m,
                    start.ps@,
                    start.xs@,
                    start.min_x as int,
                    start.max_x as int,
                    start.y as int,
                    items@.subrange(0, i as int),
                ),
            decreases items@.len() - i,
        {
            let ghost pre = flat_items(items@.subrange(0, i as int));
            let ghost before = *self;
            let ghost pre_ys = items_ys(start.m, start.y as int, items@.subrange(0, i as int));
            proof {
                lemma_flat_step(items@, i + 1);
                lemma_weight_step(items@, i + 1);
                lemma_ys_step(start.m, start.y as int, items@, i + 1);
                lemma_ys_len(start.m, start.y as int, items@.subrange(0, i as int));
                lemma_item_ys_len(start.m, before.y as int, items@[i as int]);
            }
            match &items[i] {
                Item::Message(msg) => {
                    self.message(msg);
                    assert(flat_item(items@[i as int]) == seq![*msg]);
                    assert forall|k2: int| 0 <= k2 < flat_item(items@[i as int]).len() implies same_message(
                        #[trigger] self.messages@[before.messages@.len() + k2],
                        flat_item(items@[i as int])[k2],
                    ) by {}
                },
                Item::Fragment(frag) => {
                    proof {
                        let it = items@[i as int];
                        assert(decreases_to!(*items => items@));
                        assert(decreases_to!(items@ => it));
                        assert(decreases_to!(it => it->Fragment_0));
                    }
                    self.fragment(frag);
                    assert(flat_item(items@[i as int]) == flat_sections(frag.sections@));
                    assert forall|k2: int| 0 <= k2 < flat_item(items@[i as int]).len() implies same_message(
                        #[trigger] self.messages@[before.messages@.len() + k2],
                        flat_item(items@[i as int])[k2],
                    ) by {}
                },
            }
            proof {
                lemma_frags_step(
                    start.m,
                    start.ps@,
                    start.xs@,
                    start.min_x as int,
                    start.max_x as int,
                    start.y as int,
                    items@,
                    i + 1,
                );
                assert(items@.subrange(0, i + 1).subrange(0, i as int) =~= items@.subrange(0, i as int));
                lemma_seq_add_assoc(
                    frag_views(start.fragments@),
                    items_frags(
                        start.m,
                        start.ps@,
                        start.xs@,
                        start.min_x as int,
                        start.max_x as int,
                        start.y as int,
                        items@.subrange(0, i as int),
                    ),
                    item_frags(
                        start.m,
                        start.ps@,
                        start.xs@,
                        start.min_x as int,
                        start.max_x as int,
                        before.y as int,
                        items@[i as int],
                    ),
                );
                if items@[i as int] is Message {
                    assert(frag_views(self.fragments@) + seq![] =~= frag_views(self.fragments@));
                }
                lemma_extends_trans(start, before, *self);
                let post_ys = items_ys(start.m, start.y as int, items@.subrange(0, i + 1));
                assert forall|k: int| 0 <= k < flat_items(items@.subrange(0, i + 1)).len() implies (
                #[trigger] self.messages@[n0 + k]).y == post_ys[k] by {
                    if k < pre.len() {
                        assert(self.messages@.subrange(0, before.messages@.len() as int)[n0 + k]
                            == before.messages@[n0 + k]);
                    } else {
                        let k2 = k - pre.len();
                        assert(n0 + k == before.messages@.len() + k2);
                        assert(self.messages@[before.messages@.len() + k2].y == item_ys(
                            start.m,
                            before.y as int,
                            items@[i as int],
                        )[k2]);
                    }
                }
                let post = flat_items(items@.subrange(0, i + 1));
                assert forall|k: int| 0 <= k < post.len() implies same_message(
                    #[trigger] self.messages@[n0 + k],
                    post[k],
                ) by {
                    if k < pre.len() {
                        assert(self.messages@.subrange(0, before.messages@.len() as int)[n0 + k]
                            == before.messages@[n0 + k]);
                        assert(same_message(before.messages@[n0 + k], pre[k]));
                    } else {
                        let k2 = k - pre.len();
                        assert(n0 + k == before.messages@.len() + k2);
                        assert(same_message(
                            self.messages@[before.messages@.len() + k2],
                            flat_item(items@[i as int])[k2],
                        ));
                    }
                }
            }
            i = i + 1;
        }
        assert(items@.subrange(0, items@.len() as int) =~= items@);
    }

    /// Walks a fragment: its operator band, each section (a divider between
    /// consecutive ones), its foot padding; then records its box over the
    /// lifelines its messages touch and clears a gap after it.
    #[verifier::rlimit(40)]
    pub fn fragment(&mut self, frag: &Fragment)
        requires
            old(self).inv(),
            old(self).y + (1 + weight_sections(frag.sections@)) * y_per_weight() <= y_cap(),
            old(self).messages@.len() + 1 + weight_sections(frag.sections@) <= 65536,
        ensures
            final(self).inv(),
            final(self).extends(*old(self)),
            final(self).messages@.len() == old(self).messages@.len() + flat_sections(
                frag.sections@,
            ).len(),
            forall|k: int|
                0 <= k < flat_sections(frag.sections@).len() ==> same_message(
                    #[trigger] final(self).messages@[old(self).messages@.len() + k],
                    flat_sections(frag.sections@)[k],
                ),
            final(self).messages@.len() <= old(self).messages@.len() + 1 + weight_sections(
                frag.sections@,
            ),
            final(self).y <= old(self).y + (1 + weight_sections(frag.sections@)) * y_per_weight(),
            final(self).y == old(self).y + item_h(old(self).m, Item::Fragment(*frag)),
            forall|k: int|
                0 <= k < flat_sections(frag.sections@).len() ==> (#[trigger] final(self).messages@[old(
                    self,
                ).messages@.len() + k]).y == secs_ys(
                    old(self).m,
                    old(self).y + old(self).m.frame_head,
                    frag.sections@,
                )[k],
            frag_views(final(self).fragments@) == frag_views(old(self).fragments@) + item_frags(
                old(self).m,
                old(self).ps@,
                old(self).xs@,
                old(self).min_x as int,
                old(self).max_x as int,
                old(self).y as int,
                Item::Fragment(*frag),
            ),
            final(self).fragments@.len() > old(self).fragments@.len(),
            ({
                let f = final(self).fragments@.last();
                &&& f.kind == frag.kind
                &&& f.label@ == if frag.sections@.len() > 0 {
                    frag.sections@[0].guard@
                } else {
                    seq![]
                }
                &&& f.dividers@.len() == if frag.sections@.len() > 0 {
                    frag.sections@.len() - 1
                } else {
                    0
                }
                &&& forall|d: int|
                    0 <= d < f.dividers@.len() ==> #[trigger] f.dividers@[d].guard@ == divider_guard(
                        frag.sections@[d + 1].guard@,
                    )
            }),
        decreases frag,
    {
        let m = self.m;
        let ghost start = *self;
        let ghost n0 = self.messages@.len();
        let ghost secs = frag.sections@;
        let top = self.y;
        self.y = self.y + m.frame_head;
        let label = if frag.sections.len() > 0 {
            frag.sections[0].guard.clone()
        } else {
            String::new()
        };
        let mut dividers: Vec<Divider> = Vec::new();
        let mut idx: usize = 0;
        assert(secs.subrange(0, 0) =~= seq![]);
        assert(self.messages@.subrange(0, n0 as int) =~= self.messages@);
        assert(self.fragments@.subrange(0, self.fragments@.len() as int) =~= self.fragments@);
        while idx < frag.sections.len()
            invariant
                idx <= secs.len(),
                secs == frag.sections@,
                self.inv(),
                self.extends(start),
                self.m == m,
                n0 == start.messages@.len(),
                top == start.y,
                top + (1 + weight_sections(secs)) * y_per_weight() <= y_cap(),
                n0 + 1 + weight_sections(secs) <= 65536,
                self.y >= top + m.frame_head,
                self.messages@.len() == n0 + flat_sections(secs.subrange(0, idx as int)).len(),
                forall|k: int|
                    0 <= k < flat_sections(secs.subrange(0, idx as int)).len() ==> same_message(
                        #[trigger] self.messages@[n0 + k],
                        flat_sections(secs.subrange(0, idx as int))[k],
                    ),
                self.messages@.len() <= n0 + weight_sections(secs.subrange(0, idx as int)),
                self.y <= top + m.frame_head + weight_sections(secs.subrange(0, idx as int))
                    * y_per_weight(),
                m == start.m,
                self.y == top + m.frame_head + secs_h(m, secs.subrange(0, idx as int)),
                forall|k: int|
                    0 <= k < flat_sections(secs.subrange(0, idx as int)).len() ==> (#[trigger] self.messages@[n0
                        + k]).y == secs_ys(m, top + m.frame_head, secs.subrange(0, idx as int))[k],
                dividers@.len() == if idx > 0 { idx - 1 } else { 0 },
                forall|d: int|
                    0 <= d < dividers@.len() ==> #[trigger] dividers@[d].guard@ == divider_guard(
                        secs[d + 1].guard@,
                    ),
                metrics_spaced(m) ==> forall|d: int|
                    0 <= d < dividers@.len() ==> top < #[trigger] dividers@[d].y && dividers@[d].y
                        + m.else_head <= self.y,
                metrics_spaced(m) ==> forall|d1: int, d2: int|
                    0 <= d1 < d2 < dividers@.len() ==> #[trigger] dividers@[d1].y
                        < #[trigger] dividers@[d2].y,
                forall|d: int|
                    0 <= d < dividers@.len() ==> #[trigger] dividers@[d].y == top + m.frame_head + secs_h(
                        m,
                        secs.subrange(0, d + 1),
                    ) + m.else_pad,
                frag_views(self.fragments@) == frag_views(start.fragments@) + secs_frags(
                    m,
                    start.ps@,
                    start.xs@,
                    start.min_x as int,
                    start.max_x as int,
                    top + m.frame_head,
                    secs.subrange(0, idx as int),
                ),
            decreases secs.len() - idx,
        {
            let ghost pre = flat_sections(secs.subrange(0, idx as int));
            let ghost before = *self;
            proof {
                lemma_flat_sections_step(secs, idx + 1);
                lemma_weight_sections_step(secs, idx + 1);
                lemma_secs_ys_step(m, top + m.frame_head, secs, idx + 1);
                lemma_secs_ys_len(m, top + m.frame_head, secs.subrange(0, idx as int));
            }
            let section = &frag.sections[idx];
            if idx > 0 {
                let div_y = self.y + m.else_pad;
                let guard = if section.guard.as_str().unicode_len() == 0 {
                    proof {
                        reveal_strlit("else");
                    }
                    String::from_str("else")
                } else {
                    section.guard.clone()
                };
                let ghost d0 = dividers@;
                dividers.push(Divider { y: div_y, guard });
                self.y = div_y + m.else_head;
                proof {
                    assert forall|d: int| 0 <= d < dividers@.len() implies #[trigger] dividers@[d].guard@
                        == divider_guard(secs[d + 1].guard@) by {
                        if d < d0.len() {
                            assert(dividers@[d] == d0[d]);
                        }
                    }
                    assert forall|d: int| 0 <= d < dividers@.len() implies #[trigger] dividers@[d].y
                        == top + m.frame_head + secs_h(m, secs.subrange(0, d + 1)) + m.else_pad by {
                        if d < d0.len() {
                            assert(dividers@[d] == d0[d]);
                        } else {
                            assert(secs.subrange(0, d + 1) =~= secs.subrange(0, idx as int));
                        }
                    }
                }
            }
            let ghost mid = *self;
            proof {
                assert(decreases_to!(*frag => frag.sections));
                assert(decreases_to!(frag.sections => frag.sections@));
                assert(decreases_to!(frag.sections@ => frag.sections@[idx as int]));
                assert(decreases_to!(frag.sections@[idx as int] => frag.sections@[idx as int].body));
            }
            self.items(&section.body);
            proof {
                lemma_secs_frags_step(
                    m,
                    start.ps@,
                    start.xs@,
                    start.min_x as int,
                    start.max_x as int,
                    top + m.frame_head,
                    secs,
                    idx + 1,
                );
                assert(secs.subrange(0, idx + 1).subrange(0, idx as int) =~= secs.subrange(0, idx as int));
                lemma_seq_add_assoc(
                    frag_views(start.fragments@),
                    secs_frags(
                        m,
                        start.ps@,
                        start.xs@,
                        start.min_x as int,
                        start.max_x as int,
                        top + m.frame_head,
                        secs.subrange(0, idx as int),
                    ),
                    items_frags(
                        m,
                        start.ps@,
                        start.xs@,
                        start.min_x as int,
                        start.max_x as int,
                        mid.y as int,
                        secs[idx as int].body@,
                    ),
                );
                lemma_extends_trans(start, mid, *self);
                assert(mid.y == top + m.frame_head + secs_h(m, secs.subrange(0, idx as int)) + divider_h(m, idx as int));
                lemma_ys_len(m, mid.y as int, secs[idx as int].body@);
                let post_ys = secs_ys(m, top + m.frame_head, secs.subrange(0, idx + 1));
                assert forall|k: int| 0 <= k < flat_sections(secs.subrange(0, idx + 1)).len() implies (
                #[trigger] self.messages@[n0 + k]).y == post_ys[k] by {
                    if k < pre.len() {
                        assert(self.messages@.subrange(0, mid.messages@.len() as int)[n0 + k]
                            == mid.messages@[n0 + k]);
                    } else {
                        let k2 = k - pre.len();
                        assert(n0 + k == mid.messages@.len() + k2);
                        assert(self.messages@[mid.messages@.len() + k2].y == items_ys(
                            m,
                            mid.y as int,
                            secs[idx as int].body@,
                        )[k2]);
                    }
                }
                let post = flat_sections(secs.subrange(0, idx + 1));
                assert forall|k: int| 0 <= k < post.len() implies same_message(
                    #[trigger] self.messages@[n0 + k],
                    post[k],
                ) by {
                    if k < pre.len() {
                        assert(self.messages@.subrange(0, mid.messages@.len() as int)[n0 + k]
                            == mid.messages@[n0 + k]);
                        assert(same_message(mid.messages@[n0 + k], pre[k]));
                    } else {
                        let k2 = k - pre.len();
                        assert(n0 + k == mid.messages@.len() + k2);
                        assert(same_message(
                            self.messages@[mid.messages@.len() + k2],
                            flat_items(secs[idx as int].body@)[k2],
                        ));
                    }
                }
            }
            idx = idx + 1;
        }
        assert(secs.subrange(0, secs.len() as int) =~= secs);
        self.y = self.y + m.frame_foot;
        // The box spans only the lifelines the fragment touches, padded.
        let (lo, hi) = self.fragment_extent(&frag.sections);
        let rect = Rect::new(lo - m.frame_pad, top, (hi - lo) + 2 * m.frame_pad, self.y - top);
        let ghost f0 = self.fragments@;
        let pf = PlacedFragment { kind: frag.kind, rect, label, dividers };
        self.fragments.push(pf);
        self.y = self.y + m.frame_gap;
        proof {
            assert(self.fragments@ == f0.push(pf));
            assert(frag_views(f0.push(pf)) =~= frag_views(f0) + seq![frag_view(pf)]);
            assert(pf.dividers@.map_values(|d: Divider| (d.y as int, d.guard@)) =~= dividers_of(
                m,
                top + m.frame_head,
                secs,
            ));
            lemma_seq_add_assoc(
                frag_views(start.fragments@),
                secs_frags(
                    m,
                    start.ps@,
                    start.xs@,
                    start.min_x as int,
                    start.max_x as int,
                    top + m.frame_head,
                    secs,
                ),
                seq![frag_view(pf)],
            );
            assert(self.fragments@.subrange(0, f0.len() as int) =~= f0);
            assert(self.fragments@.subrange(0, start.fragments@.len() as int) =~= f0.subrange(
                0,
                start.fragments@.len() as int,
            ));
            assert forall|f: int| 0 <= f < self.fragments@.len() implies fragment_fits(
                #[trigger] self.fragments@[f],
            ) && (metrics_spaced(self.m) ==> fragment_ok(self.fragments@[f])) by {
                if f < f0.len() {
                    assert(self.fragments@[f] == f0[f]);
                }
            }
        }
    }
}

/// A fresh walk over well-placed lifelines satisfies the invariant.
pub proof fn lemma_walk_start<'a>(w: Walk<'a>)
    requires
        metrics_bounded(w.m),
        1 <= w.ps@.len() <= 1024,
        w.xs@.len() == w.ps@.len(),
        w.spans@.len() == w.ps@.len(),
        forall|j: int| 0 <= j < w.spans@.len() ==> (#[trigger] w.spans@[j]) is None,
        forall|i: int|
            0 <= i < w.xs@.len() ==> 0 <= #[trigger] w.xs@[i] <= x_cap() && w.min_x + w.m.frame_pad
                <= w.xs@[i] && w.xs@[i] + w.m.frame_pad + w.m.ret_stub <= w.max_x,
        -4096 <= w.min_x <= w.max_x <= x_cap() + 8192,
        0 <= w.y0@ == w.y <= y_cap(),
        w.messages@.len() == 0,
        w.fragments@.len() == 0,
        w.step == 0,
    ensures
        w.inv(),
{
}

/// What a finished walk guarantees of its messages, spans and fragments.
pub proof fn lemma_walk_facts<'a>(w: Walk<'a>)
    requires
        w.inv(),
    ensures
        0 <= w.y0@ <= w.y <= y_cap(),
        w.spans@.len() == w.ps@.len(),
        w.xs@.len() == w.ps@.len(),
        forall|k: int|
            0 <= k < w.messages@.len() ==> placed_at(w.m, w.ps@, w.xs@, w.min_x as int, #[trigger] w.messages@[k])
                && w.y0@ <= w.messages@[k].y <= w.y && step_ok(w.messages@, k),
        metrics_spaced(w.m) ==> forall|k1: int, k2: int|
            0 <= k1 < k2 < w.messages@.len() ==> #[trigger] w.messages@[k1].y
                < #[trigger] w.messages@[k2].y,
        forall|j: int|
            0 <= j < w.spans@.len() && (#[trigger] w.spans@[j]) is Some ==> w.y0@ <= span_lo(w.spans@[j])
                <= span_hi(w.spans@[j]) <= w.y,
        forall|k: int, j: int|
            0 <= k < w.messages@.len() && 0 <= j < w.ps@.len() && notes(#[trigger] w.messages@[k], w.ps@[j].id@)
                ==> (#[trigger] w.spans@[j]) is Some && span_lo(w.spans@[j]) <= w.messages@[k].y
                <= span_hi(w.spans@[j]),
        forall|f: int| 0 <= f < w.fragments@.len() ==> fragment_fits(#[trigger] w.fragments@[f]),
        metrics_spaced(w.m) ==> forall|f: int|
            0 <= f < w.fragments@.len() ==> fragment_ok(#[trigger] w.fragments@[f]),
{
    assert forall|j: int|
        0 <= j < w.spans@.len() && (#[trigger] w.spans@[j]) is Some implies w.y0@ <= span_lo(w.spans@[j])
        <= span_hi(w.spans@[j]) <= w.y by {
        assert(w.spans@[j] matches Some((lo, hi)) ==> w.y0@ <= lo <= hi <= w.y);
    }
    assert forall|k: int, j: int|
        0 <= k < w.messages@.len() && 0 <= j < w.ps@.len() && notes(#[trigger] w.messages@[k], w.ps@[j].id@)
        implies (#[trigger] w.spans@[j]) is Some && span_lo(w.spans@[j]) <= w.messages@[k].y
        <= span_hi(w.spans@[j]) by {
        assert(w.spans@[j] matches Some((lo, hi)) && lo <= w.messages@[k].y <= hi);
    }
}

/// The items walk from a fresh start extends nothing: its outputs are all
/// its own.
pub proof fn lemma_extends_from_empty<'a>(w: Walk<'a>, o: Walk<'a>)
    requires
        w.extends(o),
    ensures
        w.m == o.m,
        w.ps == o.ps,
        w.xs == o.xs,
        w.min_x == o.min_x,
        w.y0 == o.y0,
        o.y <= w.y,
{
}

/// Counting calls over a longer sequence agrees on its prefix.
pub proof fn lemma_numbered_push(ms: Seq<PlacedMessage>, x: PlacedMessage, n: int)
    requires
        0 <= n <= ms.len(),
    ensures
        numbered(ms.push(x), n) == numbered(ms, n),
    decreases n,
{
    if n > 0 {
        lemma_numbered_push(ms, x, n - 1);
    }
}

/// Counting calls never exceeds the number counted.
pub proof fn lemma_numbered_le(ms: Seq<PlacedMessage>, n: int)
    requires
        0 <= n,
    ensures
        numbered(ms, n) <= n,
    decreases n,
{
    if n > 0 {
        lemma_numbered_le(ms, n - 1);
    }
}

} // verus!
