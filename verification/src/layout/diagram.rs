//! The sequence-diagram input: participants and an ordered tree of messages
//! and combined fragments. Carries no coordinates; positioning is the
//! engine's job.

use vstd::prelude::*;

verus! {

/// A complete sequence diagram to lay out.
#[derive(Debug, PartialEq, Eq, Default)]
pub struct Diagram {
    /// Lifelines, left to right in first-appearance order.
    pub participants: Vec<Participant>,
    /// Messages and fragments, in evaluation order.
    pub items: Vec<Item>,
}

/// A lifeline: a stable `id` the messages reference, a display `label`, a
/// `kind` token (used only for head-card styling), an optional summary and,
/// for containers and components, the dimmed parent path.
#[derive(Debug, Clone, PartialEq, Eq, Default)]
pub struct Participant {
    pub id: String,
    pub label: String,
    pub kind: String,
    /// The participant's doc summary, wrapped into the head card.
    pub summary: Option<String>,
    /// The C4 ancestry shown under the name (containers and components).
    pub parent_path: Option<String>,
}

/// One ordered element: a message or a nestable fragment.
#[derive(Debug, PartialEq, Eq)]
pub enum Item {
    Message(Message),
    Fragment(Fragment),
}

/// A message between lifelines (or a self-message).
#[derive(Debug, Clone, PartialEq, Eq, Default)]
pub struct Message {
    /// Source lifeline id.
    pub from: String,
    /// Target lifeline id (equals `from` for a self-message).
    pub to: String,
    pub kind: MsgKind,
    /// Primary label (method name, or a return marker such as `Ok`/`Err`).
    pub label: String,
    /// Dimmed detail after the label (a call signature, or a return type).
    pub detail: String,
}

/// The kind of a message, which drives its glyph and vertical advance.
#[derive(Debug, Clone, Copy, PartialEq, Eq, Structural, Default)]
pub enum MsgKind {
    /// A solid call to another lifeline.
    #[default]
    Call,
    /// A dashed return to the caller.
    Return,
    /// A loop on the sender's own lifeline.
    SelfMsg,
}

/// A combined fragment (`alt`/`loop`) over one or more sections; the layout
/// engine splits the box with a divider between consecutive sections.
#[derive(Debug, PartialEq, Eq, Default)]
pub struct Fragment {
    pub kind: FragKind,
    /// At least one; sections after the first render below a divider.
    pub sections: Vec<Section>,
}

/// One compartment of a fragment: its guard label and its body.
#[derive(Debug, PartialEq, Eq, Default)]
pub struct Section {
    /// The guard shown in the operator tab (first section) or beside the
    /// divider (later sections). May be empty.
    pub guard: String,
    pub body: Vec<Item>,
}

/// The kind of fragment.
#[derive(Debug, Clone, Copy, PartialEq, Eq, Structural, Default)]
pub enum FragKind {
    #[default]
    Alt,
    Loop,
}

impl FragKind {
    /// The operator keyword drawn in the fragment tab.
    pub fn keyword(self) -> (k: &'static str)
        ensures
            k@ == (match self {
                FragKind::Alt => "alt"@,
                FragKind::Loop => "loop"@,
            }),
    {
        match self {
            FragKind::Alt => "alt",
            FragKind::Loop => "loop",
        }
    }
}

/// The messages of `items` in evaluation order, fragments flattened.
pub open spec fn flat_items(items: Seq<Item>) -> Seq<Message>
    decreases items,
{
    if items.len() == 0 {
        seq![]
    } else {
        flat_items(items.subrange(0, items.len() - 1)) + flat_item(items[items.len() - 1])
    }
}

/// The messages of one item in evaluation order.
pub open spec fn flat_item(item: Item) -> Seq<Message>
    decreases item,
{
    match item {
        Item::Message(m) => seq![m],
        Item::Fragment(f) => flat_sections(f.sections@),
    }
}

/// The messages of fragment sections in evaluation order.
pub open spec fn flat_sections(secs: Seq<Section>) -> Seq<Message>
    decreases secs,
{
    if secs.len() == 0 {
        seq![]
    } else {
        flat_sections(secs.subrange(0, secs.len() - 1)) + flat_items(secs[secs.len() - 1].body@)
    }
}

/// The size of an item tree for bounding the vertical walk: one per message,
/// one per fragment and one per section.
pub open spec fn weight_items(items: Seq<Item>) -> nat
    decreases items,
{
    if items.len() == 0 {
        0
    } else {
        weight_items(items.subrange(0, items.len() - 1)) + weight_item(items[items.len() - 1])
    }
}

/// The size of one item.
pub open spec fn weight_item(item: Item) -> nat
    decreases item,
{
    match item {
        Item::Message(m) => 1,
        Item::Fragment(f) => 1 + weight_sections(f.sections@),
    }
}

/// The size of fragment sections.
pub open spec fn weight_sections(secs: Seq<Section>) -> nat
    decreases secs,
{
    if secs.len() == 0 {
        0
    } else {
        weight_sections(secs.subrange(0, secs.len() - 1)) + 1 + weight_items(
            secs[secs.len() - 1].body@,
        )
    }
}

} // verus!
