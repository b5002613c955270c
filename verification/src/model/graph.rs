//! The resolved relationship graph: every structural node and callable as a
//! [`GraphNode`], and the typed relationships between them as [`Edge`]s.
//!
//! The graph is a pure projection of the parsed modules. Call and `for`
//! targets are resolved to FQNs where they resolve; an unresolved target is
//! recorded as written, not dropped.

use crate::ast::{
    Feature, StepKind, DocBlock, Field, Param, Type, bin_op_spelling, Literal, MarkerKind, UnaryOp, Block, BodyMember, Callable, DataBody, Decl, DeclKind, Expr, ExprKind, FromSource, Ident, Item, Macro, MacroArg, MacroArgs,
    Node, NodeKind as AstNodeKind, Path, PostfixSeg, Ref, Stmt, StmtKind,
};
use crate::model::deps::WorkspaceModule;
use crate::model::symbols::{last_sym, qualified, qualify, sym_views, ModuleEntry, SymView, Workspace};
use crate::project::join_fqn;
use crate::span::Span;
use vstd::prelude::*;
use vstd::string::{StrSliceExecFns, StringExecFns, StringSliceAdditionalSpecFns};
use vstd::utf8::encode_utf8;

verus! {

/// What kind of model element a [`GraphNode`] is.
#[derive(Debug, Clone, Copy, PartialEq, Eq, Structural)]
pub enum NodeKind {
    /// `person`.
    Person,
    /// `system`.
    System,
    /// `container`.
    Container,
    /// `component`.
    Component,
    /// `data` (top-level or a hoisted union variant).
    Data,
    /// A callable.
    Callable,
}

/// The lowercase keyword of a node kind.
pub open spec fn kind_keyword(k: NodeKind) -> Seq<char> {
    match k {
        NodeKind::Person => "person"@,
        NodeKind::System => "system"@,
        NodeKind::Container => "container"@,
        NodeKind::Component => "component"@,
        NodeKind::Data => "data"@,
        NodeKind::Callable => "callable"@,
    }
}

impl NodeKind {
    /// The lowercase keyword for this kind (`container`, `callable`, ...).
    pub fn keyword(self) -> (s: &'static str)
        ensures
            s@ == kind_keyword(self),
    {
        match self {
            NodeKind::Person => "person",
            NodeKind::System => "system",
            NodeKind::Container => "container",
            NodeKind::Component => "component",
            NodeKind::Data => "data",
            NodeKind::Callable => "callable",
        }
    }
}

/// Whether a node is `public` (cross-module addressable) or module-private.
#[derive(Debug, Clone, Copy, PartialEq, Eq, Structural)]
pub enum Visibility {
    /// `public`: cross-module addressable.
    Public,
    /// Module-private: same-file only.
    Private,
}

/// A trigger macro on a callable: the macro that makes the callable an entry
/// point and contributes an inbound edge from a synthesised initiator.
#[derive(Debug, PartialEq, Eq)]
pub enum Trigger {
    /// `#[onevent(Event)]`: initiator `event:<Event>`.
    OnEvent { event_fqn: String },
    /// `#[schedule = "..."]`: initiator `scheduler`.
    Schedule,
    /// `#[http(...)]`: initiator `client`.
    Http,
    /// `#[manual]`: initiator `caller`.
    Manual,
}

impl Clone for Trigger {
    fn clone(&self) -> (t: Self)
        ensures
            t == *self,
    {
        match self {
            Trigger::OnEvent { event_fqn } => Trigger::OnEvent { event_fqn: event_fqn.clone() },
            Trigger::Schedule => Trigger::Schedule,
            Trigger::Http => Trigger::Http,
            Trigger::Manual => Trigger::Manual,
        }
    }
}

/// The initiator node name a trigger contributes an edge from.
pub open spec fn initiator_of(t: Trigger) -> Seq<char> {
    match t {
        Trigger::OnEvent { event_fqn } => "event:"@ + event_fqn@,
        Trigger::Schedule => "scheduler"@,
        Trigger::Http => "client"@,
        Trigger::Manual => "caller"@,
    }
}

impl Trigger {
    /// The synthesised initiator node FQN this trigger contributes an edge
    /// from (`event:<FQN>`, `scheduler`, `client`, `caller`).
    pub fn initiator(&self) -> (s: String)
        ensures
            s@ == initiator_of(*self),
    {
        match self {
            Trigger::OnEvent { event_fqn } => {
                let mut s = String::from_str("event:");
                s.append(event_fqn.as_str());
                s
            },
            Trigger::Schedule => String::from_str("scheduler"),
            Trigger::Http => String::from_str("client"),
            Trigger::Manual => String::from_str("caller"),
        }
    }
}

/// One node of the graph: a structural declaration, a `data` type, or a
/// callable.
#[derive(Debug, Clone, PartialEq, Eq)]
pub struct GraphNode {
    /// The fully-qualified name (`banking::core::Ledger`, or for a callable
    /// `banking::core::Ledger::Fetch`).
    pub fqn: String,
    /// The simple (final-segment) name.
    pub name: String,
    /// What kind of element it is.
    pub kind: NodeKind,
    /// The enclosing node: the `for` parent of a container or component, the
    /// owner of a callable, the containing node of a nested declaration.
    pub parent: Option<String>,
    /// The FQN of the declaring module.
    pub module: String,
    /// Whether it is `public`.
    pub visibility: Visibility,
    /// Source span of the declaration's name.
    pub span: Span,
    /// Trigger macros on the node (only ever present on callables).
    pub triggers: Vec<Trigger>,
    /// The callable's signature; `None` for other nodes.
    pub signature: Option<Signature>,
    /// The `data` type's disclosed shape; `None` for other nodes.
    pub shape: Option<DataShape>,
    /// Documentation lifted from the declaration's `///` block.
    pub doc: NodeDoc,
}

/// A callable's signature in source form: its parameters and rendered
/// return type (`void` when absent).
#[derive(Debug, Clone, PartialEq, Eq)]
pub struct Signature {
    /// The parameters, in declaration order.
    pub params: Vec<SigParam>,
    /// The rendered return type.
    pub ret: String,
}

/// One parameter of a [`Signature`]: its name and rendered type.
#[derive(Debug, Clone, PartialEq, Eq)]
pub struct SigParam {
    /// The parameter name.
    pub name: String,
    /// The rendered parameter type.
    pub ty: String,
}

/// A `data` declaration's disclosed shape.
#[derive(Debug, Clone, PartialEq, Eq)]
pub enum DataShape {
    /// `{ field: Type, .. }`.
    Record { fields: Vec<DataField> },
    /// `= | A | B { .. }`.
    Union { variants: Vec<DataVariant> },
    /// `;`: shape undisclosed.
    BlackBox,
}

/// One field of a record: its name and rendered type.
#[derive(Debug, Clone, PartialEq, Eq)]
pub struct DataField {
    /// The field name.
    pub name: String,
    /// The rendered field type.
    pub ty: String,
}

/// One variant of a union: its name and, for an inline record body, that
/// record's fields (`None` for a bare `| Name` reference).
#[derive(Debug, Clone, PartialEq, Eq)]
pub struct DataVariant {
    /// The variant name.
    pub name: String,
    /// The inline record's fields.
    pub fields: Option<Vec<DataField>>,
}

/// A node's documentation, lifted from its `///` block.
#[derive(Debug, Clone, PartialEq, Eq)]
pub struct NodeDoc {
    /// The summary lines joined with `\n`; `None` without a summary.
    pub summary: Option<String>,
    /// The extended-description lines joined with `\n`; `None` when absent.
    pub extended: Option<String>,
    /// The tags (`#name`, including the `#`), in source order.
    pub tags: Vec<String>,
}

impl Default for NodeDoc {
    fn default() -> (d: Self)
        ensures
            doc_view(d) == no_doc(),
    {
        let d = NodeDoc { summary: None, extended: None, tags: Vec::new() };
        assert(doc_view(d) =~= no_doc());
        d
    }
}

/// A `feature` scenario attached to its target node: steps are prose, not
/// resolved against the model, so a scenario adds no edges.
#[derive(Debug, Clone, PartialEq, Eq)]
pub struct Scenario {
    /// The scenario's name.
    pub name: String,
    /// The target node's FQN (canonicalised; as written if unresolved).
    pub target_fqn: String,
    /// The FQN of the declaring module.
    pub module: String,
    /// Source span of the feature's name.
    pub span: Span,
    /// Documentation lifted from the feature's `///` block.
    pub doc: NodeDoc,
    /// The ordered given/when/then steps.
    pub steps: Vec<ScenarioStep>,
}

/// One step of a [`Scenario`]: its keyword and its prose.
#[derive(Debug, Clone, PartialEq, Eq)]
pub struct ScenarioStep {
    /// The step keyword (`given`/`when`/`then`/`and`/`but`).
    pub keyword: String,
    /// The step's prose, with a string literal's quotes stripped.
    pub text: String,
}

/// What relationship an [`Edge`] expresses.
#[derive(Debug, Clone, Copy, PartialEq, Eq, Structural)]
pub enum EdgeKind {
    /// A child node's `for` parent link (child to parent).
    ForParent,
    /// A body call from the owning node to the resolved target.
    Call,
    /// A synthesised trigger initiator to the triggered callable.
    Trigger,
    /// A `from` composition source to the composed type.
    Provenance,
}

/// A typed, directed relationship between two node FQNs. An endpoint may
/// name no [`GraphNode`]: a synthesised initiator, or an unresolved target.
#[derive(Debug, Clone, PartialEq, Eq)]
pub struct Edge {
    /// Source endpoint FQN.
    pub from: String,
    /// Target endpoint FQN.
    pub to: String,
    /// The relationship kind.
    pub kind: EdgeKind,
    /// The method name for a `Call`, otherwise empty.
    pub label: String,
    /// The call site for a `Call`; the empty span for a synthesised edge.
    pub span: Span,
}

/// The index of the first node of `nodes` named `fqn`, or `-1`.
pub open spec fn first_node(nodes: Seq<GraphNode>, fqn: Seq<char>) -> int
    decreases nodes.len(),
{
    if nodes.len() == 0 {
        -1
    } else if first_node(nodes.drop_last(), fqn) >= 0 {
        first_node(nodes.drop_last(), fqn)
    } else if nodes.last().fqn@ == fqn {
        nodes.len() - 1
    } else {
        -1
    }
}

/// The node of `nodes` named `fqn`, if any.
pub open spec fn node_named(nodes: Seq<GraphNode>, fqn: Seq<char>) -> Option<GraphNode> {
    if first_node(nodes, fqn) >= 0 {
        Some(nodes[first_node(nodes, fqn)])
    } else {
        None
    }
}

/// `first_node` is `-1` or the first index holding `fqn`.
pub proof fn lemma_first_node(nodes: Seq<GraphNode>, fqn: Seq<char>)
    ensures
        -1 <= first_node(nodes, fqn) < nodes.len(),
        first_node(nodes, fqn) >= 0 ==> nodes[first_node(nodes, fqn)].fqn@ == fqn,
        forall|i: int| 0 <= i < nodes.len() && nodes[i].fqn@ == fqn ==> first_node(nodes, fqn) >= 0
            && first_node(nodes, fqn) <= i,
    decreases nodes.len(),
{
    if nodes.len() > 0 {
        lemma_first_node(nodes.drop_last(), fqn);
        assert forall|i: int| 0 <= i < nodes.len() && nodes[i].fqn@ == fqn implies first_node(nodes, fqn)
            >= 0 && first_node(nodes, fqn) <= i by {
            if i < nodes.len() - 1 {
                assert(nodes.drop_last()[i] == nodes[i]);
            }
        }
    }
}

/// The scenarios of `ss` targeting `fqn`, in order.
pub open spec fn scenarios_for(ss: Seq<Scenario>, fqn: Seq<char>) -> Seq<Scenario>
    decreases ss.len(),
{
    if ss.len() == 0 {
        seq![]
    } else if ss.last().target_fqn@ == fqn {
        scenarios_for(ss.drop_last(), fqn).push(ss.last())
    } else {
        scenarios_for(ss.drop_last(), fqn)
    }
}

/// The nodes of `ns` whose parent is `fqn`, in order.
pub open spec fn children_in(ns: Seq<GraphNode>, fqn: Seq<char>) -> Seq<GraphNode>
    decreases ns.len(),
{
    if ns.len() == 0 {
        seq![]
    } else if opt_str(ns.last().parent) == Some(fqn) {
        children_in(ns.drop_last(), fqn).push(ns.last())
    } else {
        children_in(ns.drop_last(), fqn)
    }
}

/// The nodes of `ns` of kind `k`, in order.
pub open spec fn nodes_kind_in(ns: Seq<GraphNode>, k: NodeKind) -> Seq<GraphNode>
    decreases ns.len(),
{
    if ns.len() == 0 {
        seq![]
    } else if ns.last().kind == k {
        nodes_kind_in(ns.drop_last(), k).push(ns.last())
    } else {
        nodes_kind_in(ns.drop_last(), k)
    }
}

/// The edges of `es` of kind `k`, in order.
pub open spec fn edges_kind_in(es: Seq<Edge>, k: EdgeKind) -> Seq<Edge>
    decreases es.len(),
{
    if es.len() == 0 {
        seq![]
    } else if es.last().kind == k {
        edges_kind_in(es.drop_last(), k).push(es.last())
    } else {
        edges_kind_in(es.drop_last(), k)
    }
}

/// The resolved relationship graph for a workspace.
#[derive(Debug, PartialEq, Eq, Default)]
pub struct Graph {
    /// Every node, in source-declaration order across modules.
    nodes: Vec<GraphNode>,
    /// Every typed relationship, in collection order.
    edges: Vec<Edge>,
    /// Sequence traces, keyed by the owning callable's FQN.
    bodies: Vec<(String, Vec<Step>)>,
    /// Feature scenarios, in source-declaration order across modules.
    scenarios: Vec<Scenario>,
}

impl Graph {
    /// The nodes, as a sequence.
    pub closed spec fn node_seq(self) -> Seq<GraphNode> {
        self.nodes@
    }

    /// The edges, as a sequence.
    pub closed spec fn edge_seq(self) -> Seq<Edge> {
        self.edges@
    }

    /// The scenarios, as a sequence.
    pub closed spec fn scenario_seq(self) -> Seq<Scenario> {
        self.scenarios@
    }

    /// Every feature scenario, in source-declaration order.
    pub fn scenarios(&self) -> (r: &Vec<Scenario>)
        ensures
            r@ == self.scenario_seq(),
    {
        &self.scenarios
    }

    /// The scenarios whose target is `fqn`, in order.
    pub fn scenarios_of(&self, fqn: &str) -> (r: Vec<&Scenario>)
        ensures
            r@.map_values(|x: &Scenario| *x) == scenarios_for(self.scenario_seq(), fqn@),
    {
        let mut r: Vec<&Scenario> = Vec::new();
        let mut i: usize = 0;
        while i < self.scenarios.len()
            invariant
                i <= self.scenarios@.len(),
                r@.map_values(|x: &Scenario| *x) == scenarios_for(self.scenarios@.take(i as int), fqn@),
            decreases self.scenarios@.len() - i,
        {
            assert(self.scenarios@.take(i + 1).drop_last() =~= self.scenarios@.take(i as int));
            if crate::strs::str_eq(self.scenarios[i].target_fqn.as_str(), fqn) {
                r.push(&self.scenarios[i]);
            }
            i = i + 1;
        }
        assert(self.scenarios@.take(self.scenarios@.len() as int) =~= self.scenarios@);
        r
    }

    /// The nodes whose parent is `fqn` (its direct children), in order.
    pub fn children_of(&self, fqn: &str) -> (r: Vec<&GraphNode>)
        ensures
            r@.map_values(|x: &GraphNode| *x) == children_in(self.node_seq(), fqn@),
    {
        let mut r: Vec<&GraphNode> = Vec::new();
        let mut i: usize = 0;
        while i < self.nodes.len()
            invariant
                i <= self.nodes@.len(),
                r@.map_values(|x: &GraphNode| *x) == children_in(self.nodes@.take(i as int), fqn@),
            decreases self.nodes@.len() - i,
        {
            assert(self.nodes@.take(i + 1).drop_last() =~= self.nodes@.take(i as int));
            let hit = match &self.nodes[i].parent {
                Some(p) => crate::strs::str_eq(p.as_str(), fqn),
                None => false,
            };
            if hit {
                r.push(&self.nodes[i]);
            }
            i = i + 1;
        }
        assert(self.nodes@.take(self.nodes@.len() as int) =~= self.nodes@);
        r
    }

    /// The nodes of a given kind, in order.
    pub fn nodes_of_kind(&self, kind: NodeKind) -> (r: Vec<&GraphNode>)
        ensures
            r@.map_values(|x: &GraphNode| *x) == nodes_kind_in(self.node_seq(), kind),
    {
        let mut r: Vec<&GraphNode> = Vec::new();
        let mut i: usize = 0;
        while i < self.nodes.len()
            invariant
                i <= self.nodes@.len(),
                r@.map_values(|x: &GraphNode| *x) == nodes_kind_in(self.nodes@.take(i as int), kind),
            decreases self.nodes@.len() - i,
        {
            assert(self.nodes@.take(i + 1).drop_last() =~= self.nodes@.take(i as int));
            if self.nodes[i].kind == kind {
                r.push(&self.nodes[i]);
            }
            i = i + 1;
        }
        assert(self.nodes@.take(self.nodes@.len() as int) =~= self.nodes@);
        r
    }

    /// The edges of a given kind, in order.
    pub fn edges_of_kind(&self, kind: EdgeKind) -> (r: Vec<&Edge>)
        ensures
            r@.map_values(|x: &Edge| *x) == edges_kind_in(self.edge_seq(), kind),
    {
        let mut r: Vec<&Edge> = Vec::new();
        let mut i: usize = 0;
        while i < self.edges.len()
            invariant
                i <= self.edges@.len(),
                r@.map_values(|x: &Edge| *x) == edges_kind_in(self.edges@.take(i as int), kind),
            decreases self.edges@.len() - i,
        {
            assert(self.edges@.take(i + 1).drop_last() =~= self.edges@.take(i as int));
            if self.edges[i].kind == kind {
                r.push(&self.edges[i]);
            }
            i = i + 1;
        }
        assert(self.edges@.take(self.edges@.len() as int) =~= self.edges@);
        r
    }

    /// The body traces, as a sequence.
    pub closed spec fn body_seq(self) -> Seq<(String, Vec<Step>)> {
        self.bodies@
    }

    /// The ordered sequence trace of the disclosed callable `fqn`.
    pub fn body(&self, fqn: &str) -> (r: Option<&Vec<Step>>)
        ensures
            r matches Some(b) ==> first_key(body_views(self.body_seq()), fqn@) >= 0 && steps_view(b@) == body_views(
                self.body_seq(),
            )[first_key(body_views(self.body_seq()), fqn@)].1,
            r is None ==> first_key(body_views(self.body_seq()), fqn@) == -1,
    {
        let ghost t = body_views(self.bodies@);
        proof {
            lemma_first_key(t, fqn@);
        }
        let mut i: usize = 0;
        while i < self.bodies.len()
            invariant
                i <= self.bodies@.len(),
                t == body_views(self.bodies@),
                t.len() == self.bodies@.len(),
                forall|k: int| 0 <= k < i ==> self.bodies@[k].0@ != fqn@,
                -1 <= first_key(t, fqn@) < t.len(),
                first_key(t, fqn@) >= 0 ==> t[first_key(t, fqn@)].0 == fqn@,
                forall|k: int| 0 <= k < t.len() && t[k].0 == fqn@ ==> 0 <= first_key(t, fqn@) <= k,
            decreases self.bodies@.len() - i,
        {
            if crate::strs::str_eq(self.bodies[i].0.as_str(), fqn) {
                assert(t[i as int].0 == fqn@);
                assert(first_key(t, fqn@) == i) by {
                    if first_key(t, fqn@) < i {
                        let q = first_key(t, fqn@);
                        assert(t[q].0 == self.bodies@[q].0@);
                    }
                }
                return Some(&self.bodies[i].1);
            }
            i = i + 1;
        }
        assert(first_key(t, fqn@) == -1) by {
            if first_key(t, fqn@) >= 0 {
                let q = first_key(t, fqn@);
                assert(t[q].0 == self.bodies@[q].0@);
            }
        }
        None
    }

    /// Every node, in source-declaration order.
    pub fn nodes(&self) -> (r: &Vec<GraphNode>)
        ensures
            r@ == self.node_seq(),
    {
        &self.nodes
    }

    /// Every edge, in collection order.
    pub fn edges(&self) -> (r: &Vec<Edge>)
        ensures
            r@ == self.edge_seq(),
    {
        &self.edges
    }

    /// Looks up a node by its FQN.
    pub fn node(&self, fqn: &str) -> (r: Option<&GraphNode>)
        ensures
            r matches Some(n) ==> node_named(self.node_seq(), fqn@) == Some(*n),
            r is None ==> node_named(self.node_seq(), fqn@) is None,
    {
        proof {
            lemma_first_node(self.nodes@, fqn@);
        }
        let mut i: usize = 0;
        while i < self.nodes.len()
            invariant
                i <= self.nodes@.len(),
                forall|k: int| 0 <= k < i ==> self.nodes@[k].fqn@ != fqn@,
                -1 <= first_node(self.nodes@, fqn@) < self.nodes@.len(),
                first_node(self.nodes@, fqn@) >= 0 ==> self.nodes@[first_node(self.nodes@, fqn@)].fqn@
                    == fqn@,
                forall|k: int|
                    0 <= k < self.nodes@.len() && self.nodes@[k].fqn@ == fqn@ ==> first_node(
                        self.nodes@,
                        fqn@,
                    ) >= 0 && first_node(self.nodes@, fqn@) <= k,
            decreases self.nodes@.len() - i,
        {
            if crate::strs::str_eq(self.nodes[i].fqn.as_str(), fqn) {
                return Some(&self.nodes[i]);
            }
            i = i + 1;
        }
        None
    }
}

// ----- building -------------------------------------------------------------

/// A trigger as plain values: its macro word and, for `onevent`, the event.
pub type TrigView = (Seq<char>, Seq<char>);

/// The plain-value view of a trigger.
pub open spec fn trig_view(t: Trigger) -> TrigView {
    match t {
        Trigger::OnEvent { event_fqn } => ("onevent"@, event_fqn@),
        Trigger::Schedule => ("schedule"@, seq![]),
        Trigger::Http => ("http"@, seq![]),
        Trigger::Manual => ("manual"@, seq![]),
    }
}

/// The initiator of a trigger view.
pub open spec fn view_initiator(t: TrigView) -> Seq<char> {
    if t.0 == "onevent"@ {
        "event:"@ + t.1
    } else if t.0 == "schedule"@ {
        "scheduler"@
    } else if t.0 == "http"@ {
        "client"@
    } else {
        "caller"@
    }
}

/// A node as plain values: FQN, name, kind, parent, module, visibility,
/// span, triggers.
pub type NodeView = (Seq<char>, Seq<char>, NodeKind, Option<Seq<char>>, Seq<char>, Visibility, Span, Seq<TrigView>, MetaView);

/// Field name and rendered type.
pub type FieldView = (Seq<char>, Seq<char>);

/// A signature as plain values: parameters, return type.
pub type SigView = (Seq<FieldView>, Seq<char>);

/// A data shape as plain values.
pub enum ShapeView {
    Record(Seq<FieldView>),
    Union(Seq<(Seq<char>, Option<Seq<FieldView>>)>),
    BlackBox,
}

/// Documentation as plain values: summary, extended description, tags.
pub type DocView = (Option<Seq<char>>, Option<Seq<char>>, Seq<Seq<char>>);

/// A node's signature, shape and documentation, as plain values.
pub type MetaView = (Option<SigView>, Option<ShapeView>, DocView);

/// The plain-value views of data fields.
pub open spec fn fields_view(fs: Seq<DataField>) -> Seq<FieldView> {
    fs.map_values(|f: DataField| (f.name@, f.ty@))
}

/// The plain-value view of a signature.
pub open spec fn sig_view(s: Signature) -> SigView {
    (s.params@.map_values(|p: SigParam| (p.name@, p.ty@)), s.ret@)
}

/// The plain-value view of a data shape.
pub open spec fn shape_view(d: DataShape) -> ShapeView {
    match d {
        DataShape::Record { fields } => ShapeView::Record(fields_view(fields@)),
        DataShape::Union { variants } => ShapeView::Union(
            variants@.map_values(
                |v: DataVariant|
                    (
                        v.name@,
                        match v.fields {
                            Some(fs) => Some(fields_view(fs@)),
                            None => None,
                        },
                    ),
            ),
        ),
        DataShape::BlackBox => ShapeView::BlackBox,
    }
}

/// The plain-value view of documentation.
pub open spec fn doc_view(d: NodeDoc) -> DocView {
    (opt_str(d.summary), opt_str(d.extended), d.tags@.map_values(|t: String| t@))
}

/// The plain-value view of a node's metadata.
pub open spec fn meta_view(n: GraphNode) -> MetaView {
    (
        match n.signature {
            Some(s) => Some(sig_view(s)),
            None => None,
        },
        match n.shape {
            Some(d) => Some(shape_view(d)),
            None => None,
        },
        doc_view(n.doc),
    )
}

/// The plain-value view of an optional string.
pub open spec fn opt_str(o: Option<String>) -> Option<Seq<char>> {
    match o {
        Some(s) => Some(s@),
        None => None,
    }
}

/// The plain-value view of a node.
pub open spec fn node_view(n: GraphNode) -> NodeView {
    (
        n.fqn@,
        n.name@,
        n.kind,
        opt_str(n.parent),
        n.module@,
        n.visibility,
        n.span,
        n.triggers@.map_values(|t: Trigger| trig_view(t)),
        meta_view(n),
    )
}

/// The plain-value views of nodes.
pub open spec fn node_views(ns: Seq<GraphNode>) -> Seq<NodeView> {
    ns.map_values(|n: GraphNode| node_view(n))
}

/// An edge as plain values: from, to, kind, label, span.
pub type EdgeView = (Seq<char>, Seq<char>, EdgeKind, Seq<char>, Span);

/// The plain-value view of an edge.
pub open spec fn edge_view(e: Edge) -> EdgeView {
    (e.from@, e.to@, e.kind, e.label@, e.span)
}

/// The plain-value views of edges.
pub open spec fn edge_views(es: Seq<Edge>) -> Seq<EdgeView> {
    es.map_values(|e: Edge| edge_view(e))
}

/// The empty span of a synthesised edge.
pub open spec fn no_span() -> Span {
    Span { start: 0, end: 0 }
}

/// A path in its `::`-joined source form.
pub open spec fn path_text(p: Path) -> Seq<char> {
    join_fqn(p.segments@.map_values(|i: Ident| i.name@))
}

/// Whether the workspace index knows the FQN `f`.
pub open spec fn known(idx: Seq<SymView>, f: Seq<char>) -> bool {
    last_sym(idx, f, true) >= 0
}

/// A node reference written in `module`, as a full FQN: the reference
/// itself when it names a symbol, else `module::reference` when that does,
/// else the reference as written (an unresolved or structural-drill path).
pub open spec fn canon(idx: Seq<SymView>, r: Seq<char>, module: Seq<char>) -> Seq<char> {
    if known(idx, r) {
        r
    } else if known(idx, qualified(module, r)) {
        qualified(module, r)
    } else {
        r
    }
}

/// A bare path qualified in `module`; a multi-segment path as written.
pub open spec fn resolved_path(p: Path, module: Seq<char>) -> Seq<char> {
    if p.segments@.len() == 1 {
        qualified(module, p.segments@[0].name@)
    } else {
        path_text(p)
    }
}

/// The node a postfix chain's base names, if it is a path.
pub open spec fn base_node(idx: Seq<SymView>, module: Seq<char>, base: Expr) -> Option<Seq<char>> {
    match base.kind {
        ExprKind::Ref(Ref::Path(p)) => Some(canon(idx, path_text(p), module)),
        _ => None,
    }
}

/// The `Call` edge of a `.method(..)` segment over a base naming `target`:
/// from the owner when the target is another node.
pub open spec fn call_edge(owner: Seq<char>, target: Option<Seq<char>>, seg: PostfixSeg) -> Seq<EdgeView> {
    match target {
        Some(t) => if t != owner {
            seq![(owner, t, EdgeKind::Call, seg.name.name@, seg.span)]
        } else {
            seq![]
        },
        None => seq![],
    }
}

/// Whether some segment is a call.
pub open spec fn any_call(segs: Seq<PostfixSeg>) -> bool {
    exists|i: int| 0 <= i < segs.len() && (#[trigger] segs[i]).call_args is Some
}

/// The node a `from` source names: the receiver of a call on a path or on
/// `self`; a bare binding or a field access names none.
pub open spec fn source_node(owner: Seq<char>, e: Expr) -> Option<Seq<char>> {
    match e.kind {
        ExprKind::Postfix { base, segments } => if any_call(segments@) {
            match base.kind {
                ExprKind::Ref(Ref::Path(p)) => Some(path_text(p)),
                ExprKind::Ref(Ref::SelfNode(_)) => Some(owner),
                _ => None,
            }
        } else {
            None
        },
        _ => None,
    }
}

/// The `Provenance` edges of `from` sources into `composed`.
pub open spec fn provenance(idx: Seq<SymView>, owner: Seq<char>, module: Seq<char>, composed: Seq<char>, srcs: Seq<Expr>) -> Seq<EdgeView>
    decreases srcs.len(),
{
    if srcs.len() == 0 {
        seq![]
    } else {
        provenance(idx, owner, module, composed, srcs.drop_last()) + (match source_node(owner, srcs.last()) {
            Some(f) => seq![(canon(idx, f, module), composed, EdgeKind::Provenance, seq![], no_span())],
            None => seq![],
        })
    }
}

/// The sources of a `from` expression.
pub open spec fn sources_of(src: FromSource) -> Seq<Expr> {
    match src {
        FromSource::Compose(v) => v@,
        FromSource::Convert(b) => seq![*b],
    }
}

/// The edges an expression's calls contribute, left to right, for a body
/// of the node `owner` in `module`.
pub open spec fn expr_edges(idx: Seq<SymView>, owner: Seq<char>, module: Seq<char>, e: Expr) -> Seq<EdgeView>
    decreases e,
{
    match e.kind {
        ExprKind::Postfix { base, segments } => (if base.kind is Ref {
            seq![]
        } else {
            expr_edges(idx, owner, module, *base)
        }) + segs_edges(idx, owner, module, base_node(idx, module, *base), segments@),
        ExprKind::From { ty, source } => (match source {
            FromSource::Compose(v) => exprs_edges(idx, owner, module, v@),
            FromSource::Convert(b) => expr_edges(idx, owner, module, *b),
        }) + provenance(idx, owner, module, canon(idx, resolved_path(ty.name, module), module), sources_of(source)),
        ExprKind::Marker { payload, .. } => match payload {
            Some(p) => expr_edges(idx, owner, module, *p),
            None => seq![],
        },
        ExprKind::OwnCall { args, .. } => exprs_edges(idx, owner, module, args@),
        ExprKind::Unary { expr, .. } => expr_edges(idx, owner, module, *expr),
        ExprKind::Paren(inner) => expr_edges(idx, owner, module, *inner),
        ExprKind::Binary { left, right, .. } => expr_edges(idx, owner, module, *left) + expr_edges(
            idx,
            owner,
            module,
            *right,
        ),
        ExprKind::Ref(_) => seq![],
        ExprKind::Literal(_) => seq![],
    }
}

/// The edges of expressions, in order.
pub open spec fn exprs_edges(idx: Seq<SymView>, owner: Seq<char>, module: Seq<char>, es: Seq<Expr>) -> Seq<EdgeView>
    decreases es,
{
    if es.len() == 0 {
        seq![]
    } else {
        exprs_edges(idx, owner, module, es.subrange(0, es.len() - 1)) + expr_edges(idx, owner, module, es[es.len() - 1])
    }
}

/// The edges of postfix segments over a base naming `target`: each call's
/// arguments, then its `Call` edge.
pub open spec fn segs_edges(idx: Seq<SymView>, owner: Seq<char>, module: Seq<char>, target: Option<Seq<char>>, segs: Seq<PostfixSeg>) -> Seq<EdgeView>
    decreases segs,
{
    if segs.len() == 0 {
        seq![]
    } else {
        segs_edges(idx, owner, module, target, segs.subrange(0, segs.len() - 1)) + (match segs[segs.len()
            - 1].call_args {
            Some(args) => exprs_edges(idx, owner, module, args@) + call_edge(owner, target, segs[segs.len() - 1]),
            None => seq![],
        })
    }
}

/// The edges of a statement.
pub open spec fn stmt_edges(idx: Seq<SymView>, owner: Seq<char>, module: Seq<char>, s: Stmt) -> Seq<EdgeView>
    decreases s,
{
    match s.kind {
        StmtKind::Assign { value, .. } => expr_edges(idx, owner, module, value),
        StmtKind::Expr(value) => expr_edges(idx, owner, module, value),
        StmtKind::Return(value) => match value {
            Some(v) => expr_edges(idx, owner, module, v),
            None => seq![],
        },
        StmtKind::If { cond, then_block, else_block } => expr_edges(idx, owner, module, cond) + stmts_edges(
            idx,
            owner,
            module,
            then_block.stmts@,
        ) + (match else_block {
            Some(b) => stmts_edges(idx, owner, module, b.stmts@),
            None => seq![],
        }),
        StmtKind::For { iter, body, .. } => expr_edges(idx, owner, module, iter) + stmts_edges(idx, owner, module, body.stmts@),
        StmtKind::While { cond, body } => expr_edges(idx, owner, module, cond) + stmts_edges(idx, owner, module, body.stmts@),
    }
}

/// The edges of statements, in order.
pub open spec fn stmts_edges(idx: Seq<SymView>, owner: Seq<char>, module: Seq<char>, ss: Seq<Stmt>) -> Seq<EdgeView>
    decreases ss,
{
    if ss.len() == 0 {
        seq![]
    } else {
        stmts_edges(idx, owner, module, ss.subrange(0, ss.len() - 1)) + stmt_edges(idx, owner, module, ss[ss.len() - 1])
    }
}

/// The edges of consecutive statement runs are the first run's, then the
/// second's.
proof fn lemma_stmts_edges_concat(idx: Seq<SymView>, owner: Seq<char>, module: Seq<char>, a: Seq<Stmt>, b: Seq<Stmt>)
    ensures
        stmts_edges(idx, owner, module, a + b) == stmts_edges(idx, owner, module, a) + stmts_edges(idx, owner, module, b),
    decreases b.len(),
{
    if b.len() == 0 {
        assert(a + b =~= a);
    } else {
        let b0 = b.subrange(0, b.len() - 1);
        lemma_stmts_edges_concat(idx, owner, module, a, b0);
        assert((a + b).subrange(0, (a + b).len() - 1) =~= a + b0);
        assert((a + b)[(a + b).len() - 1] == b[b.len() - 1]);
    }
}

/// Enclosing statements in a loop or a branch neither drops nor adds an
/// edge: the edges of `while (c) { body }`, of `for (x in c) { body }` and
/// of `if (c) { then } else { els }` are those of the flat run made of the
/// expression statement `c` followed by the enclosed statements, in order.
pub proof fn law_enclosing_keeps_edges(idx: Seq<SymView>, owner: Seq<char>, module: Seq<char>, s: Stmt, c: Stmt)
    requires
        match s.kind {
            StmtKind::While { cond, .. } => c.kind == StmtKind::Expr(cond),
            StmtKind::For { iter, .. } => c.kind == StmtKind::Expr(iter),
            StmtKind::If { cond, .. } => c.kind == StmtKind::Expr(cond),
            _ => false,
        },
    ensures
        stmt_edges(idx, owner, module, s) == stmts_edges(
            idx,
            owner,
            module,
            match s.kind {
                StmtKind::While { body, .. } => seq![c] + body.stmts@,
                StmtKind::For { body, .. } => seq![c] + body.stmts@,
                StmtKind::If { then_block, else_block, .. } => seq![c] + then_block.stmts@ + match else_block {
                    Some(e) => e.stmts@,
                    None => seq![],
                },
                _ => seq![],
            },
        ),
{
    assert(stmts_edges(idx, owner, module, seq![c]) == stmt_edges(idx, owner, module, c)) by {
        assert(seq![c].subrange(0, 0) =~= Seq::<Stmt>::empty());
        assert(stmts_edges(idx, owner, module, Seq::<Stmt>::empty()) =~= Seq::<EdgeView>::empty());
        assert(Seq::<EdgeView>::empty() + stmt_edges(idx, owner, module, c) =~= stmt_edges(idx, owner, module, c));
    }
    match s.kind {
        StmtKind::While { body, .. } => {
            lemma_stmts_edges_concat(idx, owner, module, seq![c], body.stmts@);
        },
        StmtKind::For { body, .. } => {
            lemma_stmts_edges_concat(idx, owner, module, seq![c], body.stmts@);
        },
        StmtKind::If { then_block, else_block, .. } => {
            lemma_stmts_edges_concat(idx, owner, module, seq![c], then_block.stmts@);
            let rest = match else_block {
                Some(e) => e.stmts@,
                None => seq![],
            };
            lemma_stmts_edges_concat(idx, owner, module, seq![c] + then_block.stmts@, rest);
            if else_block is None {
                assert(stmts_edges(idx, owner, module, Seq::<Stmt>::empty()) =~= Seq::<EdgeView>::empty());
            }
        },
        _ => {},
    }
}

/// Renders a path in its `::`-joined source form.
pub fn path_str(p: &Path) -> (r: String)
    ensures
        r@ == path_text(*p),
{
    let ghost all = p.segments@.map_values(|i: Ident| i.name@);
    let mut out = String::new();
    let mut i: usize = 0;
    assert(all.take(0) =~= seq![]);
    while i < p.segments.len()
        invariant
            i <= p.segments@.len(),
            all == p.segments@.map_values(|i: Ident| i.name@),
            out@ == join_fqn(all.take(i as int)),
        decreases p.segments@.len() - i,
    {
        let ghost t = all.take(i + 1);
        assert(t.drop_last() =~= all.take(i as int));
        if i > 0 {
            out.append("::");
        }
        out.append(p.segments[i].name.as_str());
        proof {
            reveal_strlit("::");
        }
        if i == 0 {
            assert(t.len() == 1);
            assert(out@ =~= t[0]);
        } else {
            assert(out@ =~= join_fqn(all.take(i as int)) + seq![':', ':'] + t.last());
        }
        i = i + 1;
    }
    assert(all.take(p.segments@.len() as int) =~= all);
    out
}

/// A node reference written in `module`, as a full FQN (see [`canon`]).
fn canonicalize(ws: &Workspace, reference: &str, module: &str) -> (r: String)
    ensures
        r@ == canon(sym_views(ws.index_seq()), reference@, module@),
{
    if ws.symbol(reference).is_some() {
        return String::from_str(reference);
    }
    let prefixed = qualify(module, reference);
    if ws.symbol(prefixed.as_str()).is_some() {
        return prefixed;
    }
    String::from_str(reference)
}

/// A bare path qualified in `module`; a multi-segment path as written.
fn resolve_path(p: &Path, module: &str) -> (r: String)
    ensures
        r@ == resolved_path(*p, module@),
{
    if p.is_simple() {
        qualify(module, p.segments[0].name.as_str())
    } else {
        path_str(p)
    }
}

/// The node a `from` source names (see [`source_node`]).
fn expr_node_fqn(e: &Expr, owner: &str) -> (r: Option<String>)
    ensures
        opt_str(r) == source_node(owner@, *e),
{
    match &e.kind {
        ExprKind::Postfix { base, segments } => {
            let mut called = false;
            let mut i: usize = 0;
            while i < segments.len()
                invariant
                    i <= segments@.len(),
                    called == exists|k: int| 0 <= k < i && (#[trigger] segments@[k]).call_args is Some,
                decreases segments@.len() - i,
            {
                if segments[i].call_args.is_some() {
                    called = true;
                }
                i = i + 1;
            }
            if !called {
                return None;
            }
            match &base.kind {
                ExprKind::Ref(Ref::Path(path)) => Some(path_str(path)),
                ExprKind::Ref(Ref::SelfNode(_)) => Some(String::from_str(owner)),
                _ => None,
            }
        },
        _ => None,
    }
}

/// The step of a `.method(..)` segment over a base naming `target`: a call
/// to the target, or a call on the owner.
pub open spec fn call_step(target: Option<Seq<char>>, seg: PostfixSeg) -> StepView {
    match target {
        Some(t) => StepView::Call(t, seg.name.name@),
        None => StepView::SelfCall(seg.name.name@),
    }
}

/// The steps of an expression's calls, left to right.
pub open spec fn expr_steps(idx: Seq<SymView>, module: Seq<char>, e: Expr) -> Seq<StepView>
    decreases e,
{
    match e.kind {
        ExprKind::Postfix { base, segments } => (if base.kind is Ref {
            seq![]
        } else {
            expr_steps(idx, module, *base)
        }) + segs_steps(idx, module, base_node(idx, module, *base), segments@),
        ExprKind::From { source, .. } => match source {
            FromSource::Compose(v) => exprs_steps(idx, module, v@),
            FromSource::Convert(b) => expr_steps(idx, module, *b),
        },
        ExprKind::Marker { payload, .. } => match payload {
            Some(p) => expr_steps(idx, module, *p),
            None => seq![],
        },
        ExprKind::OwnCall { name, args } => exprs_steps(idx, module, args@).push(StepView::SelfCall(name.name@)),
        ExprKind::Unary { expr, .. } => expr_steps(idx, module, *expr),
        ExprKind::Paren(inner) => expr_steps(idx, module, *inner),
        ExprKind::Binary { left, right, .. } => expr_steps(idx, module, *left) + expr_steps(idx, module, *right),
        ExprKind::Ref(_) => seq![],
        ExprKind::Literal(_) => seq![],
    }
}

/// The steps of expressions, in order.
pub open spec fn exprs_steps(idx: Seq<SymView>, module: Seq<char>, es: Seq<Expr>) -> Seq<StepView>
    decreases es,
{
    if es.len() == 0 {
        seq![]
    } else {
        exprs_steps(idx, module, es.subrange(0, es.len() - 1)) + expr_steps(idx, module, es[es.len() - 1])
    }
}

/// The steps of postfix segments over a base naming `target`: each call's
/// arguments, then the call.
pub open spec fn segs_steps(idx: Seq<SymView>, module: Seq<char>, target: Option<Seq<char>>, segs: Seq<PostfixSeg>) -> Seq<StepView>
    decreases segs,
{
    if segs.len() == 0 {
        seq![]
    } else {
        segs_steps(idx, module, target, segs.subrange(0, segs.len() - 1)) + (match segs[segs.len() - 1].call_args {
            Some(args) => exprs_steps(idx, module, args@).push(call_step(target, segs[segs.len() - 1])),
            None => seq![],
        })
    }
}

/// The steps of a statement: its calls, then a `Return`, or an `Alt` or
/// `Loop` frame over the nested blocks.
pub open spec fn stmt_steps(idx: Seq<SymView>, module: Seq<char>, s: Stmt) -> Seq<StepView>
    decreases s,
{
    match s.kind {
        StmtKind::Assign { value, .. } => expr_steps(idx, module, value),
        StmtKind::Expr(value) => expr_steps(idx, module, value),
        StmtKind::Return(value) => (match value {
            Some(v) => expr_steps(idx, module, v),
            None => seq![],
        }).push(StepView::Return(marker_of(value))),
        StmtKind::If { cond, then_block, else_block } => expr_steps(idx, module, cond).push(
            StepView::Alt(
                label_of(cond),
                stmts_steps(idx, module, then_block.stmts@),
                match else_block {
                    Some(b) => stmts_steps(idx, module, b.stmts@),
                    None => seq![],
                },
            ),
        ),
        StmtKind::For { iter, body, .. } => expr_steps(idx, module, iter).push(
            StepView::Loop(label_of(iter), stmts_steps(idx, module, body.stmts@)),
        ),
        StmtKind::While { cond, body } => expr_steps(idx, module, cond).push(
            StepView::Loop(label_of(cond), stmts_steps(idx, module, body.stmts@)),
        ),
    }
}

/// The steps of statements, in order.
pub open spec fn stmts_steps(idx: Seq<SymView>, module: Seq<char>, ss: Seq<Stmt>) -> Seq<StepView>
    decreases ss,
{
    if ss.len() == 0 {
        seq![]
    } else {
        stmts_steps(idx, module, ss.subrange(0, ss.len() - 1)) + stmt_steps(idx, module, ss[ss.len() - 1])
    }
}

/// Appends `e`.
proof fn lemma_edge_push(es: Seq<Edge>, e: Edge)
    ensures
        edge_views(es.push(e)) == edge_views(es).push(edge_view(e)),
{
    assert(edge_views(es.push(e)) =~= edge_views(es).push(edge_view(e)));
}

/// Appends an edge.
fn push_edge(edges: &mut Vec<Edge>, from: String, to: String, kind: EdgeKind, label: String, span: Span)
    ensures
        edge_views(final(edges)@) == edge_views(old(edges)@).push((from@, to@, kind, label@, span)),
{
    let e = Edge { from, to, kind, label, span };
    proof {
        lemma_edge_push(edges@, e);
    }
    edges.push(e);
}

/// Appends the `Provenance` edges of `from` sources into `composed`.
fn trace_provenance(ws: &Workspace, srcs: &[Expr], composed: &String, owner: &str, module: &str, edges: &mut Vec<Edge>)
    ensures
        edge_views(final(edges)@) == edge_views(old(edges)@) + provenance(
            sym_views(ws.index_seq()),
            owner@,
            module@,
            composed@,
            srcs@,
        ),
{
    let ghost idx = sym_views(ws.index_seq());
    let ghost e0 = edge_views(edges@);
    let mut i: usize = 0;
    assert(srcs@.take(0) =~= seq![]);
    assert(e0 + provenance(idx, owner@, module@, composed@, srcs@.take(0)) =~= e0);
    while i < srcs.len()
        invariant
            i <= srcs@.len(),
            idx == sym_views(ws.index_seq()),
            edge_views(edges@) == e0 + provenance(idx, owner@, module@, composed@, srcs@.take(i as int)),
        decreases srcs@.len() - i,
    {
        assert(srcs@.take(i + 1).drop_last() =~= srcs@.take(i as int));
        assert(srcs@.take(i + 1).last() == srcs@[i as int]);
        let ghost before = edge_views(edges@);
        match expr_node_fqn(&srcs[i], owner) {
            Some(f) => {
                let from = canonicalize(ws, f.as_str(), module);
                push_edge(edges, from, composed.clone(), EdgeKind::Provenance, String::new(), Span { start: 0, end: 0 });
            },
            None => {},
        }
        assert(edge_views(edges@) =~= e0 + provenance(idx, owner@, module@, composed@, srcs@.take(i + 1)));
        i = i + 1;
    }
    assert(srcs@.take(srcs@.len() as int) =~= srcs@);
}

/// Appends the edges and steps of each expression of `es`.
fn trace_exprs(ws: &Workspace, es: &Vec<Expr>, owner: &str, module: &str, edges: &mut Vec<Edge>, steps: &mut Vec<Step>)
    ensures
        edge_views(final(edges)@) == edge_views(old(edges)@) + exprs_edges(sym_views(ws.index_seq()), owner@, module@, es@),
        steps_view(final(steps)@) == steps_view(old(steps)@) + exprs_steps(sym_views(ws.index_seq()), module@, es@),
    decreases es, 0nat,
{
    let ghost idx = sym_views(ws.index_seq());
    let ghost e0 = edge_views(edges@);
    let ghost s0 = steps_view(steps@);
    let mut i: usize = 0;
    assert(es@.subrange(0, 0) =~= seq![]);
    assert(e0 + exprs_edges(idx, owner@, module@, es@.subrange(0, 0)) =~= e0);
    assert(s0 + exprs_steps(idx, module@, es@.subrange(0, 0)) =~= s0);
    while i < es.len()
        invariant
            i <= es@.len(),
            idx == sym_views(ws.index_seq()),
            edge_views(edges@) == e0 + exprs_edges(idx, owner@, module@, es@.subrange(0, i as int)),
            steps_view(steps@) == s0 + exprs_steps(idx, module@, es@.subrange(0, i as int)),
        decreases es@.len() - i,
    {
        proof {
            assert(decreases_to!(*es => es@));
            assert(decreases_to!(es@ => es@[i as int]));
            let t = es@.subrange(0, i + 1);
            assert(t.subrange(0, t.len() - 1) =~= es@.subrange(0, i as int));
        }
        trace_expr(ws, &es[i], owner, module, edges, steps);
        assert(edge_views(edges@) =~= e0 + exprs_edges(idx, owner@, module@, es@.subrange(0, i + 1)));
        assert(steps_view(steps@) =~= s0 + exprs_steps(idx, module@, es@.subrange(0, i + 1)));
        i = i + 1;
    }
    assert(es@.subrange(0, es@.len() as int) =~= es@);
}

/// Traces the base of a postfix chain: a path base names a node (returned,
/// canonicalised); `self` names none; any other base is traced as an
/// expression.
fn trace_base(ws: &Workspace, base: &Expr, owner: &str, module: &str, edges: &mut Vec<Edge>, steps: &mut Vec<Step>) -> (r: Option<String>)
    ensures
        opt_str(r) == base_node(sym_views(ws.index_seq()), module@, *base),
        edge_views(final(edges)@) == edge_views(old(edges)@) + if base.kind is Ref {
            seq![]
        } else {
            expr_edges(sym_views(ws.index_seq()), owner@, module@, *base)
        },
        steps_view(final(steps)@) == steps_view(old(steps)@) + if base.kind is Ref {
            seq![]
        } else {
            expr_steps(sym_views(ws.index_seq()), module@, *base)
        },
    decreases base, 2nat,
{
    let ghost e0 = edge_views(edges@);
    let ghost s0 = steps_view(steps@);
    match &base.kind {
        ExprKind::Ref(Ref::SelfNode(_)) => {
            assert(e0 + seq![] =~= e0);
            assert(s0 + seq![] =~= s0);
            None
        },
        ExprKind::Ref(Ref::Path(path)) => {
            assert(e0 + seq![] =~= e0);
            assert(s0 + seq![] =~= s0);
            let p = path_str(path);
            Some(canonicalize(ws, p.as_str(), module))
        },
        _ => {
            trace_expr(ws, base, owner, module, edges, steps);
            None
        },
    }
}

/// Emits the step of a `.method(..)` segment over a base naming `target`,
/// and its `Call` edge when the target is another node than the owner.
fn emit_call(target: &Option<String>, seg: &PostfixSeg, owner: &str, edges: &mut Vec<Edge>, steps: &mut Vec<Step>)
    ensures
        edge_views(final(edges)@) == edge_views(old(edges)@) + call_edge(owner@, opt_str(*target), *seg),
        steps_view(final(steps)@) == steps_view(old(steps)@).push(call_step(opt_str(*target), *seg)),
{
    let ghost e0 = edge_views(edges@);
    match target {
        Some(t) => {
            push_step(steps, Step::Call { target_fqn: t.clone(), method: seg.name.name.clone() });
            if !crate::strs::str_eq(t.as_str(), owner) {
                push_edge(edges, String::from_str(owner), t.clone(), EdgeKind::Call, seg.name.name.clone(), seg.span);
                assert(edge_views(edges@) =~= e0 + call_edge(owner@, opt_str(*target), *seg));
            } else {
                assert(e0 + seq![] =~= e0);
            }
        },
        None => {
            push_step(steps, Step::SelfCall { method: seg.name.name.clone() });
            assert(e0 + seq![] =~= e0);
        },
    }
}

/// Appends the edges and steps of postfix segments over a base naming
/// `target`: each call's arguments, then the call.
fn trace_segs(
    ws: &Workspace,
    target: &Option<String>,
    segments: &Vec<PostfixSeg>,
    owner: &str,
    module: &str,
    edges: &mut Vec<Edge>,
    steps: &mut Vec<Step>,
)
    ensures
        edge_views(final(edges)@) == edge_views(old(edges)@) + segs_edges(
            sym_views(ws.index_seq()),
            owner@,
            module@,
            opt_str(*target),
            segments@,
        ),
        steps_view(final(steps)@) == steps_view(old(steps)@) + segs_steps(sym_views(ws.index_seq()), module@, opt_str(*target), segments@),
    decreases segments, 0nat,
{
    let ghost idx = sym_views(ws.index_seq());
    let ghost e1 = edge_views(edges@);
    let ghost s1 = steps_view(steps@);
    let ghost tv = opt_str(*target);
    let mut i: usize = 0;
    assert(segments@.subrange(0, 0) =~= seq![]);
    assert(e1 + segs_edges(idx, owner@, module@, tv, segments@.subrange(0, 0)) =~= e1);
    assert(s1 + segs_steps(idx, module@, tv, segments@.subrange(0, 0)) =~= s1);
    while i < segments.len()
        invariant
            i <= segments@.len(),
            idx == sym_views(ws.index_seq()),
            tv == opt_str(*target),
            edge_views(edges@) == e1 + segs_edges(idx, owner@, module@, tv, segments@.subrange(0, i as int)),
            steps_view(steps@) == s1 + segs_steps(idx, module@, tv, segments@.subrange(0, i as int)),
        decreases segments@.len() - i,
    {
        let seg = &segments[i];
        proof {
            let t = segments@.subrange(0, i + 1);
            assert(t.subrange(0, t.len() - 1) =~= segments@.subrange(0, i as int));
        }
        match &seg.call_args {
            Some(args) => {
                proof {
                    assert(decreases_to!(*segments => segments@));
                    assert(decreases_to!(segments@ => segments@[i as int]));
                    assert(decreases_to!(segments@[i as int] => segments@[i as int].call_args));
                    assert(decreases_to!(segments@[i as int].call_args => segments@[i as int].call_args->0));
                }
                trace_exprs(ws, args, owner, module, edges, steps);
                emit_call(target, seg, owner, edges, steps);
            },
            None => {},
        }
        assert(edge_views(edges@) =~= e1 + segs_edges(idx, owner@, module@, tv, segments@.subrange(0, i + 1)));
        assert(steps_view(steps@) =~= s1 + segs_steps(idx, module@, tv, segments@.subrange(0, i + 1)));
        i = i + 1;
    }
    assert(segments@.subrange(0, segments@.len() as int) =~= segments@);
}

/// Appends the edges and steps an expression's calls contribute, left to
/// right.
fn trace_expr(ws: &Workspace, expr: &Expr, owner: &str, module: &str, edges: &mut Vec<Edge>, steps: &mut Vec<Step>)
    ensures
        edge_views(final(edges)@) == edge_views(old(edges)@) + expr_edges(sym_views(ws.index_seq()), owner@, module@, *expr),
        steps_view(final(steps)@) == steps_view(old(steps)@) + expr_steps(sym_views(ws.index_seq()), module@, *expr),
    decreases expr, 1nat,
{
    let ghost idx = sym_views(ws.index_seq());
    let ghost e0 = edge_views(edges@);
    let ghost s0 = steps_view(steps@);
    match &expr.kind {
        ExprKind::Postfix { base, segments } => {
            let target = trace_base(ws, base, owner, module, edges, steps);
            trace_segs(ws, &target, segments, owner, module, edges, steps);
            assert(edge_views(edges@) =~= e0 + expr_edges(idx, owner@, module@, *expr));
            assert(steps_view(steps@) =~= s0 + expr_steps(idx, module@, *expr));
        },
        ExprKind::From { ty, source } => {
            match source {
                FromSource::Compose(v) => trace_exprs(ws, v, owner, module, edges, steps),
                FromSource::Convert(b) => trace_expr(ws, b, owner, module, edges, steps),
            }
            let rp = resolve_path(&ty.name, module);
            let composed = canonicalize(ws, rp.as_str(), module);
            trace_provenance(ws, source.sources(), &composed, owner, module, edges);
            assert(edge_views(edges@) =~= e0 + expr_edges(idx, owner@, module@, *expr));
        },
        ExprKind::Marker { payload, .. } => {
            match payload {
                Some(p) => trace_expr(ws, p, owner, module, edges, steps),
                None => {
                    assert(e0 + seq![] =~= e0);
                    assert(s0 + seq![] =~= s0);
                },
            }
        },
        ExprKind::OwnCall { name, args } => {
            trace_exprs(ws, args, owner, module, edges, steps);
            push_step(steps, Step::SelfCall { method: name.name.clone() });
            assert(steps_view(steps@) =~= s0 + expr_steps(idx, module@, *expr));
        },
        ExprKind::Unary { expr: inner, .. } => trace_expr(ws, inner, owner, module, edges, steps),
        ExprKind::Paren(inner) => trace_expr(ws, inner, owner, module, edges, steps),
        ExprKind::Binary { left, right, .. } => {
            trace_expr(ws, left, owner, module, edges, steps);
            trace_expr(ws, right, owner, module, edges, steps);
            assert(edge_views(edges@) =~= e0 + expr_edges(idx, owner@, module@, *expr));
            assert(steps_view(steps@) =~= s0 + expr_steps(idx, module@, *expr));
        },
        ExprKind::Ref(_) => {
            assert(e0 + seq![] =~= e0);
            assert(s0 + seq![] =~= s0);
        },
        ExprKind::Literal(_) => {
            assert(e0 + seq![] =~= e0);
            assert(s0 + seq![] =~= s0);
        },
    }
}

/// The edges of a block's statements, appended, and its steps, returned.
fn trace_block(ws: &Workspace, block: &Block, owner: &str, module: &str, edges: &mut Vec<Edge>) -> (steps: Vec<Step>)
    ensures
        edge_views(final(edges)@) == edge_views(old(edges)@) + stmts_edges(sym_views(ws.index_seq()), owner@, module@, block.stmts@),
        steps_view(steps@) == stmts_steps(sym_views(ws.index_seq()), module@, block.stmts@),
    decreases block,
{
    let ghost idx = sym_views(ws.index_seq());
    let ghost e0 = edge_views(edges@);
    let ghost ss = block.stmts@;
    let mut steps: Vec<Step> = Vec::new();
    let mut i: usize = 0;
    assert(ss.subrange(0, 0) =~= seq![]);
    assert(e0 + stmts_edges(idx, owner@, module@, ss.subrange(0, 0)) =~= e0);
    assert(steps_view(steps@) =~= stmts_steps(idx, module@, ss.subrange(0, 0)));
    while i < block.stmts.len()
        invariant
            i <= ss.len(),
            ss == block.stmts@,
            idx == sym_views(ws.index_seq()),
            edge_views(edges@) == e0 + stmts_edges(idx, owner@, module@, ss.subrange(0, i as int)),
            steps_view(steps@) == stmts_steps(idx, module@, ss.subrange(0, i as int)),
        decreases ss.len() - i,
    {
        proof {
            assert(decreases_to!(*block => block.stmts));
            assert(decreases_to!(block.stmts => block.stmts@));
            assert(decreases_to!(block.stmts@ => block.stmts@[i as int]));
            let t = ss.subrange(0, i + 1);
            assert(t.subrange(0, t.len() - 1) =~= ss.subrange(0, i as int));
        }
        trace_stmt(ws, &block.stmts[i], owner, module, edges, &mut steps);
        assert(edge_views(edges@) =~= e0 + stmts_edges(idx, owner@, module@, ss.subrange(0, i + 1)));
        assert(steps_view(steps@) =~= stmts_steps(idx, module@, ss.subrange(0, i + 1)));
        i = i + 1;
    }
    assert(ss.subrange(0, ss.len() as int) =~= ss);
    steps
}

/// Appends the edges and steps of a statement.
fn trace_stmt(ws: &Workspace, stmt: &Stmt, owner: &str, module: &str, edges: &mut Vec<Edge>, out: &mut Vec<Step>)
    ensures
        edge_views(final(edges)@) == edge_views(old(edges)@) + stmt_edges(sym_views(ws.index_seq()), owner@, module@, *stmt),
        steps_view(final(out)@) == steps_view(old(out)@) + stmt_steps(sym_views(ws.index_seq()), module@, *stmt),
    decreases stmt,
{
    let ghost idx = sym_views(ws.index_seq());
    let ghost e0 = edge_views(edges@);
    let ghost s0 = steps_view(out@);
    match &stmt.kind {
        StmtKind::Assign { value, .. } => trace_expr(ws, value, owner, module, edges, out),
        StmtKind::Expr(value) => trace_expr(ws, value, owner, module, edges, out),
        StmtKind::Return(value) => {
            match value {
                Some(v) => trace_expr(ws, v, owner, module, edges, out),
                None => {
                    assert(e0 + seq![] =~= e0);
                },
            }
            push_step(out, Step::Return { marker: return_marker(value) });
            assert(steps_view(out@) =~= s0 + stmt_steps(idx, module@, *stmt));
        },
        StmtKind::If { cond, then_block, else_block } => {
            trace_expr(ws, cond, owner, module, edges, out);
            let then = trace_block(ws, then_block, owner, module, edges);
            let otherwise = match else_block {
                Some(b) => trace_block(ws, b, owner, module, edges),
                None => Vec::new(),
            };
            let ghost tv = steps_view(then@);
            let ghost ov = steps_view(otherwise@);
            assert(ov == match else_block {
                Some(b) => stmts_steps(idx, module@, b.stmts@),
                None => seq![],
            });
            push_step(out, Step::Alt { cond_label: expr_label(cond), then, otherwise });
            assert(edge_views(edges@) =~= e0 + stmt_edges(idx, owner@, module@, *stmt));
            assert(steps_view(out@) =~= s0 + stmt_steps(idx, module@, *stmt));
        },
        StmtKind::For { iter, body, .. } => {
            trace_expr(ws, iter, owner, module, edges, out);
            let inner = trace_block(ws, body, owner, module, edges);
            push_step(out, Step::Loop { cond_label: expr_label(iter), body: inner });
            assert(edge_views(edges@) =~= e0 + stmt_edges(idx, owner@, module@, *stmt));
            assert(steps_view(out@) =~= s0 + stmt_steps(idx, module@, *stmt));
        },
        StmtKind::While { cond, body } => {
            trace_expr(ws, cond, owner, module, edges, out);
            let inner = trace_block(ws, body, owner, module, edges);
            push_step(out, Step::Loop { cond_label: expr_label(cond), body: inner });
            assert(edge_views(edges@) =~= e0 + stmt_edges(idx, owner@, module@, *stmt));
            assert(steps_view(out@) =~= s0 + stmt_steps(idx, module@, *stmt));
        },
    }
}

// ----- nodes ----------------------------------------------------------------

/// The `for`-parent edge of a node: a container or component with a
/// parent links child to parent.
pub open spec fn parent_edge(fqn: Seq<char>, kind: NodeKind, parent: Option<Seq<char>>) -> Seq<EdgeView> {
    if (kind == NodeKind::Container || kind == NodeKind::Component) && parent is Some {
        seq![(fqn, parent->0, EdgeKind::ForParent, seq![], no_span())]
    } else {
        seq![]
    }
}

/// The `for`-parent edge a pushed node contributes.
pub open spec fn for_parent(nv: NodeView) -> Seq<EdgeView> {
    parent_edge(nv.0, nv.2, nv.3)
}

/// The visibility a `public` flag denotes.
pub open spec fn vis_of(is_public: bool) -> Visibility {
    if is_public {
        Visibility::Public
    } else {
        Visibility::Private
    }
}

/// The graph kind of a structural node kind.
pub open spec fn graph_kind(k: AstNodeKind) -> NodeKind {
    match k {
        AstNodeKind::Person => NodeKind::Person,
        AstNodeKind::System => NodeKind::System,
        AstNodeKind::Container => NodeKind::Container,
        AstNodeKind::Component => NodeKind::Component,
    }
}

/// A type in its source form: `Result<Order, Rejected>`, `Account[]`.
pub open spec fn type_text(t: Type) -> Seq<char>
    decreases t,
{
    path_text(t.name) + (if t.generics@.len() > 0 {
        "<"@ + types_text(t.generics@) + ">"@
    } else {
        seq![]
    }) + (if t.is_array {
        "[]"@
    } else {
        seq![]
    })
}

/// Types in source form, joined by `, `.
pub open spec fn types_text(ts: Seq<Type>) -> Seq<char>
    decreases ts,
{
    if ts.len() == 0 {
        seq![]
    } else if ts.len() == 1 {
        type_text(ts[0])
    } else {
        types_text(ts.subrange(0, ts.len() - 1)) + ", "@ + type_text(ts[ts.len() - 1])
    }
}

/// The rendered fields of a record.
pub open spec fn record_spec(fs: Seq<Field>) -> Seq<FieldView> {
    fs.map_values(|f: Field| (f.name.name@, type_text(f.ty)))
}

/// The disclosed shape of a `data` body.
pub open spec fn shape_of(body: DataBody) -> ShapeView {
    match body {
        DataBody::Record(fs) => ShapeView::Record(record_spec(fs@)),
        DataBody::Union(vs) => ShapeView::Union(
            vs@.map_values(
                |v: crate::ast::Variant|
                    (
                        v.name.name@,
                        match v.record {
                            Some(fs) => Some(record_spec(fs@)),
                            None => None,
                        },
                    ),
            ),
        ),
        DataBody::BlackBox => ShapeView::BlackBox,
    }
}

/// A callable's signature: its parameters and rendered return type.
pub open spec fn signature_spec(c: Callable) -> SigView {
    (
        c.params@.map_values(|p: Param| (p.name.name@, type_text(p.ty))),
        match c.return_ty {
            Some(t) => type_text(t),
            None => "void"@,
        },
    )
}

/// Lines joined by newlines, or nothing for no lines.
pub open spec fn lines_text(ls: Seq<String>) -> Option<Seq<char>> {
    if ls.len() == 0 {
        None
    } else {
        Some(crate::model::arch::joined(ls.map_values(|l: String| l@), "\n"@))
    }
}

/// A `///` block as documentation.
pub open spec fn doc_of(d: DocBlock) -> DocView {
    (lines_text(d.summary@), lines_text(d.extended@), d.tags@.map_values(|t: crate::ast::Tag| t.text@))
}

/// No documentation.
pub open spec fn no_doc() -> DocView {
    (None, None, seq![])
}

/// The node of a structural declaration.
pub open spec fn structural_view(module: Seq<char>, n: Node, is_public: bool, parent: Option<Seq<char>>, doc: DocBlock) -> NodeView {
    (
        qualified(module, n.name.name@),
        n.name.name@,
        graph_kind(n.kind),
        parent,
        module,
        vis_of(is_public),
        n.name.span,
        seq![],
        (None, None, doc_of(doc)),
    )
}

/// The node of a `data` type or hoisted record variant named `id`.
pub open spec fn data_view(module: Seq<char>, id: Ident, is_public: bool, enclosing: Option<Seq<char>>, shape: ShapeView, doc: DocView) -> NodeView {
    (qualified(module, id.name@), id.name@, NodeKind::Data, enclosing, module, vis_of(is_public), id.span, seq![], (None, Some(shape), doc))
}

/// A callable's FQN: its owner's, `::`, and its name.
pub open spec fn callable_fqn(owner: Seq<char>, c: Callable) -> Seq<char> {
    owner + "::"@ + c.name.name@
}

/// The first path argument of a macro argument list.
pub open spec fn first_path_arg(args: Seq<MacroArg>) -> Option<Seq<char>>
    decreases args.len(),
{
    if args.len() == 0 {
        None
    } else {
        match args[0] {
            MacroArg::Path(p) => Some(path_text(p)),
            _ => first_path_arg(args.drop_first()),
        }
    }
}

/// The event an `onevent` macro names, or nothing.
pub open spec fn onevent_arg(m: Macro) -> Seq<char> {
    match m.args {
        MacroArgs::List(a) => match first_path_arg(a@) {
            Some(t) => t,
            None => seq![],
        },
        _ => seq![],
    }
}

/// The trigger a macro denotes, by the last segment of its name.
pub open spec fn trigger_view_of(m: Macro) -> Option<TrigView> {
    if m.name.segments@.len() == 0 {
        None
    } else {
        let w = m.name.segments@.last().name@;
        if w == "onevent"@ {
            Some(("onevent"@, onevent_arg(m)))
        } else if w == "schedule"@ {
            Some(("schedule"@, seq![]))
        } else if w == "http"@ {
            Some(("http"@, seq![]))
        } else if w == "manual"@ {
            Some(("manual"@, seq![]))
        } else {
            None
        }
    }
}

/// The triggers among macros, in order.
pub open spec fn macros_triggers(ms: Seq<Macro>) -> Seq<TrigView>
    decreases ms.len(),
{
    if ms.len() == 0 {
        seq![]
    } else {
        macros_triggers(ms.drop_last()) + match trigger_view_of(ms.last()) {
            Some(t) => seq![t],
            None => seq![],
        }
    }
}

/// The node of a callable of the node `owner`.
pub open spec fn callable_view(owner: Seq<char>, module: Seq<char>, c: Callable) -> NodeView {
    (
        callable_fqn(owner, c),
        c.name.name@,
        NodeKind::Callable,
        Some(owner),
        module,
        vis_of(c.is_public),
        c.name.span,
        macros_triggers(c.macros@),
        (Some(signature_spec(c)), None, doc_of(c.doc)),
    )
}

/// The inbound edge of each trigger of the callable `fqn`.
pub open spec fn trigger_edges(fqn: Seq<char>, ts: Seq<TrigView>) -> Seq<EdgeView> {
    ts.map_values(|t: TrigView| (view_initiator(t), fqn, EdgeKind::Trigger, Seq::<char>::empty(), no_span()))
}

/// The canonical `for` parent of a node.
pub open spec fn parent_of(idx: Seq<SymView>, module: Seq<char>, n: Node) -> Option<Seq<char>> {
    match n.parent {
        Some(p) => Some(canon(idx, path_text(p), module)),
        None => None,
    }
}

/// The nodes a declaration pushes, in order: a structural node then its
/// body's; a `data` type then its hoisted record variants; none for a
/// constant. `enclosing` is the node the declaration is nested in.
pub open spec fn decl_pushes(idx: Seq<SymView>, module: Seq<char>, enclosing: Option<Seq<char>>, d: Decl) -> Seq<NodeView>
    decreases d,
{
    match d.kind {
        DeclKind::Person(n) => node_pushes(idx, module, n, d.is_public, None, d.doc),
        DeclKind::System(n) => node_pushes(idx, module, n, d.is_public, None, d.doc),
        DeclKind::Container(n) => node_pushes(idx, module, n, d.is_public, parent_of(idx, module, n), d.doc),
        DeclKind::Component(n) => node_pushes(idx, module, n, d.is_public, parent_of(idx, module, n), d.doc),
        DeclKind::Data(data) => seq![data_view(module, data.name, d.is_public, enclosing, shape_of(data.body), doc_of(d.doc))] + match data.body {
            DataBody::Union(vs) => variant_pushes(module, vs@, d.is_public, enclosing),
            _ => seq![],
        },
        DeclKind::Constant(_) => seq![],
    }
}

/// The nodes of the hoisted record variants of a union.
pub open spec fn variant_pushes(module: Seq<char>, vs: Seq<crate::ast::Variant>, is_public: bool, enclosing: Option<Seq<char>>) -> Seq<NodeView>
    decreases vs.len(),
{
    if vs.len() == 0 {
        seq![]
    } else {
        variant_pushes(module, vs.drop_last(), is_public, enclosing) + match vs.last().record {
            Some(fs) => seq![data_view(module, vs.last().name, is_public, enclosing, ShapeView::Record(record_spec(fs@)), no_doc())],
            None => seq![],
        }
    }
}

/// The nodes a structural node pushes: itself, then its body's.
pub open spec fn node_pushes(idx: Seq<SymView>, module: Seq<char>, n: Node, is_public: bool, parent: Option<Seq<char>>, doc: DocBlock) -> Seq<NodeView>
    decreases n,
{
    seq![structural_view(module, n, is_public, parent, doc)] + match n.body {
        Some(ms) => members_pushes(idx, module, qualified(module, n.name.name@), ms@),
        None => seq![],
    }
}

/// The nodes body members of `owner` push, in order.
pub open spec fn members_pushes(idx: Seq<SymView>, module: Seq<char>, owner: Seq<char>, ms: Seq<BodyMember>) -> Seq<NodeView>
    decreases ms,
{
    if ms.len() == 0 {
        seq![]
    } else {
        members_pushes(idx, module, owner, ms.subrange(0, ms.len() - 1)) + match ms[ms.len() - 1] {
            BodyMember::Decl(d) => decl_pushes(idx, module, Some(owner), d),
            BodyMember::Callable(c) => seq![callable_view(owner, module, c)],
        }
    }
}

/// The edges a declaration contributes, in order.
pub open spec fn decl_edges(idx: Seq<SymView>, module: Seq<char>, d: Decl) -> Seq<EdgeView>
    decreases d,
{
    match d.kind {
        DeclKind::Person(n) => node_edges(idx, module, n, d.is_public, None),
        DeclKind::System(n) => node_edges(idx, module, n, d.is_public, None),
        DeclKind::Container(n) => node_edges(idx, module, n, d.is_public, parent_of(idx, module, n)),
        DeclKind::Component(n) => node_edges(idx, module, n, d.is_public, parent_of(idx, module, n)),
        DeclKind::Data(_) => seq![],
        DeclKind::Constant(_) => seq![],
    }
}

/// The edges a structural node contributes: its `for`-parent link, then
/// its body's.
pub open spec fn node_edges(idx: Seq<SymView>, module: Seq<char>, n: Node, is_public: bool, parent: Option<Seq<char>>) -> Seq<EdgeView>
    decreases n,
{
    parent_edge(qualified(module, n.name.name@), graph_kind(n.kind), parent) + match n.body {
        Some(ms) => members_edges(idx, module, qualified(module, n.name.name@), ms@),
        None => seq![],
    }
}

/// The edges body members of `owner` contribute, in order.
pub open spec fn members_edges(idx: Seq<SymView>, module: Seq<char>, owner: Seq<char>, ms: Seq<BodyMember>) -> Seq<EdgeView>
    decreases ms,
{
    if ms.len() == 0 {
        seq![]
    } else {
        members_edges(idx, module, owner, ms.subrange(0, ms.len() - 1)) + match ms[ms.len() - 1] {
            BodyMember::Decl(d) => decl_edges(idx, module, d),
            BodyMember::Callable(c) => trigger_edges(callable_fqn(owner, c), macros_triggers(c.macros@)) + match c.body {
                Some(b) => stmts_edges(idx, owner, module, b.stmts@),
                None => seq![],
            },
        }
    }
}

/// The nodes a module's items push, in order; features push none.
pub open spec fn items_pushes(idx: Seq<SymView>, module: Seq<char>, items: Seq<Item>) -> Seq<NodeView>
    decreases items.len(),
{
    if items.len() == 0 {
        seq![]
    } else {
        items_pushes(idx, module, items.drop_last()) + match items.last() {
            Item::Decl(d) => decl_pushes(idx, module, None, d),
            Item::Feature(_) => seq![],
        }
    }
}

/// The edges a module's items contribute, in order.
pub open spec fn items_edges(idx: Seq<SymView>, module: Seq<char>, items: Seq<Item>) -> Seq<EdgeView>
    decreases items.len(),
{
    if items.len() == 0 {
        seq![]
    } else {
        items_edges(idx, module, items.drop_last()) + match items.last() {
            Item::Decl(d) => decl_edges(idx, module, d),
            Item::Feature(_) => seq![],
        }
    }
}

/// The nodes the modules push, module after module.
pub open spec fn entries_pushes(idx: Seq<SymView>, es: Seq<ModuleEntry>) -> Seq<NodeView>
    decreases es.len(),
{
    if es.len() == 0 {
        seq![]
    } else {
        entries_pushes(idx, es.drop_last()) + items_pushes(idx, es.last().fqn@, es.last().ast.items@)
    }
}

/// The edges the modules contribute, module after module.
pub open spec fn entries_edges(idx: Seq<SymView>, es: Seq<ModuleEntry>) -> Seq<EdgeView>
    decreases es.len(),
{
    if es.len() == 0 {
        seq![]
    } else {
        entries_edges(idx, es.drop_last()) + items_edges(idx, es.last().fqn@, es.last().ast.items@)
    }
}

/// A callable's body trace as plain values: its FQN and its steps.
pub type BodyView = (Seq<char>, Seq<StepView>);

/// The plain-value views of body traces.
pub open spec fn body_views(bs: Seq<(String, Vec<Step>)>) -> Seq<BodyView> {
    bs.map_values(|b: (String, Vec<Step>)| (b.0@, steps_view(b.1@)))
}

/// The body traces a declaration records: one per disclosed callable.
pub open spec fn decl_bodies(idx: Seq<SymView>, module: Seq<char>, d: Decl) -> Seq<BodyView>
    decreases d,
{
    match d.kind {
        DeclKind::Person(n) => node_bodies(idx, module, n),
        DeclKind::System(n) => node_bodies(idx, module, n),
        DeclKind::Container(n) => node_bodies(idx, module, n),
        DeclKind::Component(n) => node_bodies(idx, module, n),
        DeclKind::Data(_) => seq![],
        DeclKind::Constant(_) => seq![],
    }
}

/// The body traces a structural node's body records.
pub open spec fn node_bodies(idx: Seq<SymView>, module: Seq<char>, n: Node) -> Seq<BodyView>
    decreases n,
{
    match n.body {
        Some(ms) => members_bodies(idx, module, qualified(module, n.name.name@), ms@),
        None => seq![],
    }
}

/// The body traces body members of `owner` record, in order.
pub open spec fn members_bodies(idx: Seq<SymView>, module: Seq<char>, owner: Seq<char>, ms: Seq<BodyMember>) -> Seq<BodyView>
    decreases ms,
{
    if ms.len() == 0 {
        seq![]
    } else {
        members_bodies(idx, module, owner, ms.subrange(0, ms.len() - 1)) + match ms[ms.len() - 1] {
            BodyMember::Decl(d) => decl_bodies(idx, module, d),
            BodyMember::Callable(c) => callable_body(idx, module, owner, c),
        }
    }
}

/// The body trace of a callable of `owner`, when it discloses a body.
pub open spec fn callable_body(idx: Seq<SymView>, module: Seq<char>, owner: Seq<char>, c: Callable) -> Seq<BodyView> {
    match c.body {
        Some(b) => seq![(callable_fqn(owner, c), stmts_steps(idx, module, b.stmts@))],
        None => seq![],
    }
}

/// The body traces a module's items record.
pub open spec fn items_bodies(idx: Seq<SymView>, module: Seq<char>, items: Seq<Item>) -> Seq<BodyView>
    decreases items.len(),
{
    if items.len() == 0 {
        seq![]
    } else {
        items_bodies(idx, module, items.drop_last()) + match items.last() {
            Item::Decl(d) => decl_bodies(idx, module, d),
            Item::Feature(_) => seq![],
        }
    }
}

/// The body traces the modules record, module after module.
pub open spec fn entries_bodies(idx: Seq<SymView>, es: Seq<ModuleEntry>) -> Seq<BodyView>
    decreases es.len(),
{
    if es.len() == 0 {
        seq![]
    } else {
        entries_bodies(idx, es.drop_last()) + items_bodies(idx, es.last().fqn@, es.last().ast.items@)
    }
}

/// The index of the first trace of `t` keyed `k`, or `-1`.
pub open spec fn first_key(t: Seq<BodyView>, k: Seq<char>) -> int
    decreases t.len(),
{
    if t.len() == 0 {
        -1
    } else if first_key(t.drop_last(), k) >= 0 {
        first_key(t.drop_last(), k)
    } else if t.last().0 == k {
        t.len() - 1
    } else {
        -1
    }
}

/// The traces after recording `kv`: it replaces the trace of the same
/// callable, or is appended.
pub open spec fn put(t: Seq<BodyView>, kv: BodyView) -> Seq<BodyView> {
    if first_key(t, kv.0) >= 0 {
        t.update(first_key(t, kv.0), kv)
    } else {
        t.push(kv)
    }
}

/// The traces after recording each of `ps` onto `t`.
pub open spec fn put_all(t: Seq<BodyView>, ps: Seq<BodyView>) -> Seq<BodyView>
    decreases ps.len(),
{
    if ps.len() == 0 {
        t
    } else {
        put(put_all(t, ps.drop_last()), ps.last())
    }
}

/// Recording `a` then `b` is recording `a + b`.
pub proof fn lemma_put_all_concat(t: Seq<BodyView>, a: Seq<BodyView>, b: Seq<BodyView>)
    ensures
        put_all(put_all(t, a), b) == put_all(t, a + b),
    decreases b.len(),
{
    if b.len() == 0 {
        assert(a + b =~= a);
    } else {
        lemma_put_all_concat(t, a, b.drop_last());
        assert((a + b).drop_last() =~= a + b.drop_last());
        assert((a + b).last() == b.last());
    }
}

/// Recording one trace.
pub proof fn lemma_put_one(t: Seq<BodyView>, x: BodyView)
    ensures
        put_all(t, seq![x]) == put(t, x),
{
    assert(seq![x].drop_last() =~= Seq::<BodyView>::empty());
    assert(put_all(t, Seq::<BodyView>::empty()) == t);
}

/// `first_key` is `-1` or the first index keyed `k`.
proof fn lemma_first_key(t: Seq<BodyView>, k: Seq<char>)
    ensures
        -1 <= first_key(t, k) < t.len(),
        first_key(t, k) >= 0 ==> t[first_key(t, k)].0 == k,
        forall|i: int| 0 <= i < t.len() && t[i].0 == k ==> 0 <= first_key(t, k) <= i,
    decreases t.len(),
{
    if t.len() > 0 {
        lemma_first_key(t.drop_last(), k);
        assert forall|i: int| 0 <= i < t.len() && t[i].0 == k implies 0 <= first_key(t, k) <= i by {
            if i < t.len() - 1 {
                assert(t.drop_last()[i] == t[i]);
            }
        }
    }
}

/// Records a callable's body trace, replacing an earlier trace of the same
/// callable.
fn put_body(bodies: &mut Vec<(String, Vec<Step>)>, fqn: String, steps: Vec<Step>)
    ensures
        body_views(final(bodies)@) == put(body_views(old(bodies)@), (fqn@, steps_view(steps@))),
{
    let ghost t = body_views(bodies@);
    proof {
        lemma_first_key(t, fqn@);
    }
    let mut i: usize = 0;
    while i < bodies.len() && !crate::strs::str_eq(bodies[i].0.as_str(), fqn.as_str())
        invariant
            i <= bodies@.len(),
            t == body_views(bodies@),
            forall|k: int| 0 <= k < i ==> bodies@[k].0@ != fqn@,
        decreases bodies@.len() - i,
    {
        i = i + 1;
    }
    let ghost kv = (fqn@, steps_view(steps@));
    if i < bodies.len() {
        assert(t[i as int].0 == fqn@);
        assert forall|k: int| 0 <= k < i implies t[k].0 != fqn@ by {
            assert(t[k].0 == bodies@[k].0@);
        }
        assert(first_key(t, fqn@) == i) by {
            if first_key(t, fqn@) < i {
                let q = first_key(t, fqn@);
                assert(t[q].0 == bodies@[q].0@);
            }
        }
        bodies.set(i, (fqn, steps));
        assert(body_views(bodies@) =~= t.update(i as int, kv));
    } else {
        assert(first_key(t, fqn@) == -1) by {
            if first_key(t, fqn@) >= 0 {
                let q = first_key(t, fqn@);
                assert(t[q].0 == bodies@[q].0@);
            }
        }
        bodies.push((fqn, steps));
        assert(body_views(bodies@) =~= t.push(kv));
    }
}

/// A scenario as plain values: name, target, module, span, doc, and the
/// steps' keywords and prose.
pub type ScenarioView = (Seq<char>, Seq<char>, Seq<char>, Span, DocView, Seq<(Seq<char>, Seq<char>)>);

/// The plain-value view of a scenario.
pub open spec fn scenario_view(sc: Scenario) -> ScenarioView {
    (sc.name@, sc.target_fqn@, sc.module@, sc.span, doc_view(sc.doc), sc.steps@.map_values(|st: ScenarioStep| (st.keyword@, st.text@)))
}

/// The plain-value views of scenarios.
pub open spec fn scenario_views(ss: Seq<Scenario>) -> Seq<ScenarioView> {
    ss.map_values(|sc: Scenario| scenario_view(sc))
}

/// The keyword of a step kind.
pub open spec fn step_word(k: StepKind) -> Seq<char> {
    match k {
        StepKind::Given => "given"@,
        StepKind::When => "when"@,
        StepKind::Then => "then"@,
        StepKind::And => "and"@,
        StepKind::But => "but"@,
    }
}

/// A step literal's text: a string literal without its surrounding quotes,
/// or the source form of a number or boolean.
pub open spec fn literal_text_of(l: Literal) -> Seq<char> {
    match l {
        Literal::String { raw, .. } => if raw@.len() >= 2 && raw@[0] == '"' && raw@.last() == '"' {
            raw@.subrange(1, raw@.len() - 1)
        } else {
            raw@
        },
        Literal::Number { raw, .. } => raw@,
        Literal::Bool { value, .. } => if value { "true"@ } else { "false"@ },
    }
}

/// The scenario a feature of `module` records.
pub open spec fn feature_view(idx: Seq<SymView>, module: Seq<char>, f: Feature) -> ScenarioView {
    (
        f.name.name@,
        canon(idx, path_text(f.target), module),
        module,
        f.name.span,
        doc_of(f.doc),
        f.steps@.map_values(|st: crate::ast::FeatureStep| (step_word(st.kind), literal_text_of(st.text))),
    )
}

/// The scenarios a module's items record, in order.
pub open spec fn items_scenarios(idx: Seq<SymView>, module: Seq<char>, items: Seq<Item>) -> Seq<ScenarioView>
    decreases items.len(),
{
    if items.len() == 0 {
        seq![]
    } else {
        items_scenarios(idx, module, items.drop_last()) + match items.last() {
            Item::Feature(f) => seq![feature_view(idx, module, f)],
            Item::Decl(_) => seq![],
        }
    }
}

/// The scenarios the modules record, module after module.
pub open spec fn entries_scenarios(idx: Seq<SymView>, es: Seq<ModuleEntry>) -> Seq<ScenarioView>
    decreases es.len(),
{
    if es.len() == 0 {
        seq![]
    } else {
        entries_scenarios(idx, es.drop_last()) + items_scenarios(idx, es.last().fqn@, es.last().ast.items@)
    }
}

/// The index of the first node view of `t` with FQN `f`, or `-1`.
pub open spec fn first_view(t: Seq<NodeView>, f: Seq<char>) -> int
    decreases t.len(),
{
    if t.len() == 0 {
        -1
    } else if first_view(t.drop_last(), f) >= 0 {
        first_view(t.drop_last(), f)
    } else if t.last().0 == f {
        t.len() - 1
    } else {
        -1
    }
}

/// The node table after pushing `nv`: it replaces the node of the same FQN
/// in place (the last declaration wins), or is appended.
pub open spec fn placed(t: Seq<NodeView>, nv: NodeView) -> Seq<NodeView> {
    if first_view(t, nv.0) >= 0 {
        t.update(first_view(t, nv.0), nv)
    } else {
        t.push(nv)
    }
}

/// The node table after pushing each of `ps` onto `t`.
pub open spec fn placed_all(t: Seq<NodeView>, ps: Seq<NodeView>) -> Seq<NodeView>
    decreases ps.len(),
{
    if ps.len() == 0 {
        t
    } else {
        placed(placed_all(t, ps.drop_last()), ps.last())
    }
}

/// Pushing one node.
pub proof fn lemma_placed_one(t: Seq<NodeView>, x: NodeView)
    ensures
        placed_all(t, seq![x]) == placed(t, x),
{
    assert(seq![x].drop_last() =~= Seq::<NodeView>::empty());
    assert(placed_all(t, Seq::<NodeView>::empty()) == t);
}

/// Pushing `a` then `b` is pushing `a + b`.
pub proof fn lemma_placed_all_concat(t: Seq<NodeView>, a: Seq<NodeView>, b: Seq<NodeView>)
    ensures
        placed_all(placed_all(t, a), b) == placed_all(t, a + b),
    decreases b.len(),
{
    if b.len() == 0 {
        assert(a + b =~= a);
    } else {
        lemma_placed_all_concat(t, a, b.drop_last());
        assert((a + b).drop_last() =~= a + b.drop_last());
        assert((a + b).last() == b.last());
    }
}

/// `first_view` is `-1` or the first index with FQN `f`.
proof fn lemma_first_view(t: Seq<NodeView>, f: Seq<char>)
    ensures
        -1 <= first_view(t, f) < t.len(),
        first_view(t, f) >= 0 ==> t[first_view(t, f)].0 == f,
        forall|i: int| 0 <= i < t.len() && t[i].0 == f ==> 0 <= first_view(t, f) <= i,
    decreases t.len(),
{
    if t.len() > 0 {
        lemma_first_view(t.drop_last(), f);
        assert forall|i: int| 0 <= i < t.len() && t[i].0 == f implies 0 <= first_view(t, f) <= i by {
            if i < t.len() - 1 {
                assert(t.drop_last()[i] == t[i]);
            }
        }
    }
}

/// Adds a node: a container or component with a parent first contributes
/// its `for`-parent edge; the node then replaces the node of the same FQN
/// in place, or is appended.
fn push_node(nodes: &mut Vec<GraphNode>, edges: &mut Vec<Edge>, node: GraphNode)
    ensures
        node_views(final(nodes)@) == placed(node_views(old(nodes)@), node_view(node)),
        edge_views(final(edges)@) == edge_views(old(edges)@) + for_parent(node_view(node)),
{
    let ghost e0 = edge_views(edges@);
    if node.kind == NodeKind::Container || node.kind == NodeKind::Component {
        match &node.parent {
            Some(p) => {
                push_edge(edges, node.fqn.clone(), p.clone(), EdgeKind::ForParent, String::new(), Span { start: 0, end: 0 });
            },
            None => {
                assert(e0 + seq![] =~= e0);
            },
        }
    } else {
        assert(e0 + seq![] =~= e0);
    }
    let ghost t = node_views(nodes@);
    proof {
        lemma_first_view(t, node.fqn@);
    }
    let mut i: usize = 0;
    while i < nodes.len() && !crate::strs::str_eq(nodes[i].fqn.as_str(), node.fqn.as_str())
        invariant
            i <= nodes@.len(),
            t == node_views(nodes@),
            forall|k: int| 0 <= k < i ==> nodes@[k].fqn@ != node.fqn@,
        decreases nodes@.len() - i,
    {
        i = i + 1;
    }
    if i < nodes.len() {
        assert(t[i as int].0 == node.fqn@);
        assert forall|k: int| 0 <= k < i implies t[k].0 != node.fqn@ by {
            assert(t[k] == node_view(nodes@[k]));
        }
        assert(first_view(t, node.fqn@) == i);
        nodes.set(i, node);
        assert(node_views(nodes@) =~= t.update(i as int, node_view(node)));
    } else {
        assert(first_view(t, node.fqn@) == -1) by {
            if first_view(t, node.fqn@) >= 0 {
                let k = first_view(t, node.fqn@);
                assert(t[k] == node_view(nodes@[k]));
            }
        }
        nodes.push(node);
        assert(node_views(nodes@) =~= t.push(node_view(node)));
    }
}

/// The first path argument of a macro argument list.
pub(crate) fn first_path(args: &Vec<MacroArg>) -> (r: Option<String>)
    ensures
        opt_str(r) == first_path_arg(args@),
{
    let mut i: usize = 0;
    assert(args@.skip(0) =~= args@);
    while i < args.len()
        invariant
            i <= args@.len(),
            first_path_arg(args@) == first_path_arg(args@.skip(i as int)),
        decreases args@.len() - i,
    {
        assert(args@.skip(i as int)[0] == args@[i as int]);
        match &args[i] {
            MacroArg::Path(p) => {
                return Some(path_str(p));
            },
            _ => {},
        }
        assert(args@.skip(i as int).drop_first() =~= args@.skip(i + 1));
        i = i + 1;
    }
    None
}

/// The trigger a macro denotes, if it is a trigger macro.
fn trigger_of(mac: &Macro) -> (r: Option<Trigger>)
    ensures
        r matches Some(t) ==> trigger_view_of(*mac) == Some(trig_view(t)),
        r is None ==> trigger_view_of(*mac) is None,
{
    let n = mac.name.segments.len();
    if n == 0 {
        return None;
    }
    let word = mac.name.segments[n - 1].name.as_str();
    if crate::strs::str_eq(word, "onevent") {
        let event = match &mac.args {
            MacroArgs::List(args) => first_path(args),
            _ => None,
        };
        let event_fqn = match event {
            Some(e) => e,
            None => String::new(),
        };
        Some(Trigger::OnEvent { event_fqn })
    } else if crate::strs::str_eq(word, "schedule") {
        Some(Trigger::Schedule)
    } else if crate::strs::str_eq(word, "http") {
        Some(Trigger::Http)
    } else if crate::strs::str_eq(word, "manual") {
        Some(Trigger::Manual)
    } else {
        None
    }
}

/// The triggers among `macros`, in order.
fn triggers_of(macros: &Vec<Macro>) -> (r: Vec<Trigger>)
    ensures
        r@.map_values(|t: Trigger| trig_view(t)) == macros_triggers(macros@),
{
    let mut r: Vec<Trigger> = Vec::new();
    let mut i: usize = 0;
    assert(r@.map_values(|t: Trigger| trig_view(t)) =~= macros_triggers(macros@.take(0)));
    while i < macros.len()
        invariant
            i <= macros@.len(),
            r@.map_values(|t: Trigger| trig_view(t)) == macros_triggers(macros@.take(i as int)),
        decreases macros@.len() - i,
    {
        assert(macros@.take(i + 1).drop_last() =~= macros@.take(i as int));
        let ghost before = r@.map_values(|t: Trigger| trig_view(t));
        match trigger_of(&macros[i]) {
            Some(t) => {
                r.push(t);
                assert(r@.map_values(|t: Trigger| trig_view(t)) =~= before.push(trig_view(t)));
            },
            None => {},
        }
        assert(r@.map_values(|t: Trigger| trig_view(t)) =~= macros_triggers(macros@.take(i + 1)));
        i = i + 1;
    }
    assert(macros@.take(macros@.len() as int) =~= macros@);
    r
}

/// A trigger's view names the trigger's initiator.
proof fn lemma_initiator(t: Trigger)
    ensures
        view_initiator(trig_view(t)) == initiator_of(t),
{
    reveal_strlit("onevent");
    reveal_strlit("schedule");
    reveal_strlit("http");
    reveal_strlit("manual");
    assert("onevent"@.len() == 7 && "schedule"@.len() == 8 && "http"@.len() == 4 && "manual"@.len() == 6);
}

/// The visibility a `public` flag denotes.
fn visibility(is_public: bool) -> (v: Visibility)
    ensures
        v == vis_of(is_public),
{
    if is_public {
        Visibility::Public
    } else {
        Visibility::Private
    }
}

/// Renders a type to its source form: `Result<Order, Rejected>`,
/// `Account[]`.
pub(crate) fn render_type(ty: &Type) -> (r: String)
    ensures
        r@ == type_text(*ty),
    decreases ty,
{
    let mut out = path_str(&ty.name);
    let ghost base = out@;
    let n = ty.generics.len();
    if n > 0 {
        out.append("<");
        let ghost open_ = out@;
        let mut i: usize = 0;
        assert(ty.generics@.subrange(0, 0) =~= seq![]);
        while i < n
            invariant
                i <= n == ty.generics@.len(),
                out@ == open_ + types_text(ty.generics@.subrange(0, i as int)),
            decreases n - i,
        {
            proof {
                assert(decreases_to!(*ty => ty.generics));
                assert(decreases_to!(ty.generics => ty.generics@));
                assert(decreases_to!(ty.generics@ => ty.generics@[i as int]));
                let t = ty.generics@.subrange(0, i + 1);
                assert(t.subrange(0, t.len() - 1) =~= ty.generics@.subrange(0, i as int));
            }
            if i > 0 {
                out.append(", ");
            }
            let one = render_type(&ty.generics[i]);
            out.append(one.as_str());
            proof {
                if i == 0 {
                    assert(ty.generics@.subrange(0, 1) =~= seq![ty.generics@[0]]);
                }
            }
            assert(out@ =~= open_ + types_text(ty.generics@.subrange(0, i + 1)));
            i = i + 1;
        }
        assert(ty.generics@.subrange(0, n as int) =~= ty.generics@);
        out.append(">");
    }
    if ty.is_array {
        out.append("[]");
    }
    assert(out@ =~= type_text(*ty));
    out
}

/// The rendered fields of a record.
fn record_fields(fields: &Vec<Field>) -> (r: Vec<DataField>)
    ensures
        fields_view(r@) == record_spec(fields@),
{
    let mut r: Vec<DataField> = Vec::new();
    let mut i: usize = 0;
    while i < fields.len()
        invariant
            i <= fields@.len(),
            fields_view(r@) == record_spec(fields@.take(i as int)),
        decreases fields@.len() - i,
    {
        let f = DataField { name: fields[i].name.name.clone(), ty: render_type(&fields[i].ty) };
        let ghost before = fields_view(r@);
        r.push(f);
        assert(fields_view(r@) =~= before.push((f.name@, f.ty@)));
        assert(record_spec(fields@.take(i + 1)) =~= record_spec(fields@.take(i as int)).push((fields@[i as int].name.name@, type_text(fields@[i as int].ty))));
        i = i + 1;
    }
    assert(fields@.take(fields@.len() as int) =~= fields@);
    r
}

/// The disclosed shape of a `data` body, with field types rendered.
fn data_shape(body: &DataBody) -> (r: DataShape)
    ensures
        shape_view(r) == shape_of(*body),
{
    match body {
        DataBody::Record(fields) => DataShape::Record { fields: record_fields(fields) },
        DataBody::Union(vs) => {
            let mut variants: Vec<DataVariant> = Vec::new();
            let ghost want = vs@.map_values(
                |v: crate::ast::Variant|
                    (
                        v.name.name@,
                        match v.record {
                            Some(fs) => Some(record_spec(fs@)),
                            None => None,
                        },
                    ),
            );
            let ghost vv = |v: DataVariant|
                (
                    v.name@,
                    match v.fields {
                        Some(fs) => Some(fields_view(fs@)),
                        None => None,
                    },
                );
            let mut i: usize = 0;
            while i < vs.len()
                invariant
                    i <= vs@.len(),
                    variants@.len() == i,
                    forall|k: int| 0 <= k < i ==> #[trigger] vv(variants@[k]) == want[k],
                    want.len() == vs@.len(),
                    want == vs@.map_values(
                        |v: crate::ast::Variant|
                            (
                                v.name.name@,
                                match v.record {
                                    Some(fs) => Some(record_spec(fs@)),
                                    None => None,
                                },
                            ),
                    ),
                    vv == (|v: DataVariant|
                        (
                            v.name@,
                            match v.fields {
                                Some(fs) => Some(fields_view(fs@)),
                                None => None,
                            },
                        )),
                decreases vs@.len() - i,
            {
                let fields = match &vs[i].record {
                    Some(fs) => Some(record_fields(fs)),
                    None => None,
                };
                let v = DataVariant { name: vs[i].name.name.clone(), fields };
                variants.push(v);
                assert(vv(variants@[i as int]) == want[i as int]);
                i = i + 1;
            }
            let r = DataShape::Union { variants };
            assert(variants@.map_values(vv) =~= want);
            r
        },
        DataBody::BlackBox => DataShape::BlackBox,
    }
}

/// A callable's signature: its parameters and rendered return type (`void`
/// when absent).
fn signature_of(c: &Callable) -> (r: Signature)
    ensures
        sig_view(r) == signature_spec(*c),
{
    let mut params: Vec<SigParam> = Vec::new();
    let mut i: usize = 0;
    while i < c.params.len()
        invariant
            i <= c.params@.len(),
            params@.map_values(|p: SigParam| (p.name@, p.ty@)) == c.params@.take(i as int).map_values(
                |p: Param| (p.name.name@, type_text(p.ty)),
            ),
        decreases c.params@.len() - i,
    {
        let p = SigParam { name: c.params[i].name.name.clone(), ty: render_type(&c.params[i].ty) };
        let ghost before = params@.map_values(|p: SigParam| (p.name@, p.ty@));
        params.push(p);
        assert(params@.map_values(|p: SigParam| (p.name@, p.ty@)) =~= before.push((p.name@, p.ty@)));
        assert(c.params@.take(i + 1).map_values(|p: Param| (p.name.name@, type_text(p.ty))) =~= c.params@.take(
            i as int,
        ).map_values(|p: Param| (p.name.name@, type_text(p.ty))).push(
            (c.params@[i as int].name.name@, type_text(c.params@[i as int].ty)),
        ));
        i = i + 1;
    }
    assert(c.params@.take(c.params@.len() as int) =~= c.params@);
    let ret = match &c.return_ty {
        Some(t) => render_type(t),
        None => String::from_str("void"),
    };
    Signature { params, ret }
}

/// Lines joined by newlines, or `None` for no lines.
fn join_lines(ls: &Vec<String>) -> (r: Option<String>)
    ensures
        opt_str(r) == lines_text(ls@),
{
    if ls.len() == 0 {
        return None;
    }
    let ghost all = ls@.map_values(|l: String| l@);
    let mut out = ls[0].clone();
    let mut i: usize = 1;
    assert(all.take(1) =~= seq![all[0]]);
    while i < ls.len()
        invariant
            1 <= i <= ls@.len(),
            all == ls@.map_values(|l: String| l@),
            out@ == crate::model::arch::joined(all.take(i as int), "\n"@),
        decreases ls@.len() - i,
    {
        out.append("\n");
        out.append(ls[i].as_str());
        assert(all.take(i + 1).drop_last() =~= all.take(i as int));
        i = i + 1;
    }
    assert(all.take(ls@.len() as int) =~= all);
    Some(out)
}

/// Lifts a `///` block into node documentation.
fn node_doc(d: &DocBlock) -> (r: NodeDoc)
    ensures
        doc_view(r) == doc_of(*d),
{
    let mut tags: Vec<String> = Vec::new();
    let mut i: usize = 0;
    while i < d.tags.len()
        invariant
            i <= d.tags@.len(),
            tags@.map_values(|t: String| t@) == d.tags@.take(i as int).map_values(|t: crate::ast::Tag| t.text@),
        decreases d.tags@.len() - i,
    {
        let ghost before = tags@.map_values(|t: String| t@);
        tags.push(d.tags[i].text.clone());
        assert(tags@.map_values(|t: String| t@) =~= before.push(d.tags@[i as int].text@));
        assert(d.tags@.take(i + 1).map_values(|t: crate::ast::Tag| t.text@) =~= d.tags@.take(i as int).map_values(
            |t: crate::ast::Tag| t.text@,
        ).push(d.tags@[i as int].text@));
        i = i + 1;
    }
    assert(d.tags@.take(d.tags@.len() as int) =~= d.tags@);
    NodeDoc { summary: join_lines(&d.summary), extended: join_lines(&d.extended), tags }
}

/// Adds a callable of the node `owner`: its node, the inbound edge of each
/// trigger, and the edges of its body's calls.
fn collect_callable(
    ws: &Workspace,
    nodes: &mut Vec<GraphNode>,
    edges: &mut Vec<Edge>,
    bodies: &mut Vec<(String, Vec<Step>)>,
    c: &Callable,
    owner: &str,
    module: &str,
)
    ensures
        body_views(final(bodies)@) == put_all(body_views(old(bodies)@), callable_body(sym_views(ws.index_seq()), module@, owner@, *c)),
        node_views(final(nodes)@) == placed(node_views(old(nodes)@), callable_view(owner@, module@, *c)),
        edge_views(final(edges)@) == edge_views(old(edges)@) + trigger_edges(
            callable_fqn(owner@, *c),
            macros_triggers(c.macros@),
        ) + match c.body {
            Some(b) => stmts_edges(sym_views(ws.index_seq()), owner@, module@, b.stmts@),
            None => seq![],
        },
{
    let ghost idx = sym_views(ws.index_seq());
    let ghost e0 = edge_views(edges@);
    let mut fqn = String::from_str(owner);
    fqn.append("::");
    fqn.append(c.name.name.as_str());
    let triggers = triggers_of(&c.macros);
    let ghost tv = triggers@.map_values(|t: Trigger| trig_view(t));
    let mut i: usize = 0;
    assert(trigger_edges(fqn@, tv.take(0)) =~= seq![]);
    assert(e0 + seq![] =~= e0);
    while i < triggers.len()
        invariant
            i <= triggers@.len(),
            tv == triggers@.map_values(|t: Trigger| trig_view(t)),
            edge_views(edges@) == e0 + trigger_edges(fqn@, tv.take(i as int)),
        decreases triggers@.len() - i,
    {
        let from = triggers[i].initiator();
        let ghost before = edge_views(edges@);
        push_edge(edges, from, fqn.clone(), EdgeKind::Trigger, String::new(), Span { start: 0, end: 0 });
        proof {
            lemma_initiator(triggers@[i as int]);
        }
        assert(trigger_edges(fqn@, tv.take(i + 1)) =~= trigger_edges(fqn@, tv.take(i as int)).push(
            (from@, fqn@, EdgeKind::Trigger, Seq::<char>::empty(), no_span()),
        ));
        i = i + 1;
    }
    assert(tv.take(triggers@.len() as int) =~= tv);
    let ghost e1 = edge_views(edges@);
    let node = GraphNode {
        fqn: fqn.clone(),
        name: c.name.name.clone(),
        kind: NodeKind::Callable,
        parent: Some(String::from_str(owner)),
        module: String::from_str(module),
        visibility: visibility(c.is_public),
        span: c.name.span,
        triggers,
        signature: Some(signature_of(c)),
        shape: None,
        doc: node_doc(&c.doc),
    };
    proof {
        reveal_strlit("::");
    }
    assert(node_view(node) == callable_view(owner@, module@, *c));
    push_node(nodes, edges, node);
    assert(edge_views(edges@) =~= e1);
    let ghost b0 = body_views(bodies@);
    match &c.body {
        Some(b) => {
            let steps = trace_block(ws, b, owner, module, edges);
            put_body(bodies, fqn, steps);
            proof {
                lemma_put_one(b0, (callable_fqn(owner@, *c), stmts_steps(idx, module@, b.stmts@)));
            }
        },
        None => {},
    }
    assert(edge_views(edges@) =~= e0 + trigger_edges(callable_fqn(owner@, *c), macros_triggers(c.macros@)) + match c.body {
        Some(b) => stmts_edges(idx, owner@, module@, b.stmts@),
        None => seq![],
    });
}

/// The graph kind of a structural node kind.
fn kind_of(k: AstNodeKind) -> (r: NodeKind)
    ensures
        r == graph_kind(k),
{
    match k {
        AstNodeKind::Person => NodeKind::Person,
        AstNodeKind::System => NodeKind::System,
        AstNodeKind::Container => NodeKind::Container,
        AstNodeKind::Component => NodeKind::Component,
    }
}

/// A copy of an optional string.
fn copy_opt(o: &Option<String>) -> (r: Option<String>)
    ensures
        opt_str(r) == opt_str(*o),
{
    match o {
        Some(s) => Some(s.clone()),
        None => None,
    }
}

/// Adds a structural node with `parent`, then its body's nodes and edges.
fn collect_node(
    ws: &Workspace,
    nodes: &mut Vec<GraphNode>,
    edges: &mut Vec<Edge>,
    node: &Node,
    is_public: bool,
    bodies: &mut Vec<(String, Vec<Step>)>,
    parent: Option<String>,
    doc: &DocBlock,
    module: &str,
)
    ensures
        body_views(final(bodies)@) == put_all(body_views(old(bodies)@), node_bodies(sym_views(ws.index_seq()), module@, *node)),
        node_views(final(nodes)@) == placed_all(node_views(old(nodes)@), node_pushes(sym_views(ws.index_seq()), module@, *node, is_public, opt_str(parent), *doc)),
        edge_views(final(edges)@) == edge_views(old(edges)@) + node_edges(sym_views(ws.index_seq()), module@, *node, is_public, opt_str(parent)),
    decreases node,
{
    let ghost idx = sym_views(ws.index_seq());
    let ghost n0 = node_views(nodes@);
    let ghost e0 = edge_views(edges@);
    let ghost pv = opt_str(parent);
    let ghost b1 = body_views(bodies@);
    let fqn = qualify(module, node.name.name.as_str());
    let g = GraphNode {
        fqn: fqn.clone(),
        name: node.name.name.clone(),
        kind: kind_of(node.kind),
        parent,
        module: String::from_str(module),
        visibility: visibility(is_public),
        span: node.name.span,
        triggers: Vec::new(),
        signature: None,
        shape: None,
        doc: node_doc(doc),
    };
    assert(node_view(g) =~= structural_view(module@, *node, is_public, pv, *doc));
    push_node(nodes, edges, g);
    let ghost n1 = node_views(nodes@);
    let ghost e1 = edge_views(edges@);
    proof {
        lemma_placed_one(n0, structural_view(module@, *node, is_public, pv, *doc));
    }
    match &node.body {
        None => {
            assert(node_pushes(idx, module@, *node, is_public, pv, *doc) =~= seq![structural_view(module@, *node, is_public, pv, *doc)]);
            assert(e1 + seq![] =~= e1);
            assert(put_all(b1, Seq::<BodyView>::empty()) == b1);
        },
        Some(body) => {
            proof {
                assert(decreases_to!(*node => node.body));
                assert(decreases_to!(node.body => node.body->0));
            }
            let ghost ms = body@;
            let mut i: usize = 0;
            assert(ms.subrange(0, 0) =~= seq![]);
            assert(placed_all(n1, members_pushes(idx, module@, fqn@, ms.subrange(0, 0))) == n1);
            assert(e1 + members_edges(idx, module@, fqn@, ms.subrange(0, 0)) =~= e1);
            assert(put_all(b1, members_bodies(idx, module@, fqn@, ms.subrange(0, 0))) == b1);
            while i < body.len()
                invariant
                    i <= ms.len(),
                    ms == body@,
                    node.body == Some(*body),
                    decreases_to!(*node => *body),
                    idx == sym_views(ws.index_seq()),
                    fqn@ == qualified(module@, node.name.name@),
                    node_views(nodes@) == placed_all(n1, members_pushes(idx, module@, fqn@, ms.subrange(0, i as int))),
                    edge_views(edges@) == e1 + members_edges(idx, module@, fqn@, ms.subrange(0, i as int)),
                    body_views(bodies@) == put_all(b1, members_bodies(idx, module@, fqn@, ms.subrange(0, i as int))),
                decreases ms.len() - i,
            {
                let ghost nb = node_views(nodes@);
                let ghost eb = edge_views(edges@);
                let ghost t = ms.subrange(0, i + 1);
                assert(t.subrange(0, t.len() - 1) =~= ms.subrange(0, i as int));
                match &body[i] {
                    BodyMember::Decl(inner) => {
                        proof {
                            assert(decreases_to!(*body => body@));
                            assert(decreases_to!(body@ => body@[i as int]));
                            assert(decreases_to!(body@[i as int] => *inner));
                        }
                        let enclosing = Some(fqn.clone());
                        collect_decl(ws, nodes, edges, bodies, inner, module, &enclosing);
                        proof {
                            lemma_put_all_concat(
                                b1,
                                members_bodies(idx, module@, fqn@, ms.subrange(0, i as int)),
                                decl_bodies(idx, module@, *inner),
                            );
                            assert(members_bodies(idx, module@, fqn@, t) == members_bodies(idx, module@, fqn@, ms.subrange(0, i as int)) + decl_bodies(idx, module@, *inner));
                            lemma_placed_all_concat(
                                n1,
                                members_pushes(idx, module@, fqn@, ms.subrange(0, i as int)),
                                decl_pushes(idx, module@, Some(fqn@), *inner),
                            );
                            assert(members_pushes(idx, module@, fqn@, t) == members_pushes(idx, module@, fqn@, ms.subrange(0, i as int)) + decl_pushes(idx, module@, Some(fqn@), *inner));
                        }
                    },
                    BodyMember::Callable(c) => {
                        collect_callable(ws, nodes, edges, bodies, c, fqn.as_str(), module);
                        proof {
                            lemma_put_all_concat(
                                b1,
                                members_bodies(idx, module@, fqn@, ms.subrange(0, i as int)),
                                callable_body(idx, module@, fqn@, *c),
                            );
                            assert(members_bodies(idx, module@, fqn@, t) == members_bodies(idx, module@, fqn@, ms.subrange(0, i as int)) + callable_body(idx, module@, fqn@, *c));
                            let one = seq![callable_view(fqn@, module@, *c)];
                            lemma_placed_one(nb, callable_view(fqn@, module@, *c));
                            lemma_placed_all_concat(n1, members_pushes(idx, module@, fqn@, ms.subrange(0, i as int)), one);
                            assert(members_pushes(idx, module@, fqn@, t) == members_pushes(idx, module@, fqn@, ms.subrange(0, i as int)) + one);
                        }
                    },
                }
                assert(edge_views(edges@) =~= e1 + members_edges(idx, module@, fqn@, ms.subrange(0, i + 1)));
                i = i + 1;
            }
            assert(ms.subrange(0, ms.len() as int) =~= ms);
            proof {
                lemma_placed_all_concat(
                    n0,
                    seq![structural_view(module@, *node, is_public, pv, *doc)],
                    members_pushes(idx, module@, fqn@, ms),
                );
            }
        },
    }
    assert(edge_views(edges@) =~= e0 + node_edges(idx, module@, *node, is_public, pv));
}

/// Adds a declaration's nodes and edges; `enclosing` is the node it is
/// nested in.
fn collect_decl(
    ws: &Workspace,
    nodes: &mut Vec<GraphNode>,
    edges: &mut Vec<Edge>,
    bodies: &mut Vec<(String, Vec<Step>)>,
    decl: &Decl,
    module: &str,
    enclosing: &Option<String>,
)
    ensures
        body_views(final(bodies)@) == put_all(body_views(old(bodies)@), decl_bodies(sym_views(ws.index_seq()), module@, *decl)),
        node_views(final(nodes)@) == placed_all(node_views(old(nodes)@), decl_pushes(sym_views(ws.index_seq()), module@, opt_str(*enclosing), *decl)),
        edge_views(final(edges)@) == edge_views(old(edges)@) + decl_edges(sym_views(ws.index_seq()), module@, *decl),
    decreases decl,
{
    let ghost idx = sym_views(ws.index_seq());
    let ghost n0 = node_views(nodes@);
    let ghost e0 = edge_views(edges@);
    match &decl.kind {
        DeclKind::Person(node) | DeclKind::System(node) => {
            proof {
                if decl.kind is Person {
                    assert(decreases_to!(decl.kind => decl.kind->Person_0));
                } else {
                    assert(decreases_to!(decl.kind => decl.kind->System_0));
                }
            }
            collect_node(ws, nodes, edges, node, decl.is_public, bodies, None, &decl.doc, module);
        },
        DeclKind::Container(node) | DeclKind::Component(node) => {
            proof {
                if decl.kind is Container {
                    assert(decreases_to!(decl.kind => decl.kind->Container_0));
                } else {
                    assert(decreases_to!(decl.kind => decl.kind->Component_0));
                }
            }
            let parent = match &node.parent {
                Some(p) => {
                    let ps = path_str(p);
                    Some(canonicalize(ws, ps.as_str(), module))
                },
                None => None,
            };
            collect_node(ws, nodes, edges, node, decl.is_public, bodies, parent, &decl.doc, module);
        },
        DeclKind::Data(data) => {
            let g = GraphNode {
                fqn: qualify(module, data.name.name.as_str()),
                name: data.name.name.clone(),
                kind: NodeKind::Data,
                parent: copy_opt(enclosing),
                module: String::from_str(module),
                visibility: visibility(decl.is_public),
                span: data.name.span,
                triggers: Vec::new(),
                signature: None,
                shape: Some(data_shape(&data.body)),
                doc: node_doc(&decl.doc),
            };
            assert(node_view(g) =~= data_view(module@, data.name, decl.is_public, opt_str(*enclosing), shape_of(data.body), doc_of(decl.doc)));
            push_node(nodes, edges, g);
            let ghost n1 = node_views(nodes@);
            let ghost one = seq![data_view(module@, data.name, decl.is_public, opt_str(*enclosing), shape_of(data.body), doc_of(decl.doc))];
            proof {
                lemma_placed_one(n0, data_view(module@, data.name, decl.is_public, opt_str(*enclosing), shape_of(data.body), doc_of(decl.doc)));
            }
            assert(edge_views(edges@) =~= e0);
            match &data.body {
                DataBody::Union(vs) => {
                    let mut i: usize = 0;
                    assert(vs@.take(0) =~= seq![]);
                    while i < vs.len()
                        invariant
                            i <= vs@.len(),
                            edge_views(edges@) == e0,
                            node_views(nodes@) == placed_all(n1, variant_pushes(module@, vs@.take(i as int), decl.is_public, opt_str(*enclosing))),
                        decreases vs@.len() - i,
                    {
                        assert(vs@.take(i + 1).drop_last() =~= vs@.take(i as int));
                        let ghost nb = node_views(nodes@);
                        if let Some(rec) = &vs[i].record {
                            let v = GraphNode {
                                fqn: qualify(module, vs[i].name.name.as_str()),
                                name: vs[i].name.name.clone(),
                                kind: NodeKind::Data,
                                parent: copy_opt(enclosing),
                                module: String::from_str(module),
                                visibility: visibility(decl.is_public),
                                span: vs[i].name.span,
                                triggers: Vec::new(),
                                signature: None,
                                shape: Some(DataShape::Record { fields: record_fields(rec) }),
                                doc: NodeDoc::default(),
                            };
                            assert(node_view(v) =~= data_view(module@, vs@[i as int].name, decl.is_public, opt_str(*enclosing), ShapeView::Record(record_spec(rec@)), no_doc()));
                            push_node(nodes, edges, v);
                            assert(edge_views(edges@) =~= e0);
                            proof {
                                let w = seq![data_view(module@, vs@[i as int].name, decl.is_public, opt_str(*enclosing), ShapeView::Record(record_spec(rec@)), no_doc())];
                                lemma_placed_one(nb, data_view(module@, vs@[i as int].name, decl.is_public, opt_str(*enclosing), ShapeView::Record(record_spec(rec@)), no_doc()));
                                assert(variant_pushes(module@, vs@.take(i + 1), decl.is_public, opt_str(*enclosing)) == variant_pushes(module@, vs@.take(i as int), decl.is_public, opt_str(*enclosing)) + w);
                                lemma_placed_all_concat(n1, variant_pushes(module@, vs@.take(i as int), decl.is_public, opt_str(*enclosing)), w);
                            }
                        } else {
                            assert(variant_pushes(module@, vs@.take(i + 1), decl.is_public, opt_str(*enclosing)) =~= variant_pushes(module@, vs@.take(i as int), decl.is_public, opt_str(*enclosing)));
                        }
                        i = i + 1;
                    }
                    assert(vs@.take(vs@.len() as int) =~= vs@);
                    proof {
                        lemma_placed_all_concat(n0, one, variant_pushes(module@, vs@, decl.is_public, opt_str(*enclosing)));
                    }
                },
                _ => {
                    assert(one + seq![] =~= one);
                },
            }
            assert(edge_views(edges@) =~= e0 + decl_edges(idx, module@, *decl));
            assert(put_all(body_views(bodies@), Seq::<BodyView>::empty()) == body_views(bodies@));
        },
        DeclKind::Constant(_) => {
            assert(e0 + seq![] =~= e0);
            assert(put_all(body_views(bodies@), Seq::<BodyView>::empty()) == body_views(bodies@));
        },
    }
}

/// A step literal's text: a string literal without its surrounding quotes,
/// or the source form of a number or boolean.
fn literal_text(l: &Literal) -> (r: String)
    ensures
        r@ == literal_text_of(*l),
{
    match l {
        Literal::String { raw, .. } => {
            let cs = crate::strs::chars_of(raw.as_str());
            let n = cs.len();
            if n >= 2 && cs[0] == '"' && cs[n - 1] == '"' {
                let mut inner: Vec<char> = Vec::new();
                let mut i: usize = 1;
                while i < n - 1
                    invariant
                        1 <= i <= n - 1,
                        n == cs@.len(),
                        inner@ == cs@.subrange(1, i as int),
                    decreases n - 1 - i,
                {
                    inner.push(cs[i]);
                    i = i + 1;
                    assert(inner@ =~= cs@.subrange(1, i as int));
                }
                crate::strs::string_of(&inner)
            } else {
                raw.clone()
            }
        },
        Literal::Number { raw, .. } => raw.clone(),
        Literal::Bool { value, .. } => if *value {
            String::from_str("true")
        } else {
            String::from_str("false")
        },
    }
}

/// Records a feature scenario against its canonicalised target node.
fn collect_feature(ws: &Workspace, scenarios: &mut Vec<Scenario>, feature: &Feature, module: &str)
    ensures
        scenario_views(final(scenarios)@) == scenario_views(old(scenarios)@).push(feature_view(sym_views(ws.index_seq()), module@, *feature)),
{
    let target = path_str(&feature.target);
    let target_fqn = canonicalize(ws, target.as_str(), module);
    let mut steps: Vec<ScenarioStep> = Vec::new();
    let mut i: usize = 0;
    while i < feature.steps.len()
        invariant
            i <= feature.steps@.len(),
            steps@.map_values(|st: ScenarioStep| (st.keyword@, st.text@)) == feature.steps@.take(i as int).map_values(
                |st: crate::ast::FeatureStep| (step_word(st.kind), literal_text_of(st.text)),
            ),
        decreases feature.steps@.len() - i,
    {
        let st = &feature.steps[i];
        let one = ScenarioStep { keyword: String::from_str(st.kind.keyword()), text: literal_text(&st.text) };
        let ghost before = steps@.map_values(|st: ScenarioStep| (st.keyword@, st.text@));
        steps.push(one);
        assert(steps@.map_values(|st: ScenarioStep| (st.keyword@, st.text@)) =~= before.push((one.keyword@, one.text@)));
        assert(feature.steps@.take(i + 1).map_values(|st: crate::ast::FeatureStep| (step_word(st.kind), literal_text_of(st.text)))
            =~= feature.steps@.take(i as int).map_values(|st: crate::ast::FeatureStep| (step_word(st.kind), literal_text_of(st.text))).push(
            (step_word(st.kind), literal_text_of(st.text)),
        ));
        i = i + 1;
    }
    assert(feature.steps@.take(feature.steps@.len() as int) =~= feature.steps@);
    let sc = Scenario {
        name: feature.name.name.clone(),
        target_fqn,
        module: String::from_str(module),
        span: feature.name.span,
        doc: node_doc(&feature.doc),
        steps,
    };
    let ghost before = scenario_views(scenarios@);
    scenarios.push(sc);
    assert(scenario_views(scenarios@) =~= before.push(scenario_view(sc)));
}

/// Adds a module's nodes and edges.
fn collect_module(
    ws: &Workspace,
    nodes: &mut Vec<GraphNode>,
    edges: &mut Vec<Edge>,
    bodies: &mut Vec<(String, Vec<Step>)>,
    scenarios: &mut Vec<Scenario>,
    entry: &ModuleEntry,
)
    ensures
        scenario_views(final(scenarios)@) == scenario_views(old(scenarios)@) + items_scenarios(sym_views(ws.index_seq()), entry.fqn@, entry.ast.items@),
        body_views(final(bodies)@) == put_all(body_views(old(bodies)@), items_bodies(sym_views(ws.index_seq()), entry.fqn@, entry.ast.items@)),
        node_views(final(nodes)@) == placed_all(node_views(old(nodes)@), items_pushes(sym_views(ws.index_seq()), entry.fqn@, entry.ast.items@)),
        edge_views(final(edges)@) == edge_views(old(edges)@) + items_edges(sym_views(ws.index_seq()), entry.fqn@, entry.ast.items@),
{
    let ghost idx = sym_views(ws.index_seq());
    let ghost n0 = node_views(nodes@);
    let ghost e0 = edge_views(edges@);
    let ghost items = entry.ast.items@;
    let ghost b0 = body_views(bodies@);
    let ghost c0 = scenario_views(scenarios@);
    let mut i: usize = 0;
    assert(items.take(0) =~= seq![]);
    assert(c0 + items_scenarios(idx, entry.fqn@, items.take(0)) =~= c0);
    assert(put_all(b0, items_bodies(idx, entry.fqn@, items.take(0))) == b0);
    assert(e0 + seq![] =~= e0);
    while i < entry.ast.items.len()
        invariant
            i <= items.len(),
            items == entry.ast.items@,
            idx == sym_views(ws.index_seq()),
            node_views(nodes@) == placed_all(n0, items_pushes(idx, entry.fqn@, items.take(i as int))),
            edge_views(edges@) == e0 + items_edges(idx, entry.fqn@, items.take(i as int)),
            body_views(bodies@) == put_all(b0, items_bodies(idx, entry.fqn@, items.take(i as int))),
            scenario_views(scenarios@) == c0 + items_scenarios(idx, entry.fqn@, items.take(i as int)),
        decreases items.len() - i,
    {
        assert(items.take(i + 1).drop_last() =~= items.take(i as int));
        match &entry.ast.items[i] {
            Item::Decl(d) => {
                collect_decl(ws, nodes, edges, bodies, d, entry.fqn.as_str(), &None);
                proof {
                    lemma_put_all_concat(b0, items_bodies(idx, entry.fqn@, items.take(i as int)), decl_bodies(idx, entry.fqn@, *d));
                    lemma_placed_all_concat(n0, items_pushes(idx, entry.fqn@, items.take(i as int)), decl_pushes(idx, entry.fqn@, None, *d));
                }
            },
            Item::Feature(f) => {
                collect_feature(ws, scenarios, f, entry.fqn.as_str());
                assert(items_pushes(idx, entry.fqn@, items.take(i + 1)) =~= items_pushes(idx, entry.fqn@, items.take(i as int)));
                assert(items_bodies(idx, entry.fqn@, items.take(i + 1)) =~= items_bodies(idx, entry.fqn@, items.take(i as int)));
            },
        }
        assert(edge_views(edges@) =~= e0 + items_edges(idx, entry.fqn@, items.take(i + 1)));
        assert(scenario_views(scenarios@) =~= c0 + items_scenarios(idx, entry.fqn@, items.take(i + 1)));
        i = i + 1;
    }
    assert(items.take(items.len() as int) =~= items);
}

/// The graph of a workspace: every node the modules declare (a later node
/// of an FQN replaces an earlier one in place), and every edge, in module
/// then source order.
pub open spec fn graph_of(ws: Workspace) -> (Seq<NodeView>, Seq<EdgeView>, Seq<BodyView>, Seq<ScenarioView>) {
    (
        placed_all(seq![], entries_pushes(sym_views(ws.index_seq()), ws.entry_seq())),
        entries_edges(sym_views(ws.index_seq()), ws.entry_seq()),
        put_all(seq![], entries_bodies(sym_views(ws.index_seq()), ws.entry_seq())),
        entries_scenarios(sym_views(ws.index_seq()), ws.entry_seq()),
    )
}

impl Graph {
    /// Builds the graph as a pure projection of a resolved workspace.
    pub fn build(ws: &Workspace) -> (g: Graph)
        ensures
            node_views(g.node_seq()) == graph_of(*ws).0,
            edge_views(g.edge_seq()) == graph_of(*ws).1,
            body_views(g.body_seq()) == graph_of(*ws).2,
            scenario_views(g.scenario_seq()) == graph_of(*ws).3,
    {
        let ghost idx = sym_views(ws.index_seq());
        let mut nodes: Vec<GraphNode> = Vec::new();
        let mut edges: Vec<Edge> = Vec::new();
        let mut bodies: Vec<(String, Vec<Step>)> = Vec::new();
        let mut scenarios: Vec<Scenario> = Vec::new();
        let entries = ws.modules();
        let ghost es = entries@;
        let mut i: usize = 0;
        assert(node_views(nodes@) =~= seq![]);
        assert(edge_views(edges@) =~= seq![]);
        assert(body_views(bodies@) =~= seq![]);
        assert(scenario_views(scenarios@) =~= seq![]);
        assert(es.take(0) =~= seq![]);
        while i < entries.len()
            invariant
                i <= es.len(),
                es == entries@,
                es == ws.entry_seq(),
                idx == sym_views(ws.index_seq()),
                node_views(nodes@) == placed_all(seq![], entries_pushes(idx, es.take(i as int))),
                edge_views(edges@) == entries_edges(idx, es.take(i as int)),
                body_views(bodies@) == put_all(seq![], entries_bodies(idx, es.take(i as int))),
                scenario_views(scenarios@) == entries_scenarios(idx, es.take(i as int)),
            decreases es.len() - i,
        {
            assert(es.take(i + 1).drop_last() =~= es.take(i as int));
            collect_module(ws, &mut nodes, &mut edges, &mut bodies, &mut scenarios, &entries[i]);
            proof {
                lemma_put_all_concat(seq![], entries_bodies(idx, es.take(i as int)), items_bodies(idx, es[i as int].fqn@, es[i as int].ast.items@));
                lemma_placed_all_concat(seq![], entries_pushes(idx, es.take(i as int)), items_pushes(idx, es[i as int].fqn@, es[i as int].ast.items@));
            }
            i = i + 1;
        }
        assert(es.take(es.len() as int) =~= es);
        Graph { nodes, edges, bodies, scenarios }
    }
}

/// Builds the graph of a workspace of `(fqn, source)` modules: each source
/// is parsed, and the graph is the projection of the workspace of the
/// parsed modules under their FQNs.
pub fn graph(modules: &Vec<WorkspaceModule>) -> (g: Graph)
    requires
        forall|i: int| 0 <= i < modules@.len() ==> encode_utf8((#[trigger] modules@[i]).source@).len() < u32::MAX,
    ensures
        exists|ws: Workspace|
            {
                &&& ws.entry_seq().len() == modules@.len()
                &&& forall|i: int| 0 <= i < modules@.len() ==> (#[trigger] ws.entry_seq()[i]).fqn@ == modules@[i].fqn@
                &&& crate::model::sources_parsed(modules@, ws.entry_seq())
                &&& node_views(g.node_seq()) == graph_of(ws).0
                &&& edge_views(g.edge_seq()) == graph_of(ws).1
                &&& body_views(g.body_seq()) == graph_of(ws).2
                &&& scenario_views(g.scenario_seq()) == graph_of(ws).3
            },
{
    let mut parsed: Vec<(String, crate::ast::Module)> = Vec::new();
    let mut i: usize = 0;
    while i < modules.len()
        invariant
            i <= modules@.len(),
            forall|k: int| 0 <= k < modules@.len() ==> encode_utf8((#[trigger] modules@[k]).source@).len() < u32::MAX,
            parsed@.len() == i,
            forall|k: int| 0 <= k < i ==> (#[trigger] parsed@[k]).0@ == modules@[k].fqn@,
            forall|k: int|
                0 <= k < i ==> crate::parser::parsed_from(encode_utf8(modules@[k].source@), (#[trigger] parsed@[k]).1),
        decreases modules@.len() - i,
    {
        let m = &modules[i];
        let src = m.source.as_str();
        assert(src.spec_bytes() == encode_utf8(modules@[i as int].source@));
        let p = crate::parser::parse(src);
        parsed.push((m.fqn.clone(), p.ast));
        i = i + 1;
    }
    let ghost pq = parsed@;
    let ws = Workspace::build(parsed);
    assert(crate::model::sources_parsed(modules@, ws.entry_seq())) by {
        assert forall|k: int| 0 <= k < modules@.len() implies crate::parser::parsed_from(
            encode_utf8(modules@[k].source@),
            (#[trigger] ws.entry_seq()[k]).ast,
        ) by {
            assert(ws.entry_seq()[k].ast == pq[k].1);
        }
    }
    let g = Graph::build(&ws);
    assert(forall|k: int| 0 <= k < modules@.len() ==> (#[trigger] ws.entry_seq()[k]).fqn@ == modules@[k].fqn@);
    g
}

// ----- laws -------------------------------------------------------------------

/// The FQNs of `t` are pairwise distinct.
pub open spec fn distinct_fqns(t: Seq<NodeView>) -> bool {
    forall|i: int, j: int| 0 <= i < j < t.len() ==> t[i].0 != t[j].0
}

/// The index of the last node of `ps` with FQN `f`, or `-1`.
pub open spec fn last_push(ps: Seq<NodeView>, f: Seq<char>) -> int
    decreases ps.len(),
{
    if ps.len() == 0 {
        -1
    } else if ps.last().0 == f {
        ps.len() - 1
    } else {
        last_push(ps.drop_last(), f)
    }
}

/// `last_push` is `-1` or an index of `ps`.
proof fn lemma_last_push(ps: Seq<NodeView>, f: Seq<char>)
    ensures
        -1 <= last_push(ps, f) < ps.len(),
    decreases ps.len(),
{
    if ps.len() > 0 {
        lemma_last_push(ps.drop_last(), f);
    }
}

/// `first_view` pinned down by its defining property.
proof fn lemma_first_view_is(s: Seq<NodeView>, f: Seq<char>, k: int)
    requires
        (0 <= k < s.len() && s[k].0 == f && forall|i: int| 0 <= i < k ==> s[i].0 != f) || (k == -1 && forall|i: int|
            0 <= i < s.len() ==> s[i].0 != f),
    ensures
        first_view(s, f) == k,
{
    lemma_first_view(s, f);
    if first_view(s, f) >= 0 {
        assert(s[first_view(s, f)].0 == f);
    }
}

/// Pushing one node keeps FQNs distinct, puts the node at its FQN's slot,
/// and leaves every other FQN's node where it was.
proof fn lemma_placed(t: Seq<NodeView>, nv: NodeView)
    requires
        distinct_fqns(t),
    ensures
        distinct_fqns(placed(t, nv)),
        first_view(placed(t, nv), nv.0) >= 0 && placed(t, nv)[first_view(placed(t, nv), nv.0)] == nv,
        forall|f: Seq<char>|
            f != nv.0 ==> first_view(#[trigger] placed(t, nv), f) == first_view(t, f) && (first_view(t, f) >= 0
                ==> placed(t, nv)[first_view(t, f)] == t[first_view(t, f)]),
{
    lemma_first_view(t, nv.0);
    let r = placed(t, nv);
    let k = first_view(t, nv.0);
    if k >= 0 {
        assert(r == t.update(k, nv));
        assert forall|i: int, j: int| 0 <= i < j < r.len() implies r[i].0 != r[j].0 by {
            assert(r[i].0 == t[i].0 && r[j].0 == t[j].0);
        }
        assert forall|i: int| 0 <= i < k implies r[i].0 != nv.0 by {
            assert(r[i].0 == t[i].0);
        }
        lemma_first_view_is(r, nv.0, k);
        assert forall|f: Seq<char>| f != nv.0 implies first_view(#[trigger] placed(t, nv), f) == first_view(t, f) && (first_view(t, f)
            >= 0 ==> placed(t, nv)[first_view(t, f)] == t[first_view(t, f)]) by {
            lemma_first_view(t, f);
            let j = first_view(t, f);
            if j >= 0 {
                assert forall|i: int| 0 <= i < j implies r[i].0 != f by {
                    assert(r[i].0 == t[i].0);
                }
                lemma_first_view_is(r, f, j);
            } else {
                assert forall|i: int| 0 <= i < r.len() implies r[i].0 != f by {
                    assert(r[i].0 == t[i].0);
                }
                lemma_first_view_is(r, f, -1);
            }
        }
    } else {
        assert(r == t.push(nv));
        assert forall|i: int, j: int| 0 <= i < j < r.len() implies r[i].0 != r[j].0 by {
            if j == t.len() {
                assert(r[i] == t[i]);
            } else {
                assert(r[i] == t[i] && r[j] == t[j]);
            }
        }
        assert forall|i: int| 0 <= i < t.len() implies r[i].0 != nv.0 by {
            assert(r[i] == t[i]);
        }
        lemma_first_view_is(r, nv.0, t.len() as int);
        assert forall|f: Seq<char>| f != nv.0 implies first_view(#[trigger] placed(t, nv), f) == first_view(t, f) && (first_view(t, f)
            >= 0 ==> placed(t, nv)[first_view(t, f)] == t[first_view(t, f)]) by {
            lemma_first_view(t, f);
            let j = first_view(t, f);
            if j >= 0 {
                assert forall|i: int| 0 <= i < j implies r[i].0 != f by {
                    assert(r[i] == t[i]);
                }
                lemma_first_view_is(r, f, j);
            } else {
                assert forall|i: int| 0 <= i < r.len() implies r[i].0 != f by {
                    if i < t.len() {
                        assert(r[i] == t[i]);
                    }
                }
                lemma_first_view_is(r, f, -1);
            }
        }
    }
}

/// Pushing nodes keeps FQNs distinct, and the last declaration wins: each
/// pushed FQN's slot holds its last push; other FQNs keep their nodes.
pub proof fn lemma_placed_all(t: Seq<NodeView>, ps: Seq<NodeView>)
    requires
        distinct_fqns(t),
    ensures
        distinct_fqns(placed_all(t, ps)),
        forall|f: Seq<char>|
            #![trigger last_push(ps, f)]
            last_push(ps, f) >= 0 ==> first_view(placed_all(t, ps), f) >= 0 && placed_all(t, ps)[first_view(
                placed_all(t, ps),
                f,
            )] == ps[last_push(ps, f)],
        forall|f: Seq<char>|
            #![trigger last_push(ps, f)]
            last_push(ps, f) == -1 ==> first_view(placed_all(t, ps), f) == first_view(t, f) && (first_view(t, f) >= 0
                ==> placed_all(t, ps)[first_view(t, f)] == t[first_view(t, f)]),
    decreases ps.len(),
{
    if ps.len() > 0 {
        let q = ps.drop_last();
        let x = ps.last();
        lemma_placed_all(t, q);
        lemma_placed(placed_all(t, q), x);
        assert forall|f: Seq<char>| last_push(ps, f) >= 0 implies first_view(placed_all(t, ps), f) >= 0
            && placed_all(t, ps)[first_view(placed_all(t, ps), f)] == ps[last_push(ps, f)] by {
            if f != x.0 {
                lemma_last_push(q, f);
                assert(last_push(ps, f) == last_push(q, f));
                assert(q[last_push(q, f)] == ps[last_push(ps, f)]);
                let r = placed(placed_all(t, q), x);
                assert(first_view(r, f) == first_view(placed_all(t, q), f));
            }
        }
        assert forall|f: Seq<char>| last_push(ps, f) == -1 implies first_view(placed_all(t, ps), f) == first_view(t, f)
            && (first_view(t, f) >= 0 ==> placed_all(t, ps)[first_view(t, f)] == t[first_view(t, f)]) by {
            assert(f != x.0);
            assert(last_push(q, f) == -1);
            let r = placed(placed_all(t, q), x);
            assert(first_view(r, f) == first_view(placed_all(t, q), f));
        }
    }
}

/// The nodes of a built graph have distinct FQNs, and a later declaration
/// of an FQN wins: the node under each declared FQN is its last
/// declaration; an undeclared FQN names no node.
pub proof fn lemma_graph_nodes(ws: Workspace)
    ensures
        distinct_fqns(graph_of(ws).0),
        forall|f: Seq<char>|
            #![trigger last_push(entries_pushes(sym_views(ws.index_seq()), ws.entry_seq()), f)]
            last_push(entries_pushes(sym_views(ws.index_seq()), ws.entry_seq()), f) >= 0 ==> first_view(graph_of(ws).0, f)
                >= 0 && graph_of(ws).0[first_view(graph_of(ws).0, f)] == entries_pushes(
                sym_views(ws.index_seq()),
                ws.entry_seq(),
            )[last_push(entries_pushes(sym_views(ws.index_seq()), ws.entry_seq()), f)],
        forall|f: Seq<char>|
            #![trigger last_push(entries_pushes(sym_views(ws.index_seq()), ws.entry_seq()), f)]
            last_push(entries_pushes(sym_views(ws.index_seq()), ws.entry_seq()), f) == -1 ==> first_view(graph_of(ws).0, f)
                == -1,
{
    let ps = entries_pushes(sym_views(ws.index_seq()), ws.entry_seq());
    lemma_placed_all(Seq::<NodeView>::empty(), ps);
    assert forall|f: Seq<char>| #![trigger last_push(ps, f)] last_push(ps, f) == -1 implies first_view(graph_of(ws).0, f) == -1 by {
        assert(first_view(Seq::<NodeView>::empty(), f) == -1);
    }
}

// ----- sequence traces -------------------------------------------------------

/// One step of a callable's ordered sequence trace. Calls in a chained
/// expression are separate steps, left to right; control flow becomes
/// `Alt` and `Loop` frames whose bodies are nested step lists.
#[derive(Debug, PartialEq, Eq)]
pub enum Step {
    /// A call to another node: `Target.method(..)`.
    Call { target_fqn: String, method: String },
    /// A call on the owner itself: `self.method(..)`, a method of a local
    /// value, or a bare `method(..)`.
    SelfCall { method: String },
    /// A `return`; `marker` is the constructor (`Ok`/`Err`/`Some`/`None`)
    /// of the returned expression, else empty.
    Return { marker: String },
    /// An `if`/`else` frame: the guard's label and the two arms' steps.
    Alt { cond_label: String, then: Vec<Step>, otherwise: Vec<Step> },
    /// A `for`/`while` frame: the condition or iterator label and the body.
    Loop { cond_label: String, body: Vec<Step> },
}

/// A step as plain values.
pub enum StepView {
    Call(Seq<char>, Seq<char>),
    SelfCall(Seq<char>),
    Return(Seq<char>),
    Alt(Seq<char>, Seq<StepView>, Seq<StepView>),
    Loop(Seq<char>, Seq<StepView>),
}

/// The plain-value view of a step.
pub open spec fn step_view(s: Step) -> StepView
    decreases s,
{
    match s {
        Step::Call { target_fqn, method } => StepView::Call(target_fqn@, method@),
        Step::SelfCall { method } => StepView::SelfCall(method@),
        Step::Return { marker } => StepView::Return(marker@),
        Step::Alt { cond_label, then, otherwise } => StepView::Alt(cond_label@, steps_view(then@), steps_view(otherwise@)),
        Step::Loop { cond_label, body } => StepView::Loop(cond_label@, steps_view(body@)),
    }
}

/// The plain-value views of steps.
pub open spec fn steps_view(ss: Seq<Step>) -> Seq<StepView>
    decreases ss,
{
    if ss.len() == 0 {
        seq![]
    } else {
        steps_view(ss.subrange(0, ss.len() - 1)).push(step_view(ss[ss.len() - 1]))
    }
}

/// Appending a step appends its view.
proof fn lemma_steps_push(ss: Seq<Step>, x: Step)
    ensures
        steps_view(ss.push(x)) == steps_view(ss).push(step_view(x)),
{
    let t = ss.push(x);
    assert(t.subrange(0, t.len() - 1) =~= ss);
}

/// Appends a step.
fn push_step(out: &mut Vec<Step>, x: Step)
    ensures
        steps_view(final(out)@) == steps_view(old(out)@).push(step_view(x)),
{
    proof {
        lemma_steps_push(out@, x);
    }
    out.push(x);
}

/// The keyword of a constructor.
pub open spec fn marker_word(k: MarkerKind) -> Seq<char> {
    match k {
        MarkerKind::OkMarker => "Ok"@,
        MarkerKind::ErrMarker => "Err"@,
        MarkerKind::SomeMarker => "Some"@,
        MarkerKind::NoneMarker => "None"@,
    }
}

/// The constructor marker of a returned expression, or nothing.
pub open spec fn marker_of(v: Option<Expr>) -> Seq<char> {
    match v {
        Some(e) => match e.kind {
            ExprKind::Marker { kind, .. } => marker_word(kind),
            _ => seq![],
        },
        None => seq![],
    }
}

/// The spelling of a unary operator.
pub open spec fn unary_word(op: UnaryOp) -> Seq<char> {
    match op {
        UnaryOp::Not => "!"@,
        UnaryOp::Neg => "-"@,
    }
}

/// The source text of a literal in a frame label.
pub open spec fn literal_label_of(l: Literal) -> Seq<char> {
    match l {
        Literal::String { raw, .. } => raw@,
        Literal::Number { raw, .. } => raw@,
        Literal::Bool { value, .. } => if value { "true"@ } else { "false"@ },
    }
}

/// The labels of postfix segments: `.name`, with `()` after a call.
pub open spec fn segs_label(segs: Seq<PostfixSeg>) -> Seq<char>
    decreases segs.len(),
{
    if segs.len() == 0 {
        seq![]
    } else {
        segs_label(segs.drop_last()) + "."@ + segs.last().name.name@ + if segs.last().call_args is Some {
            "()"@
        } else {
            seq![]
        }
    }
}

/// The source-shaped label of a condition or iterator expression.
pub open spec fn label_of(e: Expr) -> Seq<char>
    decreases e,
{
    match e.kind {
        ExprKind::Postfix { base, segments } => label_of(*base) + segs_label(segments@),
        ExprKind::Ref(Ref::SelfNode(_)) => "self"@,
        ExprKind::Ref(Ref::Path(p)) => path_text(p),
        ExprKind::Unary { op, expr, .. } => unary_word(op) + label_of(*expr),
        ExprKind::Binary { left, op, right, .. } => label_of(*left) + " "@ + bin_op_spelling(op)@ + " "@ + label_of(*right),
        ExprKind::Paren(inner) => "("@ + label_of(*inner) + ")"@,
        ExprKind::Literal(l) => literal_label_of(l),
        ExprKind::Marker { kind, .. } => marker_word(kind),
        ExprKind::From { ty, .. } => path_text(ty.name) + " from"@,
        ExprKind::OwnCall { name, .. } => name.name@ + "()"@,
    }
}

/// The source text of a literal in a frame label.
fn literal_label(l: &Literal) -> (r: String)
    ensures
        r@ == literal_label_of(*l),
{
    match l {
        Literal::String { raw, .. } => raw.clone(),
        Literal::Number { raw, .. } => raw.clone(),
        Literal::Bool { value, .. } => if *value {
            String::from_str("true")
        } else {
            String::from_str("false")
        },
    }
}

/// A short label for a condition or iterator expression: its source-shaped
/// text.
fn expr_label(e: &Expr) -> (r: String)
    ensures
        r@ == label_of(*e),
    decreases e,
{
    match &e.kind {
        ExprKind::Postfix { base, segments } => {
            let mut label = expr_label(base);
            let ghost l0 = label@;
            let mut i: usize = 0;
            assert(segments@.take(0) =~= seq![]);
            assert(l0 + segs_label(segments@.take(0)) =~= l0);
            while i < segments.len()
                invariant
                    i <= segments@.len(),
                    label@ == l0 + segs_label(segments@.take(i as int)),
                decreases segments@.len() - i,
            {
                assert(segments@.take(i + 1).drop_last() =~= segments@.take(i as int));
                label.append(".");
                label.append(segments[i].name.name.as_str());
                if segments[i].call_args.is_some() {
                    label.append("()");
                }
                assert(label@ =~= l0 + segs_label(segments@.take(i + 1)));
                i = i + 1;
            }
            assert(segments@.take(segments@.len() as int) =~= segments@);
            label
        },
        ExprKind::Ref(Ref::SelfNode(_)) => String::from_str("self"),
        ExprKind::Ref(Ref::Path(path)) => path_str(path),
        ExprKind::Unary { op, expr: inner, .. } => {
            let mut label = String::from_str(op.spelling());
            label.append(expr_label(inner).as_str());
            label
        },
        ExprKind::Binary { left, op, right, .. } => {
            let mut label = expr_label(left);
            label.append(" ");
            label.append(op.spelling());
            label.append(" ");
            label.append(expr_label(right).as_str());
            label
        },
        ExprKind::Paren(inner) => {
            let mut label = String::from_str("(");
            label.append(expr_label(inner).as_str());
            label.append(")");
            label
        },
        ExprKind::Literal(l) => literal_label(l),
        ExprKind::Marker { kind, .. } => String::from_str(kind.keyword()),
        ExprKind::From { ty, .. } => {
            let mut label = path_str(&ty.name);
            label.append(" from");
            label
        },
        ExprKind::OwnCall { name, .. } => {
            let mut label = name.name.clone();
            label.append("()");
            label
        },
    }
}

/// The constructor marker of a returned expression, or empty.
fn return_marker(v: &Option<Expr>) -> (r: String)
    ensures
        r@ == marker_of(*v),
{
    match v {
        Some(e) => match &e.kind {
            ExprKind::Marker { kind, .. } => String::from_str(kind.keyword()),
            _ => String::new(),
        },
        None => String::new(),
    }
}

} // verus!
