//! Architectural-principle lints over the resolved graph.
//!
//! Each violation is a `Warning` carrying a stable `PDS-ARCH-NNN` code and the
//! URL of the article that explains the principle.
//!
//! - **PDS-ARCH-001, facade bypass:** a cross-module call that lands on an
//!   internal `component` instead of its container's published face.
//! - **PDS-ARCH-002, cyclic dependency:** the module dependency graph (derived
//!   from `Call` edges) contains a cycle.
//! - **PDS-ARCH-003, system-boundary bypass:** a cross-`system` call whose
//!   target is a `container` of the other system.

use crate::diagnostic::{Diagnostic, Severity};
use crate::model::graph::{node_named, Edge, EdgeKind, Graph, GraphNode, NodeKind, lemma_first_node, first_node};
use crate::span::Span;
use vstd::prelude::*;
use vstd::string::{StrSliceExecFns, StringExecFns};

verus! {

/// Where the principle articles are published; each rule's article is this
/// base followed by the rule's slug.
pub const ARTICLE_BASE: &'static str = "https://github.com/flying-dice/pseudoscript/blob/main/docs/principles/";

/// PDS-ARCH-001's code.
pub const BACKDOOR_CODE: &'static str = "PDS-ARCH-001";

/// PDS-ARCH-001's article.
pub const BACKDOOR_SLUG: &'static str = "PDS-ARCH-001-backdooring-facade.md";

/// PDS-ARCH-002's code.
pub const CYCLE_CODE: &'static str = "PDS-ARCH-002";

/// PDS-ARCH-002's article.
pub const CYCLE_SLUG: &'static str = "PDS-ARCH-002-cyclic-dependency.md";

/// PDS-ARCH-003's code.
pub const BOUNDARY_CODE: &'static str = "PDS-ARCH-003";

/// PDS-ARCH-003's article.
pub const BOUNDARY_SLUG: &'static str = "PDS-ARCH-003-system-boundary.md";

/// A diagnostic as plain values: severity, span, code, code URL, message.
pub type DiagView = (Severity, Span, Option<Seq<char>>, Option<Seq<char>>, Seq<char>);

/// A finding as plain values: the module its call originates in, and its
/// diagnostic.
pub type FindingView = (Seq<char>, DiagView);

/// The view of an optional string.
pub open spec fn opt_view(o: Option<String>) -> Option<Seq<char>> {
    match o {
        Some(s) => Some(s@),
        None => None,
    }
}

/// The plain-value view of a diagnostic.
pub open spec fn diag_view(d: Diagnostic) -> DiagView {
    (d.severity, d.span, opt_view(d.code), opt_view(d.code_description), d.message@)
}

/// The warning a rule with `code` and article `slug` raises at `span`.
pub open spec fn warning_view(span: Span, code: Seq<char>, slug: Seq<char>, message: Seq<char>) -> DiagView {
    (Severity::Warning, span, Some(code), Some(ARTICLE_BASE@ + slug), message)
}

/// One lint finding, tagged with the module its span lies in.
pub struct Finding {
    /// The module the offending call originates in.
    pub module: String,
    /// The warning.
    pub diag: Diagnostic,
}

/// The plain-value view of a finding.
pub open spec fn finding_view(f: Finding) -> FindingView {
    (f.module@, diag_view(f.diag))
}

/// The plain-value views of a list of findings.
pub open spec fn finding_views(fs: Seq<Finding>) -> Seq<FindingView>
    decreases fs.len(),
{
    if fs.len() == 0 {
        seq![]
    } else {
        finding_views(fs.drop_last()).push(finding_view(fs.last()))
    }
}

/// Builds a `Warning` stamped with a rule's code and article URL.
fn warn(span: Span, message: &str, code: &str, slug: &str) -> (d: Diagnostic)
    ensures
        diag_view(d) == warning_view(span, code@, slug@, message@),
{
    let mut url = String::from_str(ARTICLE_BASE);
    url.append(slug);
    Diagnostic::warning(span, message).with_code(code).with_code_description(url.as_str())
}

/// The endpoints of a resolved `Call` edge: both ends name a graph node.
pub open spec fn call_ends(nodes: Seq<GraphNode>, e: Edge) -> Option<(GraphNode, GraphNode)> {
    if e.kind == EdgeKind::Call && node_named(nodes, e.from@) is Some && node_named(nodes, e.to@) is Some {
        Some((node_named(nodes, e.from@)->0, node_named(nodes, e.to@)->0))
    } else {
        None
    }
}

/// `out` with its findings' views.
proof fn lemma_views_push(fs: Seq<Finding>, f: Finding)
    ensures
        finding_views(fs.push(f)) == finding_views(fs).push(finding_view(f)),
{
    assert(fs.push(f).drop_last() =~= fs);
}

/// The endpoints of `e` when it is a resolved `Call` edge.
fn call_edge_ends<'a>(g: &'a Graph, e: &Edge) -> (r: Option<(&'a GraphNode, &'a GraphNode)>)
    ensures
        r matches Some((f, t)) ==> call_ends(g.node_seq(), *e) == Some((*f, *t)),
        r is None ==> call_ends(g.node_seq(), *e) is None,
{
    if e.kind != EdgeKind::Call {
        return None;
    }
    match g.node(e.from.as_str()) {
        None => None,
        Some(f) => match g.node(e.to.as_str()) {
            None => None,
            Some(t) => Some((f, t)),
        },
    }
}

// ----- PDS-ARCH-001 ---------------------------------------------------------

/// The facade-bypass message for a call into `target`.
pub open spec fn backdoor_message(target: Seq<char>) -> Seq<char> {
    "cross-module call reaches into internal component `"@ + target
        + "` — call its container's published face instead (facade/gateway)"@
}

/// The PDS-ARCH-001 finding of one edge: a `Call` into a `component`
/// declared in another module than its caller.
pub open spec fn backdoor_of(nodes: Seq<GraphNode>, e: Edge) -> Seq<FindingView> {
    match call_ends(nodes, e) {
        Some((f, t)) => if t.kind == NodeKind::Component && f.module@ != t.module@ {
            seq![(f.module@, warning_view(e.span, BACKDOOR_CODE@, BACKDOOR_SLUG@, backdoor_message(t.fqn@)))]
        } else {
            seq![]
        },
        None => seq![],
    }
}

/// The PDS-ARCH-001 findings of `edges`, in edge order.
pub open spec fn backdoors(nodes: Seq<GraphNode>, edges: Seq<Edge>) -> Seq<FindingView>
    decreases edges.len(),
{
    if edges.len() == 0 {
        seq![]
    } else {
        backdoors(nodes, edges.drop_last()) + backdoor_of(nodes, edges.last())
    }
}

/// Appends the PDS-ARCH-001 findings.
fn check_backdoor(g: &Graph, out: &mut Vec<Finding>)
    ensures
        finding_views(final(out)@) == finding_views(old(out)@) + backdoors(g.node_seq(), g.edge_seq()),
{
    let edges = g.edges();
    let mut i: usize = 0;
    assert(edges@.take(0) =~= seq![]);
    while i < edges.len()
        invariant
            i <= edges@.len(),
            edges@ == g.edge_seq(),
            finding_views(out@) == finding_views(old(out)@) + backdoors(g.node_seq(), edges@.take(i as int)),
        decreases edges@.len() - i,
    {
        let e = &edges[i];
        assert(edges@.take(i + 1).drop_last() =~= edges@.take(i as int));
        if let Some((f, t)) = call_edge_ends(g, e) {
            if t.kind == NodeKind::Component && !crate::strs::str_eq(f.module.as_str(), t.module.as_str()) {
                let mut message = String::from_str("cross-module call reaches into internal component `");
                message.append(t.fqn.as_str());
                message.append("` — call its container's published face instead (facade/gateway)");
                let diag = warn(e.span, message.as_str(), BACKDOOR_CODE, BACKDOOR_SLUG);
                let finding = Finding { module: f.module.clone(), diag };
                proof {
                    lemma_views_push(out@, finding);
                }
                out.push(finding);
            }
        }
        i = i + 1;
    }
    assert(edges@.take(edges@.len() as int) =~= edges@);
}

// ----- PDS-ARCH-003 ---------------------------------------------------------

/// The system reached by walking `parent` up from `fqn`, taking at most
/// `fuel` nodes.
pub open spec fn system_walk(nodes: Seq<GraphNode>, fqn: Seq<char>, fuel: nat) -> Option<Seq<char>>
    decreases fuel,
{
    if fuel == 0 {
        None
    } else {
        match node_named(nodes, fqn) {
            None => None,
            Some(n) => if n.kind == NodeKind::System {
                Some(n.fqn@)
            } else {
                match n.parent {
                    None => None,
                    Some(p) => system_walk(nodes, p@, (fuel - 1) as nat),
                }
            },
        }
    }
}

/// The enclosing `system` of the node `fqn`: walk `parent` up the nesting
/// (component, container, system). `None` when the node sits under no
/// system. A walk of distinct nodes has at most as many steps as there are
/// nodes, so a walk that has not reached a system by then has revisited a
/// node (a malformed `parent` cycle) and stops there.
pub open spec fn system_of_spec(nodes: Seq<GraphNode>, fqn: Seq<char>) -> Option<Seq<char>> {
    system_walk(nodes, fqn, nodes.len())
}

/// The enclosing `system` FQN of a node, as [`system_of_spec`] describes it.
fn system_of(g: &Graph, fqn: &str) -> (r: Option<String>)
    ensures
        opt_view(r) == system_of_spec(g.node_seq(), fqn@),
{
    let n = g.nodes().len();
    let mut cur = match g.node(fqn) {
        Some(node) => node,
        None => return None,
    };
    proof {
        lemma_first_node(g.node_seq(), fqn@);
    }
    let mut fuel: usize = n;
    // `cur` is the node the walk has reached with `fuel` nodes left to take.
    while fuel > 0
        invariant
            fuel <= n,
            n == g.node_seq().len(),
            node_named(g.node_seq(), cur.fqn@) == Some(*cur),
            system_walk(g.node_seq(), fqn@, n as nat) == system_walk(g.node_seq(), cur.fqn@, fuel as nat),
        decreases fuel,
    {
        if cur.kind == NodeKind::System {
            return Some(cur.fqn.clone());
        }
        let p = match &cur.parent {
            Some(p) => p,
            None => return None,
        };
        cur = match g.node(p.as_str()) {
            Some(node) => node,
            None => {
                assert(fuel > 0 ==> system_walk(g.node_seq(), p@, (fuel - 1) as nat) is None) by {
                    if fuel > 1 {
                        assert(system_walk(g.node_seq(), p@, (fuel - 1) as nat) == None::<Seq<char>>);
                    }
                }
                return None;
            },
        };
        proof {
            lemma_first_node(g.node_seq(), p@);
        }
        fuel = fuel - 1;
    }
    None
}

/// The system-boundary message for a call into `target`.
pub open spec fn boundary_message(target: Seq<char>) -> Seq<char> {
    "call crosses a system boundary into container `"@ + target
        + "` of another system — couple to the system's published face, not its containers"@
}

/// The PDS-ARCH-003 finding of one edge: a `Call` into a `container` whose
/// system differs from the caller's.
pub open spec fn boundary_of(nodes: Seq<GraphNode>, e: Edge) -> Seq<FindingView> {
    match call_ends(nodes, e) {
        Some((f, t)) => if t.kind == NodeKind::Container && system_of_spec(nodes, f.fqn@) is Some
            && system_of_spec(nodes, t.fqn@) is Some && system_of_spec(nodes, f.fqn@) != system_of_spec(
            nodes,
            t.fqn@,
        ) {
            seq![(f.module@, warning_view(e.span, BOUNDARY_CODE@, BOUNDARY_SLUG@, boundary_message(t.fqn@)))]
        } else {
            seq![]
        },
        None => seq![],
    }
}

/// The PDS-ARCH-003 findings of `edges`, in edge order.
pub open spec fn boundaries(nodes: Seq<GraphNode>, edges: Seq<Edge>) -> Seq<FindingView>
    decreases edges.len(),
{
    if edges.len() == 0 {
        seq![]
    } else {
        boundaries(nodes, edges.drop_last()) + boundary_of(nodes, edges.last())
    }
}

/// Appends the PDS-ARCH-003 findings.
fn check_system_boundary(g: &Graph, out: &mut Vec<Finding>)
    ensures
        finding_views(final(out)@) == finding_views(old(out)@) + boundaries(g.node_seq(), g.edge_seq()),
{
    let edges = g.edges();
    let mut i: usize = 0;
    assert(edges@.take(0) =~= seq![]);
    while i < edges.len()
        invariant
            i <= edges@.len(),
            edges@ == g.edge_seq(),
            finding_views(out@) == finding_views(old(out)@) + boundaries(g.node_seq(), edges@.take(i as int)),
        decreases edges@.len() - i,
    {
        let e = &edges[i];
        assert(edges@.take(i + 1).drop_last() =~= edges@.take(i as int));
        if let Some((f, t)) = call_edge_ends(g, e) {
            if t.kind == NodeKind::Container {
                let fs = system_of(g, f.fqn.as_str());
                let ts = system_of(g, t.fqn.as_str());
                if let (Some(fs), Some(ts)) = (fs, ts) {
                    if !crate::strs::str_eq(fs.as_str(), ts.as_str()) {
                        let mut message = String::from_str("call crosses a system boundary into container `");
                        message.append(t.fqn.as_str());
                        message.append(
                            "` of another system — couple to the system's published face, not its containers",
                        );
                        let diag = warn(e.span, message.as_str(), BOUNDARY_CODE, BOUNDARY_SLUG);
                        let finding = Finding { module: f.module.clone(), diag };
                        proof {
                            lemma_views_push(out@, finding);
                        }
                        out.push(finding);
                    }
                }
            }
        }
        i = i + 1;
    }
    assert(edges@.take(edges@.len() as int) =~= edges@);
}

// ----- PDS-ARCH-002 ---------------------------------------------------------

/// A module dependency arc: caller module, callee module, and the call site.
pub type ArcView = (Seq<char>, Seq<char>, Span);

/// The module arc of one edge: a resolved `Call` between nodes of different
/// modules.
pub open spec fn arc_of(nodes: Seq<GraphNode>, e: Edge) -> Seq<ArcView> {
    match call_ends(nodes, e) {
        Some((f, t)) => if f.module@ != t.module@ {
            seq![(f.module@, t.module@, e.span)]
        } else {
            seq![]
        },
        None => seq![],
    }
}

/// The module arcs of `edges`, in edge order.
pub open spec fn arcs_of(nodes: Seq<GraphNode>, edges: Seq<Edge>) -> Seq<ArcView>
    decreases edges.len(),
{
    if edges.len() == 0 {
        seq![]
    } else {
        arcs_of(nodes, edges.drop_last()) + arc_of(nodes, edges.last())
    }
}

/// The views of exec arcs.
pub open spec fn arc_views(v: Seq<(String, String, Span)>) -> Seq<ArcView> {
    v.map_values(|a: (String, String, Span)| (a.0@, a.1@, a.2))
}

/// The module arcs of the graph's edges.
fn collect_arcs(g: &Graph) -> (arcs: Vec<(String, String, Span)>)
    ensures
        arc_views(arcs@) == arcs_of(g.node_seq(), g.edge_seq()),
{
    let edges = g.edges();
    let mut arcs: Vec<(String, String, Span)> = Vec::new();
    let mut i: usize = 0;
    assert(edges@.take(0) =~= seq![]);
    assert(arc_views(arcs@) =~= seq![]);
    while i < edges.len()
        invariant
            i <= edges@.len(),
            edges@ == g.edge_seq(),
            arc_views(arcs@) == arcs_of(g.node_seq(), edges@.take(i as int)),
        decreases edges@.len() - i,
    {
        let e = &edges[i];
        assert(edges@.take(i + 1).drop_last() =~= edges@.take(i as int));
        if let Some((f, t)) = call_edge_ends(g, e) {
            if !crate::strs::str_eq(f.module.as_str(), t.module.as_str()) {
                let ghost before = arc_views(arcs@);
                arcs.push((f.module.clone(), t.module.clone(), e.span));
                assert(arc_views(arcs@) =~= before.push((f.module@, t.module@, e.span)));
            } else {
                assert(arc_of(g.node_seq(), *e) =~= seq![]);
            }
        }
        i = i + 1;
    }
    assert(edges@.take(edges@.len() as int) =~= edges@);
    arcs
}

/// Name order: lexicographic over characters. For UTF-8 text this is the
/// byte order the module names sort by.
pub open spec fn name_lt(a: Seq<char>, b: Seq<char>) -> bool
    decreases a.len(),
{
    if a.len() == 0 {
        b.len() > 0
    } else if b.len() == 0 {
        false
    } else if (a[0] as int) < (b[0] as int) {
        true
    } else if (a[0] as int) > (b[0] as int) {
        false
    } else {
        name_lt(a.drop_first(), b.drop_first())
    }
}

/// Name order is irreflexive, asymmetric and total.
pub proof fn lemma_name_total(a: Seq<char>, b: Seq<char>)
    ensures
        !name_lt(a, a),
        name_lt(a, b) ==> !name_lt(b, a),
        a != b ==> name_lt(a, b) || name_lt(b, a),
    decreases a.len(),
{
    if a.len() > 0 && b.len() > 0 {
        lemma_name_total(a.drop_first(), b.drop_first());
        if a != b && a[0] == b[0] {
            assert(a.drop_first() != b.drop_first()) by {
                if a.drop_first() == b.drop_first() {
                    assert(a =~= seq![a[0]] + a.drop_first());
                    assert(b =~= seq![b[0]] + b.drop_first());
                }
            }
        }
    }
    if a.len() > 0 {
        lemma_name_total(a.drop_first(), a.drop_first());
    }
    if a.len() == 0 && b.len() == 0 {
        assert(a =~= b);
    }
}

/// Name order is transitive.
pub proof fn lemma_name_trans(a: Seq<char>, b: Seq<char>, c: Seq<char>)
    requires
        name_lt(a, b),
        name_lt(b, c),
    ensures
        name_lt(a, c),
    decreases a.len(),
{
    if a.len() > 0 && b.len() > 0 && c.len() > 0 && a[0] == b[0] && b[0] == c[0] {
        lemma_name_trans(a.drop_first(), b.drop_first(), c.drop_first());
    }
}

/// Whether `a` comes before `b` in name order.
fn name_before(a: &str, b: &str) -> (r: bool)
    ensures
        r == name_lt(a@, b@),
{
    let x = crate::strs::chars_of(a);
    let y = crate::strs::chars_of(b);
    let mut i: usize = 0;
    assert(x@.skip(0) =~= x@ && y@.skip(0) =~= y@);
    while i < x.len() && i < y.len() && x[i] == y[i]
        invariant
            i <= x@.len() && i <= y@.len(),
            name_lt(a@, b@) == name_lt(x@.skip(i as int), y@.skip(i as int)),
            x@ == a@ && y@ == b@,
        decreases x@.len() - i,
    {
        assert(x@.skip(i as int).drop_first() =~= x@.skip(i + 1));
        assert(y@.skip(i as int).drop_first() =~= y@.skip(i + 1));
        i = i + 1;
    }
    if i == x.len() {
        i < y.len()
    } else if i == y.len() {
        false
    } else {
        assert(x@.skip(i as int)[0] == x@[i as int] && y@.skip(i as int)[0] == y@[i as int]);
        x[i] < y[i]
    }
}

/// Where `x` goes in `s` when inserted before the first name not below it.
pub open spec fn insert_pos(s: Seq<Seq<char>>, x: Seq<char>) -> nat
    decreases s.len(),
{
    if s.len() > 0 && name_lt(s[0], x) {
        1 + insert_pos(s.drop_first(), x)
    } else {
        0
    }
}

/// `s` with `x` added in name order, unless it is already present.
pub open spec fn with_name(s: Seq<Seq<char>>, x: Seq<char>) -> Seq<Seq<char>> {
    if s.contains(x) {
        s
    } else {
        s.insert(insert_pos(s, x) as int, x)
    }
}

/// The module names of `arcs`, each once, in name order.
pub open spec fn module_names(arcs: Seq<ArcView>) -> Seq<Seq<char>>
    decreases arcs.len(),
{
    if arcs.len() == 0 {
        seq![]
    } else {
        with_name(with_name(module_names(arcs.drop_last()), arcs.last().0), arcs.last().1)
    }
}

/// `insert_pos` is the count of leading names below `x`.
proof fn lemma_insert_pos(s: Seq<Seq<char>>, x: Seq<char>)
    ensures
        insert_pos(s, x) <= s.len(),
        forall|i: int| 0 <= i < insert_pos(s, x) ==> name_lt(#[trigger] s[i], x),
        insert_pos(s, x) < s.len() ==> !name_lt(s[insert_pos(s, x) as int], x),
    decreases s.len(),
{
    if s.len() > 0 && name_lt(s[0], x) {
        lemma_insert_pos(s.drop_first(), x);
        assert forall|i: int| 0 <= i < insert_pos(s, x) implies name_lt(#[trigger] s[i], x) by {
            if i > 0 {
                assert(s[i] == s.drop_first()[i - 1]);
            }
        }
    }
}

/// Adds `x` to the name-ordered list `names`.
fn add_name(names: &mut Vec<String>, x: &String)
    ensures
        final(names)@.map_values(|n: String| n@) == with_name(old(names)@.map_values(|n: String| n@), x@),
{
    let ghost before = names@.map_values(|n: String| n@);
    let mut i: usize = 0;
    while i < names.len()
        invariant
            i <= names@.len(),
            before == names@.map_values(|n: String| n@),
            forall|k: int| 0 <= k < i ==> names@[k]@ != x@,
        decreases names@.len() - i,
    {
        if names[i] == *x {
            assert(before[i as int] == x@);
            return;
        }
        i = i + 1;
    }
    assert(!before.contains(x@)) by {
        if before.contains(x@) {
            let k = choose|k: int| 0 <= k < before.len() && before[k] == x@;
            assert(names@[k]@ == x@);
        }
    }
    proof {
        lemma_insert_pos(before, x@);
    }
    let mut p: usize = 0;
    while p < names.len() && name_before(names[p].as_str(), x.as_str())
        invariant
            p <= names@.len(),
            before == names@.map_values(|n: String| n@),
            insert_pos(before, x@) <= before.len(),
            forall|k: int| 0 <= k < insert_pos(before, x@) ==> name_lt(#[trigger] before[k], x@),
            insert_pos(before, x@) < before.len() ==> !name_lt(before[insert_pos(before, x@) as int], x@),
            p <= insert_pos(before, x@),
        decreases names@.len() - p,
    {
        assert(before[p as int] == names@[p as int]@);
        p = p + 1;
    }
    assert(p == insert_pos(before, x@)) by {
        if p < insert_pos(before, x@) {
            assert(before[p as int] == names@[p as int]@);
            assert(name_lt(before[p as int], x@));
        }
    }
    names.insert(p, x.clone());
    assert(names@.map_values(|n: String| n@) =~= before.insert(p as int, x@));
}

/// The module names of `arcs`, each once, in name order.
fn collect_names(arcs: &Vec<(String, String, Span)>) -> (names: Vec<String>)
    ensures
        names@.map_values(|n: String| n@) == module_names(arc_views(arcs@)),
{
    let ghost all = arc_views(arcs@);
    let mut names: Vec<String> = Vec::new();
    let mut i: usize = 0;
    assert(names@.map_values(|n: String| n@) =~= module_names(all.take(0)));
    while i < arcs.len()
        invariant
            i <= arcs@.len(),
            all == arc_views(arcs@),
            names@.map_values(|n: String| n@) == module_names(all.take(i as int)),
        decreases arcs@.len() - i,
    {
        assert(all.take(i + 1).drop_last() =~= all.take(i as int));
        assert(all.take(i + 1).last() == (arcs@[i as int].0@, arcs@[i as int].1@, arcs@[i as int].2));
        add_name(&mut names, &arcs[i].0);
        add_name(&mut names, &arcs[i].1);
        i = i + 1;
    }
    assert(all.take(arcs@.len() as int) =~= all);
    names
}

/// Whether some arc runs from module `a` to module `b`.
pub open spec fn has_arc(arcs: Seq<ArcView>, a: Seq<char>, b: Seq<char>) -> bool {
    exists|k: int| 0 <= k < arcs.len() && (#[trigger] arcs[k]).0 == a && arcs[k].1 == b
}

/// Whether module `j` is reachable from module `i` (indices into `names`)
/// along arcs whose intermediate modules all have an index below `k`.
pub open spec fn reach_within(names: Seq<Seq<char>>, arcs: Seq<ArcView>, k: nat, i: int, j: int) -> bool
    decreases k,
{
    if k == 0 {
        i == j || has_arc(arcs, names[i], names[j])
    } else {
        reach_within(names, arcs, (k - 1) as nat, i, j) || (reach_within(names, arcs, (k - 1) as nat, i, k - 1)
            && reach_within(names, arcs, (k - 1) as nat, k - 1, j))
    }
}

/// Whether module `j` is reachable from module `i`.
pub open spec fn reaches(names: Seq<Seq<char>>, arcs: Seq<ArcView>, i: int, j: int) -> bool {
    reach_within(names, arcs, names.len(), i, j)
}

/// Whether modules `i` and `j` reach each other: they share a strongly
/// connected component.
pub open spec fn mutual(names: Seq<Seq<char>>, arcs: Seq<ArcView>, i: int, j: int) -> bool {
    reaches(names, arcs, i, j) && reaches(names, arcs, j, i)
}

/// `m` is an `n` by `n` matrix.
pub open spec fn square(m: Seq<Vec<bool>>, n: int) -> bool {
    m.len() == n && forall|i: int| 0 <= i < n ==> (#[trigger] m[i])@.len() == n
}

/// `m` is the arc matrix of `names` and `arcs`.
pub open spec fn arc_matrix(m: Seq<Vec<bool>>, names: Seq<Seq<char>>, arcs: Seq<ArcView>) -> bool {
    &&& square(m, names.len() as int)
    &&& forall|i: int, j: int|
        0 <= i < names.len() && 0 <= j < names.len() ==> (#[trigger] m[i]@[j]) == has_arc(arcs, names[i], names[j])
}

/// `m` holds `reach_within` at `k` for `names` and `arcs`.
pub open spec fn reach_matrix(m: Seq<Vec<bool>>, names: Seq<Seq<char>>, arcs: Seq<ArcView>, k: nat) -> bool {
    &&& square(m, names.len() as int)
    &&& forall|i: int, j: int|
        0 <= i < names.len() && 0 <= j < names.len() ==> (#[trigger] m[i]@[j]) == reach_within(names, arcs, k, i, j)
}

/// Whether some arc of `arcs` runs from `a` to `b`.
fn arc_exists(arcs: &Vec<(String, String, Span)>, a: &String, b: &String) -> (r: bool)
    ensures
        r == has_arc(arc_views(arcs@), a@, b@),
{
    let ghost av = arc_views(arcs@);
    let mut k: usize = 0;
    while k < arcs.len()
        invariant
            k <= arcs@.len(),
            av == arc_views(arcs@),
            forall|q: int| 0 <= q < k ==> !((#[trigger] av[q]).0 == a@ && av[q].1 == b@),
        decreases arcs@.len() - k,
    {
        assert(av[k as int] == (arcs@[k as int].0@, arcs@[k as int].1@, arcs@[k as int].2));
        if arcs[k].0 == *a && arcs[k].1 == *b {
            return true;
        }
        k = k + 1;
    }
    false
}

/// The arc matrix of `names` and `arcs`.
fn adjacency(names: &Vec<String>, arcs: &Vec<(String, String, Span)>) -> (m: Vec<Vec<bool>>)
    ensures
        arc_matrix(m@, names@.map_values(|n: String| n@), arc_views(arcs@)),
{
    let ghost nv = names@.map_values(|n: String| n@);
    let n = names.len();
    let mut m: Vec<Vec<bool>> = Vec::new();
    let mut i: usize = 0;
    while i < n
        invariant
            i <= n,
            n == names@.len(),
            nv == names@.map_values(|n: String| n@),
            m@.len() == i,
            forall|r: int| 0 <= r < i ==> (#[trigger] m@[r])@.len() == n,
            forall|r: int, c: int| 0 <= r < i && 0 <= c < n ==> (#[trigger] m@[r]@[c]) == has_arc(arc_views(arcs@), nv[r], nv[c]),
        decreases n - i,
    {
        let mut row: Vec<bool> = Vec::new();
        let mut j: usize = 0;
        while j < n
            invariant
                j <= n,
                i < n,
                n == names@.len(),
                nv == names@.map_values(|n: String| n@),
                row@.len() == j,
                forall|c: int| 0 <= c < j ==> (#[trigger] row@[c]) == has_arc(arc_views(arcs@), nv[i as int], nv[c]),
            decreases n - j,
        {
            row.push(arc_exists(arcs, &names[i], &names[j]));
            j = j + 1;
        }
        m.push(row);
        i = i + 1;
    }
    m
}

/// The reachability matrix: `reach_within` at the number of modules.
fn closure(names: &Vec<String>, arcs: &Vec<(String, String, Span)>, adj: &Vec<Vec<bool>>) -> (m: Vec<Vec<bool>>)
    requires
        arc_matrix(adj@, names@.map_values(|n: String| n@), arc_views(arcs@)),
    ensures
        reach_matrix(m@, names@.map_values(|n: String| n@), arc_views(arcs@), names@.len()),
{
    let ghost nv = names@.map_values(|n: String| n@);
    let ghost av = arc_views(arcs@);
    let n = names.len();
    // Step zero: a module reaches itself and its direct targets.
    let mut m: Vec<Vec<bool>> = Vec::new();
    let mut i: usize = 0;
    while i < n
        invariant
            i <= n,
            n == names@.len() == nv.len(),
            arc_matrix(adj@, nv, av),
            m@.len() == i,
            forall|r: int| 0 <= r < i ==> (#[trigger] m@[r])@.len() == n,
            forall|r: int, c: int| 0 <= r < i && 0 <= c < n ==> (#[trigger] m@[r]@[c]) == reach_within(nv, av, 0, r, c),
        decreases n - i,
    {
        let mut row: Vec<bool> = Vec::new();
        let mut j: usize = 0;
        while j < n
            invariant
                j <= n,
                i < n,
                n == names@.len() == nv.len(),
                arc_matrix(adj@, nv, av),
                row@.len() == j,
                forall|c: int| 0 <= c < j ==> (#[trigger] row@[c]) == reach_within(nv, av, 0, i as int, c),
            decreases n - j,
        {
            let a = adj[i][j];
            assert(a == adj@[i as int]@[j as int]);
            row.push(i == j || a);
            j = j + 1;
        }
        m.push(row);
        i = i + 1;
    }
    // Step k + 1 admits module k as an intermediate.
    let mut k: usize = 0;
    while k < n
        invariant
            k <= n,
            n == names@.len() == nv.len(),
            reach_matrix(m@, nv, av, k as nat),
        decreases n - k,
    {
        let mut next: Vec<Vec<bool>> = Vec::new();
        let mut i: usize = 0;
        while i < n
            invariant
                i <= n,
                k < n,
                n == names@.len() == nv.len(),
                reach_matrix(m@, nv, av, k as nat),
                next@.len() == i,
                forall|r: int| 0 <= r < i ==> (#[trigger] next@[r])@.len() == n,
                forall|r: int, c: int|
                    0 <= r < i && 0 <= c < n ==> (#[trigger] next@[r]@[c]) == reach_within(nv, av, (k + 1) as nat, r, c),
            decreases n - i,
        {
            let mut row: Vec<bool> = Vec::new();
            let mut j: usize = 0;
            while j < n
                invariant
                    j <= n,
                    i < n,
                    k < n,
                    n == names@.len() == nv.len(),
                    reach_matrix(m@, nv, av, k as nat),
                    row@.len() == j,
                    forall|c: int| 0 <= c < j ==> (#[trigger] row@[c]) == reach_within(nv, av, (k + 1) as nat, i as int, c),
                decreases n - j,
            {
                let direct = m[i][j];
                let via = m[i][k] && m[k][j];
                assert(direct == m@[i as int]@[j as int]);
                assert(m[i as int]@[k as int] == reach_within(nv, av, k as nat, i as int, k as int));
                assert(m[k as int]@[j as int] == reach_within(nv, av, k as nat, k as int, j as int));
                row.push(direct || via);
                j = j + 1;
            }
            next.push(row);
            i = i + 1;
        }
        m = next;
        k = k + 1;
    }
    m
}

/// Module `v` leads its component: no module of lower index shares it.
pub open spec fn leads(names: Seq<Seq<char>>, arcs: Seq<ArcView>, v: int) -> bool {
    forall|u: int| 0 <= u < v ==> !mutual(names, arcs, u, v)
}

/// The names of `v`'s component among the first `k` modules, in name order.
pub open spec fn members_upto(names: Seq<Seq<char>>, arcs: Seq<ArcView>, v: int, k: nat) -> Seq<Seq<char>>
    decreases k,
{
    if k == 0 {
        seq![]
    } else if mutual(names, arcs, v, k - 1) {
        members_upto(names, arcs, v, (k - 1) as nat).push(names[k - 1])
    } else {
        members_upto(names, arcs, v, (k - 1) as nat)
    }
}

/// The names of `v`'s strongly connected component, in name order.
pub open spec fn members(names: Seq<Seq<char>>, arcs: Seq<ArcView>, v: int) -> Seq<Seq<char>> {
    members_upto(names, arcs, v, names.len())
}

/// `parts` joined by `sep`.
pub open spec fn joined(parts: Seq<Seq<char>>, sep: Seq<char>) -> Seq<char>
    decreases parts.len(),
{
    if parts.len() == 0 {
        seq![]
    } else if parts.len() == 1 {
        parts[0]
    } else {
        joined(parts.drop_last(), sep) + sep + parts.last()
    }
}

/// The cycle message listing a component's modules.
pub open spec fn cycle_message(mods: Seq<Seq<char>>) -> Seq<char> {
    "modules form a dependency cycle ("@ + joined(mods, ", "@)
        + ") — break it by extracting a shared contract or inverting one dependency"@
}

/// An arc from module `a` to module `b`, both in `v`'s component.
pub open spec fn inner_arc(names: Seq<Seq<char>>, arcs: Seq<ArcView>, v: int, a: int, b: int) -> bool {
    &&& 0 <= a < names.len()
    &&& 0 <= b < names.len()
    &&& mutual(names, arcs, v, a)
    &&& mutual(names, arcs, v, b)
    &&& has_arc(arcs, names[a], names[b])
}

/// Pair order: by first index, then by second.
pub open spec fn pair_before(a: int, b: int, c: int, d: int) -> bool {
    a < c || (a == c && b < d)
}

/// `(a, b)` is the first inner arc pair of `v`'s component in pair order:
/// the representative arc a cycle warning points at.
pub open spec fn first_inner(names: Seq<Seq<char>>, arcs: Seq<ArcView>, v: int, a: int, b: int) -> bool {
    &&& inner_arc(names, arcs, v, a, b)
    &&& forall|c: int, d: int| pair_before(c, d, a, b) ==> !inner_arc(names, arcs, v, c, d)
}

/// The index of the first arc from `a` to `b`, or `-1`.
pub open spec fn first_arc(arcs: Seq<ArcView>, a: Seq<char>, b: Seq<char>) -> int
    decreases arcs.len(),
{
    if arcs.len() == 0 {
        -1
    } else if first_arc(arcs.drop_last(), a, b) >= 0 {
        first_arc(arcs.drop_last(), a, b)
    } else if arcs.last().0 == a && arcs.last().1 == b {
        arcs.len() - 1
    } else {
        -1
    }
}

/// The PDS-ARCH-002 finding of module `v`: when `v` leads a component of
/// two or more modules, a warning at the first call of the component's first
/// inner arc pair, listing the component's modules.
pub open spec fn cycle_of(names: Seq<Seq<char>>, arcs: Seq<ArcView>, v: int) -> Seq<FindingView> {
    if leads(names, arcs, v) && members(names, arcs, v).len() >= 2 && exists|a: int, b: int|
        inner_arc(names, arcs, v, a, b) {
        let (a, b) = choose|a: int, b: int| first_inner(names, arcs, v, a, b);
        seq![
            (names[a], warning_view(
                arcs[first_arc(arcs, names[a], names[b])].2,
                CYCLE_CODE@,
                CYCLE_SLUG@,
                cycle_message(members(names, arcs, v)),
            )),
        ]
    } else {
        seq![]
    }
}

/// The PDS-ARCH-002 findings of the first `k` modules.
pub open spec fn cycles_upto(names: Seq<Seq<char>>, arcs: Seq<ArcView>, k: nat) -> Seq<FindingView>
    decreases k,
{
    if k == 0 {
        seq![]
    } else {
        cycles_upto(names, arcs, (k - 1) as nat) + cycle_of(names, arcs, k - 1)
    }
}

/// The PDS-ARCH-002 findings of a graph: one per strongly connected
/// component of two or more modules of the module dependency graph, in the
/// name order of each component's first module.
pub open spec fn cycles(nodes: Seq<GraphNode>, edges: Seq<Edge>) -> Seq<FindingView> {
    let arcs = arcs_of(nodes, edges);
    let names = module_names(arcs);
    cycles_upto(names, arcs, names.len())
}

/// Whether `v` leads its component.
fn leads_at(reach: &Vec<Vec<bool>>, v: usize, Ghost(names): Ghost<Seq<Seq<char>>>, Ghost(arcs): Ghost<Seq<ArcView>>) -> (r: bool)
    requires
        reach_matrix(reach@, names, arcs, names.len()),
        v < names.len(),
    ensures
        r == leads(names, arcs, v as int),
{
    let mut u: usize = 0;
    while u < v
        invariant
            u <= v < names.len(),
            reach_matrix(reach@, names, arcs, names.len()),
            forall|q: int| 0 <= q < u ==> !mutual(names, arcs, q, v as int),
        decreases v - u,
    {
        let a = reach[u][v];
        let b = reach[v][u];
        assert(a == reach@[u as int]@[v as int] && b == reach@[v as int]@[u as int]);
        if a && b {
            assert(mutual(names, arcs, u as int, v as int));
            return false;
        }
        u = u + 1;
    }
    true
}

/// The member list of `v`'s component joined by `, `, and its length.
fn member_list(names: &Vec<String>, reach: &Vec<Vec<bool>>, v: usize, Ghost(arcs): Ghost<Seq<ArcView>>) -> (r: (String, usize))
    requires
        reach_matrix(reach@, names@.map_values(|n: String| n@), arcs, names@.len()),
        v < names@.len(),
    ensures
        r.0@ == joined(members(names@.map_values(|n: String| n@), arcs, v as int), ", "@),
        r.1 == members(names@.map_values(|n: String| n@), arcs, v as int).len(),
{
    let ghost nv = names@.map_values(|n: String| n@);
    let mut out = String::new();
    let mut count: usize = 0;
    let mut w: usize = 0;
    proof {
        reveal_strlit(", ");
    }
    while w < names.len()
        invariant
            w <= names@.len(),
            v < names@.len(),
            nv == names@.map_values(|n: String| n@),
            reach_matrix(reach@, nv, arcs, names@.len()),
            out@ == joined(members_upto(nv, arcs, v as int, w as nat), ", "@),
            count == members_upto(nv, arcs, v as int, w as nat).len(),
            count <= w,
            ", "@ == seq![',', ' '],
        decreases names@.len() - w,
    {
        let a = reach[v][w];
        let b = reach[w][v];
        assert(a == reach@[v as int]@[w as int] && b == reach@[w as int]@[v as int]);
        let ghost before = members_upto(nv, arcs, v as int, w as nat);
        if a && b {
            if count > 0 {
                out.append(", ");
            }
            out.append(names[w].as_str());
            count = count + 1;
            let ghost now = before.push(nv[w as int]);
            assert(now.drop_last() =~= before);
            assert(members_upto(nv, arcs, v as int, (w + 1) as nat) == now);
        }
        w = w + 1;
    }
    (out, count)
}

/// `first_inner` has at most one solution.
proof fn lemma_first_inner_unique(names: Seq<Seq<char>>, arcs: Seq<ArcView>, v: int, a: int, b: int, c: int, d: int)
    requires
        first_inner(names, arcs, v, a, b),
        first_inner(names, arcs, v, c, d),
    ensures
        a == c && b == d,
{
    if !(a == c && b == d) {
        if pair_before(a, b, c, d) {
            assert(!inner_arc(names, arcs, v, a, b));
        } else {
            assert(pair_before(c, d, a, b));
            assert(!inner_arc(names, arcs, v, c, d));
        }
    }
}

/// The first inner arc pair of `v`'s component, if any.
fn find_inner(adj: &Vec<Vec<bool>>, reach: &Vec<Vec<bool>>, v: usize, Ghost(names): Ghost<Seq<Seq<char>>>, Ghost(arcs): Ghost<Seq<ArcView>>) -> (r: Option<(usize, usize)>)
    requires
        arc_matrix(adj@, names, arcs),
        reach_matrix(reach@, names, arcs, names.len()),
        v < names.len(),
    ensures
        r matches Some((a, b)) ==> first_inner(names, arcs, v as int, a as int, b as int),
        r is None ==> !exists|a: int, b: int| inner_arc(names, arcs, v as int, a, b),
{
    let n = adj.len();
    let mut a: usize = 0;
    while a < n
        invariant
            a <= n,
            n == names.len(),
            v < n,
            arc_matrix(adj@, names, arcs),
            reach_matrix(reach@, names, arcs, names.len()),
            forall|c: int, d: int| 0 <= c < a ==> !inner_arc(names, arcs, v as int, c, d),
        decreases n - a,
    {
        let in_a = reach[v][a] && reach[a][v];
        assert(reach@[v as int]@[a as int] == reaches(names, arcs, v as int, a as int));
        assert(reach@[a as int]@[v as int] == reaches(names, arcs, a as int, v as int));
        let mut b: usize = 0;
        while b < n
            invariant
                b <= n,
                a < n,
                n == names.len(),
                v < n,
                arc_matrix(adj@, names, arcs),
                reach_matrix(reach@, names, arcs, names.len()),
                in_a == mutual(names, arcs, v as int, a as int),
                forall|c: int, d: int| 0 <= c < a ==> !inner_arc(names, arcs, v as int, c, d),
                forall|d: int| 0 <= d < b ==> !inner_arc(names, arcs, v as int, a as int, d),
            decreases n - b,
        {
            let in_b = reach[v][b] && reach[b][v];
            assert(reach@[v as int]@[b as int] == reaches(names, arcs, v as int, b as int));
            assert(reach@[b as int]@[v as int] == reaches(names, arcs, b as int, v as int));
            let arc = adj[a][b];
            assert(arc == adj@[a as int]@[b as int]);
            if in_a && in_b && arc {
                assert forall|c: int, d: int| pair_before(c, d, a as int, b as int) implies !inner_arc(
                    names,
                    arcs,
                    v as int,
                    c,
                    d,
                ) by {
                    if c == a && !(0 <= d) {
                    }
                }
                return Some((a, b));
            }
            b = b + 1;
        }
        a = a + 1;
    }
    None
}

/// The span of the first arc from `a` to `b`.
fn first_arc_span(arcs: &Vec<(String, String, Span)>, a: &String, b: &String) -> (r: Span)
    requires
        has_arc(arc_views(arcs@), a@, b@),
    ensures
        0 <= first_arc(arc_views(arcs@), a@, b@) < arcs@.len(),
        r == arc_views(arcs@)[first_arc(arc_views(arcs@), a@, b@)].2,
{
    let ghost av = arc_views(arcs@);
    proof {
        lemma_first_arc(av, a@, b@);
    }
    let mut k: usize = 0;
    while k < arcs.len()
        invariant
            k <= arcs@.len(),
            av == arc_views(arcs@),
            forall|q: int| 0 <= q < k ==> !((#[trigger] av[q]).0 == a@ && av[q].1 == b@),
            0 <= first_arc(av, a@, b@) < av.len(),
            av[first_arc(av, a@, b@)].0 == a@ && av[first_arc(av, a@, b@)].1 == b@,
            forall|q: int| 0 <= q < av.len() && (#[trigger] av[q]).0 == a@ && av[q].1 == b@ ==> first_arc(av, a@, b@) <= q,
        decreases arcs@.len() - k,
    {
        assert(av[k as int] == (arcs@[k as int].0@, arcs@[k as int].1@, arcs@[k as int].2));
        if arcs[k].0 == *a && arcs[k].1 == *b {
            return arcs[k].2;
        }
        k = k + 1;
    }
    assert(!(av[first_arc(av, a@, b@)].0 == a@ && av[first_arc(av, a@, b@)].1 == b@));
    arcs[0].2
}

/// `first_arc` is the first index of an arc from `a` to `b`.
proof fn lemma_first_arc(arcs: Seq<ArcView>, a: Seq<char>, b: Seq<char>)
    requires
        has_arc(arcs, a, b),
    ensures
        0 <= first_arc(arcs, a, b) < arcs.len(),
        arcs[first_arc(arcs, a, b)].0 == a && arcs[first_arc(arcs, a, b)].1 == b,
        forall|q: int| 0 <= q < arcs.len() && (#[trigger] arcs[q]).0 == a && arcs[q].1 == b ==> first_arc(arcs, a, b) <= q,
    decreases arcs.len(),
{
    if has_arc(arcs.drop_last(), a, b) {
        lemma_first_arc(arcs.drop_last(), a, b);
        assert forall|q: int| 0 <= q < arcs.len() && (#[trigger] arcs[q]).0 == a && arcs[q].1 == b implies first_arc(arcs, a, b) <= q by {
            if q < arcs.len() - 1 {
                assert(arcs.drop_last()[q] == arcs[q]);
            }
        }
    } else {
        lemma_first_arc_neg(arcs.drop_last(), a, b);
        let k = choose|k: int| 0 <= k < arcs.len() && (#[trigger] arcs[k]).0 == a && arcs[k].1 == b;
        if k < arcs.len() - 1 {
            assert(arcs.drop_last()[k] == arcs[k]);
            assert(has_arc(arcs.drop_last(), a, b));
        }
        assert forall|q: int| 0 <= q < arcs.len() && (#[trigger] arcs[q]).0 == a && arcs[q].1 == b implies first_arc(arcs, a, b) <= q by {
            if q < arcs.len() - 1 {
                assert(arcs.drop_last()[q] == arcs[q]);
                assert(has_arc(arcs.drop_last(), a, b));
            }
        }
    }
}

/// Without an arc from `a` to `b`, `first_arc` is `-1`.
proof fn lemma_first_arc_neg(arcs: Seq<ArcView>, a: Seq<char>, b: Seq<char>)
    requires
        !has_arc(arcs, a, b),
    ensures
        first_arc(arcs, a, b) == -1,
    decreases arcs.len(),
{
    if arcs.len() > 0 {
        assert(!has_arc(arcs.drop_last(), a, b)) by {
            if has_arc(arcs.drop_last(), a, b) {
                let k = choose|k: int| 0 <= k < arcs.drop_last().len() && (#[trigger] arcs.drop_last()[k]).0 == a && arcs.drop_last()[k].1 == b;
                assert(arcs[k] == arcs.drop_last()[k]);
            }
        }
        lemma_first_arc_neg(arcs.drop_last(), a, b);
        assert(!(arcs[arcs.len() - 1].0 == a && arcs[arcs.len() - 1].1 == b));
    }
}

/// Appends the PDS-ARCH-002 findings.
fn check_cycles(g: &Graph, out: &mut Vec<Finding>)
    ensures
        finding_views(final(out)@) == finding_views(old(out)@) + cycles(g.node_seq(), g.edge_seq()),
{
    let arcs = collect_arcs(g);
    let names = collect_names(&arcs);
    let ghost nv = names@.map_values(|n: String| n@);
    let ghost av = arc_views(arcs@);
    let adj = adjacency(&names, &arcs);
    let reach = closure(&names, &arcs, &adj);
    let n = names.len();
    let mut v: usize = 0;
    assert(finding_views(out@) =~= finding_views(old(out)@) + cycles_upto(nv, av, 0));
    while v < n
        invariant
            v <= n,
            n == names@.len() == nv.len(),
            nv == names@.map_values(|n: String| n@),
            av == arc_views(arcs@),
            av == arcs_of(g.node_seq(), g.edge_seq()),
            nv == module_names(av),
            arc_matrix(adj@, nv, av),
            reach_matrix(reach@, nv, av, nv.len()),
            finding_views(out@) == finding_views(old(out)@) + cycles_upto(nv, av, v as nat),
        decreases n - v,
    {
        let ghost before = finding_views(out@);
        if leads_at(&reach, v, Ghost(nv), Ghost(av)) {
            let (list, count) = member_list(&names, &reach, v, Ghost(av));
            if count >= 2 {
                if let Some((a, b)) = find_inner(&adj, &reach, v, Ghost(nv), Ghost(av)) {
                    assert(names@[a as int]@ == nv[a as int] && names@[b as int]@ == nv[b as int]);
                    let span = first_arc_span(&arcs, &names[a], &names[b]);
                    let mut message = String::from_str("modules form a dependency cycle (");
                    message.append(list.as_str());
                    message.append(") — break it by extracting a shared contract or inverting one dependency");
                    let diag = warn(span, message.as_str(), CYCLE_CODE, CYCLE_SLUG);
                    let finding = Finding { module: names[a].clone(), diag };
                    proof {
                        lemma_views_push(out@, finding);
                        assert(exists|x: int, y: int| inner_arc(nv, av, v as int, x, y));
                        assert(exists|x: int, y: int| first_inner(nv, av, v as int, x, y));
                        let (x, y) = choose|x: int, y: int| first_inner(nv, av, v as int, x, y);
                        lemma_first_inner_unique(nv, av, v as int, a as int, b as int, x, y);
                        assert(cycle_of(nv, av, v as int) =~= seq![finding_view(finding)]);
                    }
                    out.push(finding);
                } else {
                    assert(cycle_of(nv, av, v as int) =~= seq![]);
                }
            } else {
                assert(cycle_of(nv, av, v as int) =~= seq![]);
            }
        } else {
            assert(cycle_of(nv, av, v as int) =~= seq![]);
        }
        assert(finding_views(out@) =~= finding_views(old(out)@) + cycles_upto(nv, av, (v + 1) as nat));
        v = v + 1;
    }
}

/// Every architectural finding of a graph: the facade bypasses, then the
/// module cycles, then the system-boundary bypasses.
pub open spec fn findings_of(g: Graph) -> Seq<FindingView> {
    backdoors(g.node_seq(), g.edge_seq()) + cycles(g.node_seq(), g.edge_seq()) + boundaries(
        g.node_seq(),
        g.edge_seq(),
    )
}

/// Every architectural finding, tagged with its module.
fn findings(g: &Graph) -> (out: Vec<Finding>)
    ensures
        finding_views(out@) == findings_of(*g),
{
    let mut out: Vec<Finding> = Vec::new();
    assert(finding_views(out@) =~= seq![]);
    check_backdoor(g, &mut out);
    check_cycles(g, &mut out);
    check_system_boundary(g, &mut out);
    assert(finding_views(out@) =~= findings_of(*g));
    out
}

/// The diagnostics of finding views.
pub open spec fn diags_of(fs: Seq<FindingView>) -> Seq<DiagView> {
    fs.map_values(|f: FindingView| f.1)
}

/// The diagnostics of the finding views raised in `module`.
pub open spec fn diags_in(fs: Seq<FindingView>, module: Seq<char>) -> Seq<DiagView>
    decreases fs.len(),
{
    if fs.len() == 0 {
        seq![]
    } else if fs.last().0 == module {
        diags_in(fs.drop_last(), module).push(fs.last().1)
    } else {
        diags_in(fs.drop_last(), module)
    }
}

/// The views of a list of diagnostics.
pub open spec fn diag_views(ds: Seq<Diagnostic>) -> Seq<DiagView> {
    ds.map_values(|d: Diagnostic| diag_view(d))
}

/// `finding_views` keeps one view per finding, in order.
proof fn lemma_finding_views(fs: Seq<Finding>)
    ensures
        finding_views(fs).len() == fs.len(),
        forall|i: int| 0 <= i < fs.len() ==> #[trigger] finding_views(fs)[i] == finding_view(fs[i]),
    decreases fs.len(),
{
    if fs.len() > 0 {
        lemma_finding_views(fs.drop_last());
        assert forall|i: int| 0 <= i < fs.len() implies #[trigger] finding_views(fs)[i] == finding_view(fs[i]) by {
            if i < fs.len() - 1 {
                assert(fs.drop_last()[i] == fs[i]);
            }
        }
    }
}

/// Every architectural warning across the whole graph.
pub fn check(g: &Graph) -> (ds: Vec<Diagnostic>)
    ensures
        diag_views(ds@) == diags_of(findings_of(*g)),
{
    let fs = findings(g);
    proof {
        lemma_finding_views(fs@);
    }
    let mut ds: Vec<Diagnostic> = Vec::new();
    let mut i: usize = 0;
    while i < fs.len()
        invariant
            i <= fs@.len(),
            finding_views(fs@) == findings_of(*g),
            finding_views(fs@).len() == fs@.len(),
            forall|k: int| 0 <= k < fs@.len() ==> #[trigger] finding_views(fs@)[k] == finding_view(fs@[k]),
            diag_views(ds@) == diags_of(finding_views(fs@).take(i as int)),
        decreases fs@.len() - i,
    {
        let ghost before = diag_views(ds@);
        ds.push(fs[i].diag.clone());
        assert(diag_views(ds@) =~= before.push(diag_view(fs@[i as int].diag)));
        assert(diags_of(finding_views(fs@).take(i + 1)) =~= diags_of(finding_views(fs@).take(i as int)).push(
            finding_views(fs@)[i as int].1,
        ));
        i = i + 1;
    }
    assert(finding_views(fs@).take(fs@.len() as int) =~= finding_views(fs@));
    ds
}

/// The architectural warnings whose offending call originates in `module`.
pub fn check_for_module(g: &Graph, module: &str) -> (ds: Vec<Diagnostic>)
    ensures
        diag_views(ds@) == diags_in(findings_of(*g), module@),
{
    let fs = findings(g);
    proof {
        lemma_finding_views(fs@);
    }
    let mut ds: Vec<Diagnostic> = Vec::new();
    let mut i: usize = 0;
    assert(diag_views(ds@) =~= seq![]);
    while i < fs.len()
        invariant
            i <= fs@.len(),
            finding_views(fs@) == findings_of(*g),
            finding_views(fs@).len() == fs@.len(),
            forall|k: int| 0 <= k < fs@.len() ==> #[trigger] finding_views(fs@)[k] == finding_view(fs@[k]),
            diag_views(ds@) == diags_in(finding_views(fs@).take(i as int), module@),
        decreases fs@.len() - i,
    {
        let ghost before = diag_views(ds@);
        assert(finding_views(fs@).take(i + 1).drop_last() =~= finding_views(fs@).take(i as int));
        if crate::strs::str_eq(fs[i].module.as_str(), module) {
            ds.push(fs[i].diag.clone());
            assert(diag_views(ds@) =~= before.push(diag_view(fs@[i as int].diag)));
        }
        i = i + 1;
    }
    assert(finding_views(fs@).take(fs@.len() as int) =~= finding_views(fs@));
    ds
}

} // verus!
