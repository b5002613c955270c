//! The single-module static well-formedness checks.
//!
//! Each check emits a fixed diagnostic message, and fires only when the
//! violation is certain: a well-formed module produces no diagnostic. The
//! checks run in passes over one walk of the module's declarations, nested
//! ones included.

use crate::ast::{
    Block, BodyMember, Callable, DataBody, Decl, DeclKind, Feature, Field, Ident, Item, Macro, MacroArgs,
    Module, Node, NodeKind, Param, Path, Stmt, StmtKind, Type, Variant,
};
use crate::diagnostic::{Diagnostic, Severity};
use crate::model::arch::{diag_view, diag_views, DiagView};
use crate::model::cross_module::{err, leaf, leaf_of, push_error, tick, ticked};
use crate::model::graph::{first_path, first_path_arg, path_str, path_text};
use crate::model::body::{
    arity_errs, cond_errs, field_read_errs, for_errs, from_errs, return_type_errs, scope_names, self_call_errs,
    body_ref_errs,
};
use crate::model::cross_module::{entries_errs, module_errs};
use crate::model::result_flow::{check_callable_result_flow, flow_block};
use crate::model::typing::{block_exprs, build_vars, operands_walk, vars_of};
use crate::model::symbols::{
    first_entry, last_key, last_sym, latest, symbol_keyword, sym_views, union_views, Model, ModuleEntry, SymView,
    SymbolKind, UnionView, Workspace,
};
use crate::span::Span;
use crate::token::{keyword_of, TokenKind};
use vstd::prelude::*;
use vstd::string::{StrSliceExecFns, StringExecFns};

verus! {

// ----- the declaration walk -------------------------------------------------

/// One step of the walk over a module: a declaration (nested ones after
/// their node, in body order), a node's callable with its owner's name, or
/// a feature.
pub enum Visit {
    /// A declaration.
    Decl(Decl),
    /// A callable and the name of the node declaring it.
    Callable(Callable, Ident),
    /// A feature.
    Feature(Feature),
}

/// A step of the walk, borrowed from the module.
pub enum VisitRef<'a> {
    /// A declaration.
    Decl(&'a Decl),
    /// A callable and the name of the node declaring it.
    Callable(&'a Callable, &'a Ident),
    /// A feature.
    Feature(&'a Feature),
}

/// The step a borrowed step denotes.
pub open spec fn visit_of(v: VisitRef) -> Visit {
    match v {
        VisitRef::Decl(d) => Visit::Decl(*d),
        VisitRef::Callable(c, o) => Visit::Callable(*c, *o),
        VisitRef::Feature(f) => Visit::Feature(*f),
    }
}

/// The steps borrowed steps denote.
pub open spec fn visits_of(vs: Seq<VisitRef>) -> Seq<Visit> {
    vs.map_values(|v: VisitRef| visit_of(v))
}

/// The node a declaration introduces, if it is structural.
pub open spec fn node_of(k: DeclKind) -> Option<Node> {
    match k {
        DeclKind::Person(n) => Some(n),
        DeclKind::System(n) => Some(n),
        DeclKind::Container(n) => Some(n),
        DeclKind::Component(n) => Some(n),
        _ => None,
    }
}

/// The walk of a declaration: itself, then a node's body members in order.
pub open spec fn decl_visits(d: Decl) -> Seq<Visit>
    decreases d,
{
    seq![Visit::Decl(d)] + match d.kind {
        DeclKind::Person(n) => body_visits(n),
        DeclKind::System(n) => body_visits(n),
        DeclKind::Container(n) => body_visits(n),
        DeclKind::Component(n) => body_visits(n),
        _ => seq![],
    }
}

/// The walk of a node's body.
pub open spec fn body_visits(n: Node) -> Seq<Visit>
    decreases n,
{
    match n.body {
        Some(ms) => members_visits(n.name, ms@),
        None => seq![],
    }
}

/// The walk of body members of the node named `owner`.
pub open spec fn members_visits(owner: Ident, ms: Seq<BodyMember>) -> Seq<Visit>
    decreases ms,
{
    if ms.len() == 0 {
        seq![]
    } else {
        members_visits(owner, ms.subrange(0, ms.len() - 1)) + match ms[ms.len() - 1] {
            BodyMember::Decl(d) => decl_visits(d),
            BodyMember::Callable(c) => seq![Visit::Callable(c, owner)],
        }
    }
}

/// The walk of a module's items.
pub open spec fn items_visits(items: Seq<Item>) -> Seq<Visit>
    decreases items.len(),
{
    if items.len() == 0 {
        seq![]
    } else {
        items_visits(items.drop_last()) + match items.last() {
            Item::Decl(d) => decl_visits(d),
            Item::Feature(f) => seq![Visit::Feature(f)],
        }
    }
}

proof fn lemma_visits_push<'a>(vs: Seq<VisitRef<'a>>, v: VisitRef<'a>)
    ensures
        visits_of(vs.push(v)) == visits_of(vs).push(visit_of(v)),
{
    assert(visits_of(vs.push(v)) =~= visits_of(vs).push(visit_of(v)));
}

/// Appends the walk of a declaration.
fn walk_decl<'a>(d: &'a Decl, out: &mut Vec<VisitRef<'a>>)
    ensures
        visits_of(final(out)@) == visits_of(old(out)@) + decl_visits(*d),
    decreases d,
{
    let ghost o0 = visits_of(out@);
    proof {
        lemma_visits_push(out@, VisitRef::Decl(d));
    }
    out.push(VisitRef::Decl(d));
    match &d.kind {
        DeclKind::Person(n) | DeclKind::System(n) | DeclKind::Container(n) | DeclKind::Component(n) => {
            proof {
                if d.kind is Person {
                    assert(decreases_to!(d.kind => d.kind->Person_0));
                } else if d.kind is System {
                    assert(decreases_to!(d.kind => d.kind->System_0));
                } else if d.kind is Container {
                    assert(decreases_to!(d.kind => d.kind->Container_0));
                } else {
                    assert(decreases_to!(d.kind => d.kind->Component_0));
                }
            }
            walk_body(n, out);
            assert(visits_of(out@) =~= o0 + decl_visits(*d));
        },
        _ => {
            assert(visits_of(out@) =~= o0 + decl_visits(*d));
        },
    }
}

/// Appends the walk of a node's body.
fn walk_body<'a>(n: &'a Node, out: &mut Vec<VisitRef<'a>>)
    ensures
        visits_of(final(out)@) == visits_of(old(out)@) + body_visits(*n),
    decreases n,
{
    let ghost o0 = visits_of(out@);
    let ms = match &n.body {
        Some(ms) => ms,
        None => {
            assert(o0 + seq![] =~= o0);
            return;
        },
    };
    proof {
        assert(decreases_to!(*n => n.body));
        assert(decreases_to!(n.body => n.body->0));
    }
    let ghost s = ms@;
    let mut i: usize = 0;
    assert(s.subrange(0, 0) =~= seq![]);
    assert(o0 + members_visits(n.name, s.subrange(0, 0)) =~= o0);
    while i < ms.len()
        invariant
            i <= s.len(),
            s == ms@,
            n.body == Some(*ms),
            decreases_to!(*n => *ms),
            visits_of(out@) == o0 + members_visits(n.name, s.subrange(0, i as int)),
        decreases s.len() - i,
    {
        let ghost t = s.subrange(0, i + 1);
        assert(t.subrange(0, t.len() - 1) =~= s.subrange(0, i as int));
        match &ms[i] {
            BodyMember::Decl(d) => {
                proof {
                    assert(decreases_to!(*ms => ms@));
                    assert(decreases_to!(ms@ => ms@[i as int]));
                    assert(decreases_to!(ms@[i as int] => *d));
                }
                walk_decl(d, out);
            },
            BodyMember::Callable(c) => {
                proof {
                    lemma_visits_push(out@, VisitRef::Callable(c, &n.name));
                }
                out.push(VisitRef::Callable(c, &n.name));
            },
        }
        assert(visits_of(out@) =~= o0 + members_visits(n.name, s.subrange(0, i + 1)));
        i = i + 1;
    }
    assert(s.subrange(0, s.len() as int) =~= s);
}

/// The walk of a module: each item's declarations, nested ones included,
/// and its features, in source order.
pub fn module_visits<'a>(module: &'a Module) -> (r: Vec<VisitRef<'a>>)
    ensures
        visits_of(r@) == items_visits(module.items@),
{
    let mut out: Vec<VisitRef<'a>> = Vec::new();
    let items = &module.items;
    let mut i: usize = 0;
    assert(items@.take(0) =~= seq![]);
    assert(visits_of(out@) =~= seq![]);
    while i < items.len()
        invariant
            i <= items@.len(),
            items == &module.items,
            visits_of(out@) == items_visits(items@.take(i as int)),
        decreases items@.len() - i,
    {
        assert(items@.take(i + 1).drop_last() =~= items@.take(i as int));
        match &items[i] {
            Item::Decl(d) => walk_decl(d, &mut out),
            Item::Feature(f) => {
                proof {
                    lemma_visits_push(out@, VisitRef::Feature(f));
                }
                out.push(VisitRef::Feature(f));
            },
        }
        i = i + 1;
    }
    assert(items@.take(items@.len() as int) =~= items@);
    out
}

// ----- suggestions ----------------------------------------------------------

/// The Damerau-Levenshtein edit distance between two strings, as computed
/// by `strsim`.
pub uninterp spec fn damerau_levenshtein_of(a: Seq<char>, b: Seq<char>) -> nat;

/// Calls `strsim::damerau_levenshtein`; its result is the named distance of
/// the two strings. Nothing more is claimed of it.
#[verifier::external_body]
fn edit_distance(a: &str, b: &str) -> (d: usize)
    ensures
        d as nat == damerau_levenshtein_of(a@, b@),
{
    strsim::damerau_levenshtein(a, b)
}

/// The length of a string's UTF-8 encoding.
pub open spec fn byte_len(s: Seq<char>) -> nat {
    vstd::utf8::encode_utf8(s).len()
}

/// Whether candidate `c` is close to `typed`: a positive distance of at
/// most a third of the longer one's byte length.
pub open spec fn near(typed: Seq<char>, c: Seq<char>) -> bool {
    let d = damerau_levenshtein_of(typed, c);
    d > 0 && d <= (if byte_len(typed) >= byte_len(c) {
        byte_len(typed)
    } else {
        byte_len(c)
    }) / 3
}

/// The first of the close candidates at the smallest distance.
pub open spec fn closest(typed: Seq<char>, cands: Seq<Seq<char>>) -> Option<Seq<char>>
    decreases cands.len(),
{
    if cands.len() == 0 {
        None
    } else {
        let prev = closest(typed, cands.drop_last());
        let c = cands.last();
        if near(typed, c) && (prev is None || damerau_levenshtein_of(typed, c) < damerau_levenshtein_of(
            typed,
            prev->0,
        )) {
            Some(c)
        } else {
            prev
        }
    }
}

/// A "did you mean" hint naming the closest candidate, or nothing.
pub open spec fn hint_of(typed: Seq<char>, cands: Seq<Seq<char>>) -> Seq<char> {
    match closest(typed, cands) {
        Some(c) => "; did you mean "@ + ticked(c) + "?"@,
        None => seq![],
    }
}

/// The plain views of strings.
pub open spec fn strs_view(v: Seq<String>) -> Seq<Seq<char>> {
    v.map_values(|s: String| s@)
}

/// The "did you mean" hint for `typed` among `candidates` (see
/// [`hint_of`]).
pub fn suggest(typed: &str, candidates: &Vec<String>) -> (r: String)
    ensures
        r@ == hint_of(typed@, strs_view(candidates@)),
{
    let ghost cs = strs_view(candidates@);
    let tl = typed.as_bytes().len();
    let mut best: Option<(usize, usize)> = None;
    let mut i: usize = 0;
    assert(cs.take(0) =~= seq![]);
    while i < candidates.len()
        invariant
            i <= candidates@.len(),
            cs == strs_view(candidates@),
            tl == byte_len(typed@),
            match best {
                Some(b) => b.1 < i && closest(typed@, cs.take(i as int)) == Some(cs[b.1 as int])
                    && b.0 as nat == damerau_levenshtein_of(typed@, cs[b.1 as int]),
                None => closest(typed@, cs.take(i as int)) is None,
            },
        decreases candidates@.len() - i,
    {
        assert(cs.take(i + 1).drop_last() =~= cs.take(i as int));
        assert(cs.take(i + 1).last() == cs[i as int]);
        let c = candidates[i].as_str();
        let d = edit_distance(typed, c);
        let cl = c.as_bytes().len();
        let longer = if tl >= cl {
            tl
        } else {
            cl
        };
        if d > 0 && d <= longer / 3 {
            let better = match best {
                Some(b) => d < b.0,
                None => true,
            };
            if better {
                best = Some((d, i));
            }
        }
        i = i + 1;
    }
    assert(cs.take(candidates@.len() as int) =~= cs);
    match best {
        Some(b) => {
            let mut r = String::from_str("; did you mean ");
            r.append(tick(candidates[b.1].as_str()).as_str());
            r.append("?");
            r
        },
        None => String::new(),
    }
}

// ----- words ----------------------------------------------------------------

/// Whether `s` names a primitive type.
pub open spec fn is_primitive_word(s: Seq<char>) -> bool {
    s == "number"@ || s == "string"@ || s == "bool"@ || s == "datetime"@ || s == "uuid"@ || s == "void"@
}

/// Whether `name` is a primitive type name.
pub fn is_primitive(name: &str) -> (b: bool)
    ensures
        b == is_primitive_word(name@),
{
    crate::strs::str_eq(name, "number") || crate::strs::str_eq(name, "string") || crate::strs::str_eq(name, "bool")
        || crate::strs::str_eq(name, "datetime") || crate::strs::str_eq(name, "uuid") || crate::strs::str_eq(
        name,
        "void",
    )
}

/// Whether `s` is reserved: a keyword, a primitive type name, `Result` or
/// `Option`.
pub open spec fn is_reserved_word(s: Seq<char>) -> bool {
    keyword_of(s) is Some || is_primitive_word(s) || s == "Result"@ || s == "Option"@
}

/// Whether `name` is a reserved word.
pub fn is_reserved(name: &str) -> (b: bool)
    ensures
        b == is_reserved_word(name@),
{
    TokenKind::keyword(name).is_some() || is_primitive(name) || crate::strs::str_eq(name, "Result")
        || crate::strs::str_eq(name, "Option")
}

/// Whether `s` names a built-in macro.
pub open spec fn is_builtin_macro(s: Seq<char>) -> bool {
    s == "onevent"@ || s == "schedule"@ || s == "http"@ || s == "manual"@
}

/// The built-in macro names; each targets callables.
pub const BUILTIN_MACROS: [&'static str; 4] = ["onevent", "schedule", "http", "manual"];

/// Whether `name` names a built-in macro.
fn builtin_macro(name: &str) -> (b: bool)
    ensures
        b == is_builtin_macro(name@),
{
    crate::strs::str_eq(name, "onevent") || crate::strs::str_eq(name, "schedule") || crate::strs::str_eq(name, "http")
        || crate::strs::str_eq(name, "manual")
}

/// The keyword of a structural node kind.
pub open spec fn node_word_of(k: NodeKind) -> Seq<char> {
    match k {
        NodeKind::Person => "person"@,
        NodeKind::System => "system"@,
        NodeKind::Container => "container"@,
        NodeKind::Component => "component"@,
    }
}

/// The keyword of a structural node kind.
fn node_word(kind: NodeKind) -> (s: &'static str)
    ensures
        s@ == node_word_of(kind),
{
    match kind {
        NodeKind::Person => "person",
        NodeKind::System => "system",
        NodeKind::Container => "container",
        NodeKind::Component => "component",
    }
}

// ----- unions ---------------------------------------------------------------

/// Each union's variant names under the union's name, in walk order.
pub open spec fn union_entries(vs: Seq<Visit>) -> Seq<UnionView>
    decreases vs.len(),
{
    if vs.len() == 0 {
        seq![]
    } else {
        union_entries(vs.drop_last()) + match vs.last() {
            Visit::Decl(d) => match d.kind {
                DeclKind::Data(data) => match data.body {
                    DataBody::Union(variants) => seq![(data.name.name@, variants@.map_values(|v: Variant| v.name.name@))],
                    _ => seq![],
                },
                _ => seq![],
            },
            _ => seq![],
        }
    }
}

/// Every union variant name, in walk order.
pub open spec fn variant_names_of(us: Seq<UnionView>) -> Seq<Seq<char>>
    decreases us.len(),
{
    if us.len() == 0 {
        seq![]
    } else {
        variant_names_of(us.drop_last()) + us.last().1
    }
}

/// Whether `name` is a variant of the union named `union` (the last union
/// of that name).
pub open spec fn union_has(us: Seq<UnionView>, union: Seq<char>, name: Seq<char>) -> bool {
    let k = last_key(us.map_values(|u: UnionView| u.0), union);
    k >= 0 && us[k].1.contains(name)
}

/// The checker's state: the module's symbol table and its unions.
pub struct Checker<'a> {
    /// The module's symbol table.
    pub model: &'a Model,
    /// Each union's variant names under the union's name, in walk order.
    pub unions: Vec<(String, Vec<String>)>,
    /// Every union variant name, in walk order.
    pub variant_names: Vec<String>,
}

impl<'a> Checker<'a> {
    /// The unions as plain values.
    pub open spec fn entries(&self) -> Seq<UnionView> {
        union_views(self.unions@)
    }

    /// The variant names agree with the unions.
    pub open spec fn wf(&self) -> bool {
        strs_view(self.variant_names@) == variant_names_of(self.entries())
    }

    /// A checker over `model` with the unions of the walk `vs`.
    fn new(model: &'a Model, vs: &Vec<VisitRef>) -> (ck: Checker<'a>)
        ensures
            ck.model == model,
            ck.entries() == union_entries(visits_of(vs@)),
            ck.wf(),
    {
        let ghost all = visits_of(vs@);
        let mut unions: Vec<(String, Vec<String>)> = Vec::new();
        let mut variant_names: Vec<String> = Vec::new();
        let mut i: usize = 0;
        assert(all.take(0) =~= seq![]);
        assert(union_views(unions@) =~= seq![]);
        assert(strs_view(variant_names@) =~= seq![]);
        while i < vs.len()
            invariant
                i <= vs@.len(),
                all == visits_of(vs@),
                union_views(unions@) == union_entries(all.take(i as int)),
                strs_view(variant_names@) == variant_names_of(union_views(unions@)),
            decreases vs@.len() - i,
        {
            assert(all.take(i + 1).drop_last() =~= all.take(i as int));
            assert(all.take(i + 1).last() == visit_of(vs@[i as int]));
            match vs[i] {
                VisitRef::Decl(d) => match &d.kind {
                    DeclKind::Data(data) => match &data.body {
                        DataBody::Union(variants) => {
                            let mut names: Vec<String> = Vec::new();
                            let mut j: usize = 0;
                            while j < variants.len()
                                invariant
                                    j <= variants@.len(),
                                    strs_view(names@) == variants@.take(j as int).map_values(|v: Variant| v.name.name@),
                                decreases variants@.len() - j,
                            {
                                let ghost before = strs_view(names@);
                                let nm = variants[j].name.name.clone();
                                names.push(nm);
                                assert(strs_view(names@) =~= before.push(variants@[j as int].name.name@));
                                assert(variants@.take(j + 1) =~= variants@.take(j as int).push(variants@[j as int]));
                                assert(strs_view(names@) =~= variants@.take(j + 1).map_values(|v: Variant| v.name.name@));
                                j = j + 1;
                            }
                            assert(variants@.take(variants@.len() as int) =~= variants@);
                            let ghost nv = strs_view(names@);
                            let ghost u0 = union_views(unions@);
                            let ghost n0 = strs_view(variant_names@);
                            let mut k: usize = 0;
                            while k < names.len()
                                invariant
                                    k <= names@.len(),
                                    nv == strs_view(names@),
                                    strs_view(variant_names@) == n0 + nv.take(k as int),
                                decreases names@.len() - k,
                            {
                                let ghost before = strs_view(variant_names@);
                                let nm = names[k].clone();
                                variant_names.push(nm);
                                assert(strs_view(variant_names@) =~= before.push(nv[k as int]));
                                assert(nv.take(k + 1) =~= nv.take(k as int).push(nv[k as int]));
                                assert(strs_view(variant_names@) =~= n0 + nv.take(k + 1));
                                k = k + 1;
                            }
                            assert(nv.take(nv.len() as int) =~= nv);
                            let x = (data.name.name.clone(), names);
                            unions.push(x);
                            assert(union_views(unions@) =~= u0.push((x.0@, nv)));
                            assert(union_views(unions@).drop_last() =~= u0);
                        },
                        _ => {},
                    },
                    _ => {},
                },
                _ => {},
            }
            assert(union_views(unions@) =~= union_entries(all.take(i + 1)));
            i = i + 1;
        }
        assert(all.take(all.len() as int) =~= all);
        Checker { model, unions, variant_names }
    }

    /// Whether `name` is a variant of the union named `union`.
    pub(crate) fn union_has_variant(&self, union: &str, name: &str) -> (b: bool)
        ensures
            b == union_has(self.entries(), union@, name@),
    {
        let ghost us = self.entries();
        assert(us.map_values(|u: UnionView| u.0) =~= self.unions@.map_values(|l: (String, Vec<String>)| l.0@));
        match crate::model::symbols::last_index(&self.unions, union) {
            Some(k) => {
                let vs = &self.unions[k].1;
                assert(us[k as int].1 == strs_view(vs@));
                let mut found = false;
                let mut j: usize = 0;
                while j < vs.len()
                    invariant
                        j <= vs@.len(),
                        found == exists|q: int| 0 <= q < j && (#[trigger] strs_view(vs@)[q]) == name@,
                    decreases vs@.len() - j,
                {
                    if crate::strs::str_eq(vs[j].as_str(), name) {
                        assert(strs_view(vs@)[j as int] == name@);
                        found = true;
                    }
                    j = j + 1;
                }
                found
            },
            None => false,
        }
    }

    /// Whether `name` is some union's variant.
    pub(crate) fn is_variant_name(&self, name: &str) -> (b: bool)
        requires
            self.wf(),
        ensures
            b == variant_names_of(self.entries()).contains(name@),
    {
        let ghost vn = strs_view(self.variant_names@);
        let mut found = false;
        let mut j: usize = 0;
        while j < self.variant_names.len()
            invariant
                j <= self.variant_names@.len(),
                vn == strs_view(self.variant_names@),
                found == exists|q: int| 0 <= q < j && (#[trigger] vn[q]) == name@,
            decreases self.variant_names@.len() - j,
        {
            if crate::strs::str_eq(self.variant_names[j].as_str(), name) {
                assert(vn[j as int] == name@);
                found = true;
            }
            j = j + 1;
        }
        found
    }
}

// ----- statements -----------------------------------------------------------

/// A statement, then the statements nested in its blocks, in order.
pub open spec fn stmt_walk(s: Stmt) -> Seq<Stmt>
    decreases s,
{
    seq![s] + match s.kind {
        StmtKind::If { then_block, else_block, .. } => stmts_walk(then_block.stmts@) + match else_block {
            Some(b) => stmts_walk(b.stmts@),
            None => seq![],
        },
        StmtKind::For { body, .. } => stmts_walk(body.stmts@),
        StmtKind::While { body, .. } => stmts_walk(body.stmts@),
        _ => seq![],
    }
}

/// The walks of statements, in order.
pub open spec fn stmts_walk(ss: Seq<Stmt>) -> Seq<Stmt>
    decreases ss,
{
    if ss.len() == 0 {
        seq![]
    } else {
        stmts_walk(ss.subrange(0, ss.len() - 1)) + stmt_walk(ss[ss.len() - 1])
    }
}

/// The statements borrowed.
pub open spec fn stmt_refs(v: Seq<&Stmt>) -> Seq<Stmt> {
    v.map_values(|s: &Stmt| *s)
}

proof fn lemma_stmt_refs_push<'a>(v: Seq<&'a Stmt>, s: &'a Stmt)
    ensures
        stmt_refs(v.push(s)) == stmt_refs(v).push(*s),
{
    assert(stmt_refs(v.push(s)) =~= stmt_refs(v).push(*s));
}

/// Appends the walk of a block's statements.
fn walk_block<'a>(b: &'a Block, out: &mut Vec<&'a Stmt>)
    ensures
        stmt_refs(final(out)@) == stmt_refs(old(out)@) + stmts_walk(b.stmts@),
    decreases b,
{
    let ghost o0 = stmt_refs(out@);
    let ghost ss = b.stmts@;
    let mut i: usize = 0;
    assert(ss.subrange(0, 0) =~= seq![]);
    assert(o0 + seq![] =~= o0);
    while i < b.stmts.len()
        invariant
            i <= ss.len(),
            ss == b.stmts@,
            stmt_refs(out@) == o0 + stmts_walk(ss.subrange(0, i as int)),
        decreases ss.len() - i,
    {
        proof {
            assert(decreases_to!(*b => b.stmts));
            assert(decreases_to!(b.stmts => b.stmts@));
            assert(decreases_to!(b.stmts@ => b.stmts@[i as int]));
            let t = ss.subrange(0, i + 1);
            assert(t.subrange(0, t.len() - 1) =~= ss.subrange(0, i as int));
        }
        walk_stmt(&b.stmts[i], out);
        assert(stmt_refs(out@) =~= o0 + stmts_walk(ss.subrange(0, i + 1)));
        i = i + 1;
    }
    assert(ss.subrange(0, ss.len() as int) =~= ss);
}

/// Appends the walk of a statement.
fn walk_stmt<'a>(s: &'a Stmt, out: &mut Vec<&'a Stmt>)
    ensures
        stmt_refs(final(out)@) == stmt_refs(old(out)@) + stmt_walk(*s),
    decreases s,
{
    let ghost o0 = stmt_refs(out@);
    proof {
        lemma_stmt_refs_push(out@, s);
    }
    out.push(s);
    match &s.kind {
        StmtKind::If { then_block, else_block, .. } => {
            walk_block(then_block, out);
            match else_block {
                Some(e) => walk_block(e, out),
                None => {},
            }
        },
        StmtKind::For { body, .. } => walk_block(body, out),
        StmtKind::While { body, .. } => walk_block(body, out),
        _ => {},
    }
    assert(stmt_refs(out@) =~= o0 + stmt_walk(*s));
}

/// Every statement of a block, nested ones after the statement holding
/// them.
pub fn block_stmts<'a>(b: &'a Block) -> (r: Vec<&'a Stmt>)
    ensures
        stmt_refs(r@) == stmts_walk(b.stmts@),
{
    let mut out: Vec<&'a Stmt> = Vec::new();
    assert(stmt_refs(out@) =~= seq![]);
    walk_block(b, &mut out);
    assert(seq![] + stmts_walk(b.stmts@) =~= stmts_walk(b.stmts@));
    out
}

/// The names statements bind: assignment targets and `for` bindings.
pub open spec fn binders(ss: Seq<Stmt>) -> Seq<Ident>
    decreases ss.len(),
{
    if ss.len() == 0 {
        seq![]
    } else {
        binders(ss.drop_last()) + match ss.last().kind {
            StmtKind::Assign { name, .. } => seq![name],
            StmtKind::For { binding, .. } => seq![binding],
            _ => seq![],
        }
    }
}

/// Whether statements return on every path: one of them does.
pub open spec fn block_returns_spec(ss: Seq<Stmt>) -> bool
    decreases ss,
{
    if ss.len() == 0 {
        false
    } else {
        block_returns_spec(ss.subrange(0, ss.len() - 1)) || stmt_returns_spec(ss[ss.len() - 1])
    }
}

/// Whether a statement returns on every path: a `return`, or an `if` with
/// an `else` whose two blocks both do.
pub open spec fn stmt_returns_spec(s: Stmt) -> bool
    decreases s,
{
    match s.kind {
        StmtKind::Return(_) => true,
        StmtKind::If { then_block, else_block, .. } => match else_block {
            Some(e) => block_returns_spec(then_block.stmts@) && block_returns_spec(e.stmts@),
            None => false,
        },
        _ => false,
    }
}

/// Whether a block returns on every path.
pub fn block_returns(b: &Block) -> (r: bool)
    ensures
        r == block_returns_spec(b.stmts@),
    decreases b,
{
    let ghost ss = b.stmts@;
    let mut any = false;
    let mut i: usize = 0;
    assert(ss.subrange(0, 0) =~= seq![]);
    while i < b.stmts.len()
        invariant
            i <= ss.len(),
            ss == b.stmts@,
            any == block_returns_spec(ss.subrange(0, i as int)),
        decreases ss.len() - i,
    {
        proof {
            assert(decreases_to!(*b => b.stmts));
            assert(decreases_to!(b.stmts => b.stmts@));
            assert(decreases_to!(b.stmts@ => b.stmts@[i as int]));
            let t = ss.subrange(0, i + 1);
            assert(t.subrange(0, t.len() - 1) =~= ss.subrange(0, i as int));
        }
        if stmt_returns(&b.stmts[i]) {
            any = true;
        }
        i = i + 1;
    }
    assert(ss.subrange(0, ss.len() as int) =~= ss);
    any
}

/// Whether a statement returns on every path.
fn stmt_returns(s: &Stmt) -> (r: bool)
    ensures
        r == stmt_returns_spec(*s),
    decreases s,
{
    match &s.kind {
        StmtKind::Return(_) => true,
        StmtKind::If { then_block, else_block, .. } => match else_block {
            Some(e) => block_returns(then_block) && block_returns(e),
            None => false,
        },
        _ => false,
    }
}

/// A run of statements returns on every path exactly when one of its
/// statements does.
pub proof fn law_block_returns_iff_a_statement_returns(ss: Seq<Stmt>)
    ensures
        block_returns_spec(ss) <==> exists|i: int| 0 <= i < ss.len() && stmt_returns_spec(#[trigger] ss[i]),
    decreases ss.len(),
{
    if ss.len() > 0 {
        let init = ss.subrange(0, ss.len() - 1);
        law_block_returns_iff_a_statement_returns(init);
        if block_returns_spec(init) {
            let i = choose|i: int| 0 <= i < init.len() && stmt_returns_spec(#[trigger] init[i]);
            assert(ss[i] == init[i]);
        }
        if exists|i: int| 0 <= i < ss.len() && stmt_returns_spec(#[trigger] ss[i]) {
            let i = choose|i: int| 0 <= i < ss.len() && stmt_returns_spec(#[trigger] ss[i]);
            if i < ss.len() - 1 {
                assert(init[i] == ss[i]);
            }
        }
    }
}

/// An `if` statement returns on every path exactly when it has an `else`
/// and both its `then` block and its `else` block return on every path: a
/// branch that can fall through makes the whole statement fall through.
pub proof fn law_if_returns_iff_both_branches_return(s: Stmt)
    requires
        s.kind is If,
    ensures
        stmt_returns_spec(s) <==> (s.kind->else_block matches Some(e) && block_returns_spec(
            s.kind->then_block.stmts@,
        ) && block_returns_spec(e.stmts@)),
{
}

/// A `return` statement returns on every path; an assignment, an
/// expression statement or a loop never does on its own (a loop body may
/// not run), and an `if` without `else` never does (its condition may fail).
pub proof fn law_statement_kinds_that_return(s: Stmt)
    ensures
        s.kind is Return ==> stmt_returns_spec(s),
        (s.kind is Assign || s.kind is Expr || s.kind is For || s.kind is While) ==> !stmt_returns_spec(s),
        (s.kind matches StmtKind::If { else_block, .. } && else_block is None) ==> !stmt_returns_spec(s),
{
}

/// A callable with a non-`void` return type whose body is an `if`/`else`
/// whose `else` block holds no `return` and no nested `if` is reported as
/// not returning on all paths, whatever its `then` block holds.
pub proof fn law_fallthrough_else_is_reported(c: Callable, b: Block)
    requires
        c.return_ty matches Some(t) && !is_void_spec(t),
        b.stmts@.len() == 1,
        b.stmts@[0].kind matches StmtKind::If { else_block, .. } && else_block matches Some(e) && forall|i: int|
            0 <= i < e.stmts@.len() ==> !((#[trigger] e.stmts@[i]).kind is Return) && !(e.stmts@[i].kind is If),
    ensures
        return_path_errs(c, b) == seq![
            err(c.span, "callable "@ + ticked(c.name.name@) + " does not return on all paths"@),
        ],
{
    let s = b.stmts@[0];
    let e = s.kind->else_block->0;
    law_block_returns_iff_a_statement_returns(e.stmts@);
    law_block_returns_iff_a_statement_returns(b.stmts@);
    assert(!block_returns_spec(e.stmts@));
    assert(!stmt_returns_spec(s));
    assert(!block_returns_spec(b.stmts@));
}

/// Whether a type is the bare primitive `void`.
pub open spec fn is_void_spec(t: Type) -> bool {
    !t.is_array && t.generics@.len() == 0 && t.name.segments@.len() == 1 && t.name.segments@[0].name@ == "void"@
}

/// Whether a type is the bare primitive `void`.
fn is_void(t: &Type) -> (b: bool)
    ensures
        b == is_void_spec(*t),
{
    !t.is_array && t.generics.len() == 0 && t.name.segments.len() == 1 && crate::strs::str_eq(
        t.name.segments[0].name.as_str(),
        "void",
    )
}

// ----- pass: union variant collisions ----------------------------------------

/// A name the collision pass records: a `data` name, or an inline record
/// variant's name with the variant's span.
pub type NameEvent = (Seq<char>, bool, Span);

/// The record variants among union variants, as events.
pub open spec fn record_variant_events(vs: Seq<Variant>) -> Seq<NameEvent>
    decreases vs.len(),
{
    if vs.len() == 0 {
        seq![]
    } else {
        record_variant_events(vs.drop_last()) + if vs.last().record is Some {
            seq![(vs.last().name.name@, true, vs.last().span)]
        } else {
            seq![]
        }
    }
}

/// The names the walk records: each `data` name, then its union's record
/// variants.
pub open spec fn name_events(vs: Seq<Visit>) -> Seq<NameEvent>
    decreases vs.len(),
{
    if vs.len() == 0 {
        seq![]
    } else {
        name_events(vs.drop_last()) + match vs.last() {
            Visit::Decl(d) => match d.kind {
                DeclKind::Data(data) => seq![(data.name.name@, false, data.name.span)] + match data.body {
                    DataBody::Union(variants) => record_variant_events(variants@),
                    _ => seq![],
                },
                _ => seq![],
            },
            _ => seq![],
        }
    }
}

/// A record variant whose name an earlier `data` or record variant already
/// took collides.
pub open spec fn collision_errs(es: Seq<NameEvent>) -> Seq<DiagView>
    decreases es.len(),
{
    if es.len() == 0 {
        seq![]
    } else {
        collision_errs(es.drop_last()) + if es.last().1 && es.drop_last().map_values(|e: NameEvent| e.0).contains(
            es.last().0,
        ) {
            seq![err(es.last().2, "variant "@ + ticked(es.last().0) + " collides with data "@ + ticked(es.last().0))]
        } else {
            seq![]
        }
    }
}

/// Whether `seen` holds `name`.
fn seen_has(seen: &Vec<String>, name: &str) -> (b: bool)
    ensures
        b == strs_view(seen@).contains(name@),
{
    let ghost sv = strs_view(seen@);
    let mut found = false;
    let mut j: usize = 0;
    while j < seen.len()
        invariant
            j <= seen@.len(),
            sv == strs_view(seen@),
            found == exists|q: int| 0 <= q < j && (#[trigger] sv[q]) == name@,
        decreases seen@.len() - j,
    {
        if crate::strs::str_eq(seen[j].as_str(), name) {
            assert(sv[j as int] == name@);
            found = true;
        }
        j = j + 1;
    }
    found
}

/// Appends the errors of the event `e` following `es`, and records it.
fn record_event(seen: &mut Vec<String>, name: &Ident, span: Span, is_variant: bool, out: &mut Vec<Diagnostic>, es: Ghost<Seq<NameEvent>>)
    requires
        strs_view(old(seen)@) == es@.map_values(|e: NameEvent| e.0),
    ensures
        strs_view(final(seen)@) == es@.push((name.name@, is_variant, span)).map_values(|e: NameEvent| e.0),
        diag_views(final(out)@) == diag_views(old(out)@) + (collision_errs(es@.push((name.name@, is_variant, span))).skip(
            collision_errs(es@).len() as int,
        )),
{
    let ghost e = (name.name@, is_variant, span);
    let ghost d0 = diag_views(out@);
    assert(es@.push(e).drop_last() =~= es@);
    if is_variant && seen_has(seen, name.name.as_str()) {
        let mut message = String::from_str("variant ");
        message.append(tick(name.name.as_str()).as_str());
        message.append(" collides with data ");
        message.append(tick(name.name.as_str()).as_str());
        push_error(out, span, message);
    }
    assert(diag_views(out@) =~= d0 + collision_errs(es@.push(e)).skip(collision_errs(es@).len() as int));
    let ghost s0 = strs_view(seen@);
    seen.push(name.name.clone());
    assert(strs_view(seen@) =~= s0.push(name.name@));
    assert(es@.push(e).map_values(|x: NameEvent| x.0) =~= es@.map_values(|x: NameEvent| x.0).push(name.name@));
}

/// The union variant collisions of the walk `vs`.
fn variant_collisions(vs: &Vec<VisitRef>, out: &mut Vec<Diagnostic>)
    ensures
        diag_views(final(out)@) == diag_views(old(out)@) + collision_errs(name_events(visits_of(vs@))),
{
    let ghost all = visits_of(vs@);
    let ghost d0 = diag_views(out@);
    let mut seen: Vec<String> = Vec::new();
    let mut i: usize = 0;
    assert(all.take(0) =~= seq![]);
    assert(d0 + seq![] =~= d0);
    assert(strs_view(seen@) =~= seq![]);
    while i < vs.len()
        invariant
            i <= vs@.len(),
            all == visits_of(vs@),
            strs_view(seen@) == name_events(all.take(i as int)).map_values(|e: NameEvent| e.0),
            diag_views(out@) == d0 + collision_errs(name_events(all.take(i as int))),
        decreases vs@.len() - i,
    {
        assert(all.take(i + 1).drop_last() =~= all.take(i as int));
        assert(all.take(i + 1).last() == visit_of(vs@[i as int]));
        let ghost base = name_events(all.take(i as int));
        match vs[i] {
            VisitRef::Decl(d) => match &d.kind {
                DeclKind::Data(data) => {
                    let ghost dv = diag_views(out@);
                    record_event(&mut seen, &data.name, data.name.span, false, out, Ghost(base));
                    let ghost b1 = base.push((data.name.name@, false, data.name.span));
                    assert(b1 =~= base + seq![(data.name.name@, false, data.name.span)]);
                    proof {
                        assert(b1.drop_last() =~= base);
                        lemma_collision_prefix(base, b1);
                    }
                    assert(diag_views(out@) =~= d0 + collision_errs(b1));
                    match &data.body {
                        DataBody::Union(variants) => {
                            let mut j: usize = 0;
                            assert(variants@.take(0) =~= seq![]);
                            assert(b1 + record_variant_events(variants@.take(0)) =~= b1);
                            while j < variants.len()
                                invariant
                                    j <= variants@.len(),
                                    strs_view(seen@) == (b1 + record_variant_events(variants@.take(j as int))).map_values(
                                        |e: NameEvent| e.0,
                                    ),
                                    diag_views(out@) == d0 + collision_errs(b1 + record_variant_events(variants@.take(j as int))),
                                decreases variants@.len() - j,
                            {
                                assert(variants@.take(j + 1).drop_last() =~= variants@.take(j as int));
                                let ghost cur = b1 + record_variant_events(variants@.take(j as int));
                                let v = &variants[j];
                                if v.record.is_some() {
                                    record_event(&mut seen, &v.name, v.span, true, out, Ghost(cur));
                                    proof {
                                        assert(cur.push((v.name.name@, true, v.span)).drop_last() =~= cur);
                                        lemma_collision_prefix(cur, cur.push((v.name.name@, true, v.span)));
                                    }
                                    assert(b1 + record_variant_events(variants@.take(j + 1)) =~= cur.push(
                                        (v.name.name@, true, v.span),
                                    ));
                                } else {
                                    assert(b1 + record_variant_events(variants@.take(j + 1)) =~= cur);
                                }
                                j = j + 1;
                            }
                            assert(variants@.take(variants@.len() as int) =~= variants@);
                            assert(name_events(all.take(i + 1)) =~= b1 + record_variant_events(variants@));
                        },
                        _ => {
                            assert(name_events(all.take(i + 1)) =~= b1);
                        },
                    }
                },
                _ => {
                    assert(name_events(all.take(i + 1)) =~= base);
                },
            },
            _ => {
                assert(name_events(all.take(i + 1)) =~= base);
            },
        }
        i = i + 1;
    }
    assert(all.take(all.len() as int) =~= all);
}

/// Extending the events by one extends the errors by those of the new event.
proof fn lemma_collision_prefix(es: Seq<NameEvent>, fs: Seq<NameEvent>)
    requires
        fs.len() == es.len() + 1,
        fs.drop_last() == es,
    ensures
        collision_errs(fs) == collision_errs(es) + collision_errs(fs).skip(collision_errs(es).len() as int),
{
    assert(collision_errs(fs) =~= collision_errs(es) + collision_errs(fs).skip(collision_errs(es).len() as int));
}

// ----- pass: feature collisions ----------------------------------------------

/// The feature names of the walk, in order.
pub open spec fn feature_names(vs: Seq<Visit>) -> Seq<Seq<char>>
    decreases vs.len(),
{
    if vs.len() == 0 {
        seq![]
    } else {
        feature_names(vs.drop_last()) + match vs.last() {
            Visit::Feature(f) => seq![f.name.name@],
            _ => seq![],
        }
    }
}

/// A feature whose name an earlier feature took collides.
pub open spec fn feature_errs(vs: Seq<Visit>) -> Seq<DiagView>
    decreases vs.len(),
{
    if vs.len() == 0 {
        seq![]
    } else {
        feature_errs(vs.drop_last()) + match vs.last() {
            Visit::Feature(f) => if feature_names(vs.drop_last()).contains(f.name.name@) {
                seq![err(f.name.span, "feature "@ + ticked(f.name.name@) + " collides with feature "@ + ticked(f.name.name@))]
            } else {
                seq![]
            },
            _ => seq![],
        }
    }
}

/// The feature-name collisions of the walk `vs`.
fn feature_collisions(vs: &Vec<VisitRef>, out: &mut Vec<Diagnostic>)
    ensures
        diag_views(final(out)@) == diag_views(old(out)@) + feature_errs(visits_of(vs@)),
{
    let ghost all = visits_of(vs@);
    let ghost d0 = diag_views(out@);
    let mut seen: Vec<String> = Vec::new();
    let mut i: usize = 0;
    assert(all.take(0) =~= seq![]);
    assert(d0 + seq![] =~= d0);
    assert(strs_view(seen@) =~= seq![]);
    while i < vs.len()
        invariant
            i <= vs@.len(),
            all == visits_of(vs@),
            strs_view(seen@) == feature_names(all.take(i as int)),
            diag_views(out@) == d0 + feature_errs(all.take(i as int)),
        decreases vs@.len() - i,
    {
        assert(all.take(i + 1).drop_last() =~= all.take(i as int));
        assert(all.take(i + 1).last() == visit_of(vs@[i as int]));
        match vs[i] {
            VisitRef::Feature(f) => {
                if seen_has(&seen, f.name.name.as_str()) {
                    let mut message = String::from_str("feature ");
                    message.append(tick(f.name.name.as_str()).as_str());
                    message.append(" collides with feature ");
                    message.append(tick(f.name.name.as_str()).as_str());
                    push_error(out, f.name.span, message);
                }
                let ghost s0 = strs_view(seen@);
                seen.push(f.name.name.clone());
                assert(strs_view(seen@) =~= s0.push(f.name.name@));
            },
            _ => {},
        }
        assert(strs_view(seen@) =~= feature_names(all.take(i + 1)));
        assert(diag_views(out@) =~= d0 + feature_errs(all.take(i + 1)));
        i = i + 1;
    }
    assert(all.take(all.len() as int) =~= all);
}

// ----- pass: reserved words ---------------------------------------------------

/// The names of fields.
pub open spec fn field_idents(fs: Seq<Field>) -> Seq<Ident> {
    fs.map_values(|f: Field| f.name)
}

/// Union variants' names, each followed by its inline record's field names.
pub open spec fn variant_idents(vs: Seq<Variant>) -> Seq<Ident>
    decreases vs.len(),
{
    if vs.len() == 0 {
        seq![]
    } else {
        variant_idents(vs.drop_last()) + seq![vs.last().name] + match vs.last().record {
            Some(fs) => field_idents(fs@),
            None => seq![],
        }
    }
}

/// The identifiers one step of the walk declares.
pub open spec fn visit_idents(v: Visit) -> Seq<Ident> {
    match v {
        Visit::Decl(d) => match d.kind {
            DeclKind::Data(data) => seq![data.name] + match data.body {
                DataBody::Record(fs) => field_idents(fs@),
                DataBody::Union(variants) => variant_idents(variants@),
                DataBody::BlackBox => seq![],
            },
            DeclKind::Person(n) => seq![n.name],
            DeclKind::System(n) => seq![n.name],
            DeclKind::Container(n) => seq![n.name],
            DeclKind::Component(n) => seq![n.name],
            DeclKind::Constant(_) => seq![],
        },
        Visit::Callable(c, _) => seq![c.name] + c.params@.map_values(|p: Param| p.name),
        Visit::Feature(f) => seq![f.name],
    }
}

/// The identifiers the walk declares, in order.
pub open spec fn all_idents(vs: Seq<Visit>) -> Seq<Ident>
    decreases vs.len(),
{
    if vs.len() == 0 {
        seq![]
    } else {
        all_idents(vs.drop_last()) + visit_idents(vs.last())
    }
}

/// A declared identifier that is a reserved word is an error.
pub open spec fn reserved_errs(ids: Seq<Ident>) -> Seq<DiagView>
    decreases ids.len(),
{
    if ids.len() == 0 {
        seq![]
    } else {
        reserved_errs(ids.drop_last()) + if is_reserved_word(ids.last().name@) {
            seq![err(ids.last().span, "reserved word "@ + ticked(ids.last().name@) + " cannot be used as an identifier"@)]
        } else {
            seq![]
        }
    }
}

/// Appends the error of one declared identifier, following those of `ids`.
fn reserved_ident(id: &Ident, out: &mut Vec<Diagnostic>, d0: Ghost<Seq<DiagView>>, ids: Ghost<Seq<Ident>>)
    requires
        diag_views(old(out)@) == d0@ + reserved_errs(ids@),
    ensures
        diag_views(final(out)@) == d0@ + reserved_errs(ids@.push(*id)),
{
    assert(ids@.push(*id).drop_last() =~= ids@);
    if is_reserved(id.name.as_str()) {
        let mut message = String::from_str("reserved word ");
        message.append(tick(id.name.as_str()).as_str());
        message.append(" cannot be used as an identifier");
        push_error(out, id.span, message);
    }
    assert(diag_views(out@) =~= d0@ + reserved_errs(ids@.push(*id)));
}

/// Appends the errors of fields' names, following those of `ids`.
fn reserved_fields(fs: &Vec<Field>, out: &mut Vec<Diagnostic>, d0: Ghost<Seq<DiagView>>, ids: Ghost<Seq<Ident>>)
    requires
        diag_views(old(out)@) == d0@ + reserved_errs(ids@),
    ensures
        diag_views(final(out)@) == d0@ + reserved_errs(ids@ + field_idents(fs@)),
{
    let mut j: usize = 0;
    assert(ids@ + field_idents(fs@.take(0)) =~= ids@);
    while j < fs.len()
        invariant
            j <= fs@.len(),
            diag_views(out@) == d0@ + reserved_errs(ids@ + field_idents(fs@.take(j as int))),
        decreases fs@.len() - j,
    {
        let ghost cur = ids@ + field_idents(fs@.take(j as int));
        reserved_ident(&fs[j].name, out, d0, Ghost(cur));
        assert(cur.push(fs@[j as int].name) =~= ids@ + field_idents(fs@.take(j + 1)));
        j = j + 1;
    }
    assert(fs@.take(fs@.len() as int) =~= fs@);
}

/// The reserved-word errors of the walk `vs`.
fn reserved_names(vs: &Vec<VisitRef>, out: &mut Vec<Diagnostic>)
    ensures
        diag_views(final(out)@) == diag_views(old(out)@) + reserved_errs(all_idents(visits_of(vs@))),
{
    let ghost all = visits_of(vs@);
    let ghost d0 = diag_views(out@);
    let mut i: usize = 0;
    assert(all.take(0) =~= seq![]);
    assert(d0 + seq![] =~= d0);
    while i < vs.len()
        invariant
            i <= vs@.len(),
            all == visits_of(vs@),
            diag_views(out@) == d0 + reserved_errs(all_idents(all.take(i as int))),
        decreases vs@.len() - i,
    {
        assert(all.take(i + 1).drop_last() =~= all.take(i as int));
        assert(all.take(i + 1).last() == visit_of(vs@[i as int]));
        let ghost base = all_idents(all.take(i as int));
        match vs[i] {
            VisitRef::Decl(d) => match &d.kind {
                DeclKind::Data(data) => {
                    reserved_ident(&data.name, out, Ghost(d0), Ghost(base));
                    let ghost b1 = base.push(data.name);
                    match &data.body {
                        DataBody::Record(fs) => {
                            reserved_fields(fs, out, Ghost(d0), Ghost(b1));
                            assert(b1 + field_idents(fs@) =~= base + visit_idents(visit_of(vs@[i as int])));
                        },
                        DataBody::Union(variants) => {
                            let mut j: usize = 0;
                            assert(b1 + variant_idents(variants@.take(0)) =~= b1);
                            while j < variants.len()
                                invariant
                                    j <= variants@.len(),
                                    diag_views(out@) == d0 + reserved_errs(b1 + variant_idents(variants@.take(j as int))),
                                decreases variants@.len() - j,
                            {
                                assert(variants@.take(j + 1).drop_last() =~= variants@.take(j as int));
                                let ghost cur = b1 + variant_idents(variants@.take(j as int));
                                let v = &variants[j];
                                reserved_ident(&v.name, out, Ghost(d0), Ghost(cur));
                                match &v.record {
                                    Some(fs) => {
                                        reserved_fields(fs, out, Ghost(d0), Ghost(cur.push(v.name)));
                                        assert(cur.push(v.name) + field_idents(fs@) =~= b1 + variant_idents(
                                            variants@.take(j + 1),
                                        ));
                                    },
                                    None => {
                                        assert(cur.push(v.name) =~= b1 + variant_idents(variants@.take(j + 1)));
                                    },
                                }
                                j = j + 1;
                            }
                            assert(variants@.take(variants@.len() as int) =~= variants@);
                            assert(b1 + variant_idents(variants@) =~= base + visit_idents(visit_of(vs@[i as int])));
                        },
                        DataBody::BlackBox => {
                            assert(b1 =~= base + visit_idents(visit_of(vs@[i as int])));
                        },
                    }
                },
                DeclKind::Person(n) | DeclKind::System(n) | DeclKind::Container(n) | DeclKind::Component(n) => {
                    reserved_ident(&n.name, out, Ghost(d0), Ghost(base));
                    assert(base.push(n.name) =~= base + visit_idents(visit_of(vs@[i as int])));
                },
                DeclKind::Constant(_) => {
                    assert(base =~= base + visit_idents(visit_of(vs@[i as int])));
                },
            },
            VisitRef::Callable(c, _) => {
                reserved_ident(&c.name, out, Ghost(d0), Ghost(base));
                let ghost b1 = base.push(c.name);
                let mut j: usize = 0;
                assert(b1 + c.params@.take(0).map_values(|p: Param| p.name) =~= b1);
                while j < c.params.len()
                    invariant
                        j <= c.params@.len(),
                        diag_views(out@) == d0 + reserved_errs(b1 + c.params@.take(j as int).map_values(|p: Param| p.name)),
                    decreases c.params@.len() - j,
                {
                    let ghost cur = b1 + c.params@.take(j as int).map_values(|p: Param| p.name);
                    reserved_ident(&c.params[j].name, out, Ghost(d0), Ghost(cur));
                    assert(cur.push(c.params@[j as int].name) =~= b1 + c.params@.take(j + 1).map_values(|p: Param| p.name));
                    j = j + 1;
                }
                assert(c.params@.take(c.params@.len() as int) =~= c.params@);
                assert(b1 + c.params@.map_values(|p: Param| p.name) =~= base + visit_idents(visit_of(vs@[i as int])));
            },
            VisitRef::Feature(f) => {
                reserved_ident(&f.name, out, Ghost(d0), Ghost(base));
                assert(base.push(f.name) =~= base + visit_idents(visit_of(vs@[i as int])));
            },
        }
        assert(all_idents(all.take(i + 1)) == base + visit_idents(visit_of(vs@[i as int])));
        i = i + 1;
    }
    assert(all.take(all.len() as int) =~= all);
}

// ----- pass: type references --------------------------------------------------

/// The module's symbols as plain values.
pub open spec fn model_syms(model: Model) -> Seq<SymView> {
    sym_views(model.declared_seq())
}

/// Whether a bare type name resolves: a primitive, `Result`, `Option`, a
/// symbol of the module (a node names a type as freely as a `data` does),
/// or a union variant.
pub open spec fn type_resolves(model: Model, us: Seq<UnionView>, leaf: Seq<char>) -> bool {
    is_primitive_word(leaf) || leaf == "Result"@ || leaf == "Option"@ || last_sym(model_syms(model), leaf, false) >= 0
        || variant_names_of(us).contains(leaf)
}

/// The names an unresolved type is compared against: the primitives,
/// `Result`, `Option`, the module's symbols, then the union variants.
pub open spec fn type_candidates(model: Model, us: Seq<UnionView>) -> Seq<Seq<char>> {
    seq!["number"@, "string"@, "bool"@, "datetime"@, "uuid"@, "void"@, "Result"@, "Option"@] + latest(
        model_syms(model),
        false,
    ).map_values(|s: SymView| s.0) + variant_names_of(us)
}

/// The errors of a type annotation: a bare name that resolves nowhere, then
/// those of each generic argument. A qualified name is another module's.
pub open spec fn local_type_errs(model: Model, us: Seq<UnionView>, t: Type) -> Seq<DiagView>
    decreases t,
{
    (if t.name.segments@.len() == 1 && !type_resolves(model, us, t.name.segments@[0].name@) {
        seq![
            err(
                t.name.span,
                "unresolved type "@ + ticked(t.name.segments@[0].name@) + hint_of(
                    t.name.segments@[0].name@,
                    type_candidates(model, us),
                ),
            ),
        ]
    } else {
        seq![]
    }) + local_types_errs(model, us, t.generics@)
}

/// The errors of type annotations, in order.
pub open spec fn local_types_errs(model: Model, us: Seq<UnionView>, ts: Seq<Type>) -> Seq<DiagView>
    decreases ts,
{
    if ts.len() == 0 {
        seq![]
    } else {
        local_types_errs(model, us, ts.subrange(0, ts.len() - 1)) + local_type_errs(model, us, ts[ts.len() - 1])
    }
}

/// The type errors of fields.
pub open spec fn fields_type_errs(model: Model, us: Seq<UnionView>, fs: Seq<Field>) -> Seq<DiagView>
    decreases fs.len(),
{
    if fs.len() == 0 {
        seq![]
    } else {
        fields_type_errs(model, us, fs.drop_last()) + local_type_errs(model, us, fs.last().ty)
    }
}

/// The type errors of union variants' inline records.
pub open spec fn variants_type_errs(model: Model, us: Seq<UnionView>, vs: Seq<Variant>) -> Seq<DiagView>
    decreases vs.len(),
{
    if vs.len() == 0 {
        seq![]
    } else {
        variants_type_errs(model, us, vs.drop_last()) + match vs.last().record {
            Some(fs) => fields_type_errs(model, us, fs@),
            None => seq![],
        }
    }
}

/// The type errors of parameters.
pub open spec fn params_type_errs(model: Model, us: Seq<UnionView>, ps: Seq<Param>) -> Seq<DiagView>
    decreases ps.len(),
{
    if ps.len() == 0 {
        seq![]
    } else {
        params_type_errs(model, us, ps.drop_last()) + local_type_errs(model, us, ps.last().ty)
    }
}

/// The type errors of one step of the walk: a `data` body's field types; a
/// callable's parameter and return types.
pub open spec fn visit_type_errs(model: Model, us: Seq<UnionView>, v: Visit) -> Seq<DiagView> {
    match v {
        Visit::Decl(d) => match d.kind {
            DeclKind::Data(data) => match data.body {
                DataBody::Record(fs) => fields_type_errs(model, us, fs@),
                DataBody::Union(variants) => variants_type_errs(model, us, variants@),
                DataBody::BlackBox => seq![],
            },
            _ => seq![],
        },
        Visit::Callable(c, _) => params_type_errs(model, us, c.params@) + match c.return_ty {
            Some(t) => local_type_errs(model, us, t),
            None => seq![],
        },
        Visit::Feature(_) => seq![],
    }
}

/// The type errors of the walk, in order.
pub open spec fn type_ref_errs(model: Model, us: Seq<UnionView>, vs: Seq<Visit>) -> Seq<DiagView>
    decreases vs.len(),
{
    if vs.len() == 0 {
        seq![]
    } else {
        type_ref_errs(model, us, vs.drop_last()) + visit_type_errs(model, us, vs.last())
    }
}

impl<'a> Checker<'a> {
    /// Whether a bare type name resolves (see [`type_resolves`]).
    fn type_resolves(&self, leaf: &str) -> (b: bool)
        requires
            self.wf(),
        ensures
            b == type_resolves(*self.model, self.entries(), leaf@),
    {
        is_primitive(leaf) || crate::strs::str_eq(leaf, "Result") || crate::strs::str_eq(leaf, "Option")
            || self.model.symbol(leaf).is_some() || self.is_variant_name(leaf)
    }

    /// The names an unresolved type is compared against.
    fn type_candidates(&self) -> (r: Vec<String>)
        requires
            self.wf(),
        ensures
            strs_view(r@) == type_candidates(*self.model, self.entries()),
    {
        let mut r: Vec<String> = Vec::new();
        let mut k: usize = 0;
        while k < 6
            invariant
                k <= 6,
                strs_view(r@) == TokenKind::PRIMITIVE_TYPES@.take(k as int).map_values(|p: &str| p@),
            decreases 6 - k,
        {
            let ghost r0 = strs_view(r@);
            r.push(String::from_str(TokenKind::PRIMITIVE_TYPES[k]));
            assert(strs_view(r@) =~= r0.push(TokenKind::PRIMITIVE_TYPES@[k as int]@));
            assert(TokenKind::PRIMITIVE_TYPES@.take(k + 1) =~= TokenKind::PRIMITIVE_TYPES@.take(k as int).push(
                TokenKind::PRIMITIVE_TYPES@[k as int],
            ));
            k = k + 1;
        }
        let ghost r1 = strs_view(r@);
        r.push(String::from_str("Result"));
        r.push(String::from_str("Option"));
        let syms = self.model.symbols();
        let ghost r2 = strs_view(r@);
        assert(r2 =~= r1.push("Result"@).push("Option"@));
        let mut j: usize = 0;
        while j < syms.len()
            invariant
                j <= syms@.len(),
                strs_view(r@) == r2 + sym_views(syms@).take(j as int).map_values(|s: SymView| s.0),
            decreases syms@.len() - j,
        {
            let ghost r3 = strs_view(r@);
            r.push(syms[j].name.clone());
            assert(strs_view(r@) =~= r3.push(syms@[j as int].name@));
            assert(sym_views(syms@).take(j + 1).map_values(|s: SymView| s.0) =~= sym_views(syms@).take(j as int).map_values(
                |s: SymView| s.0,
            ).push(syms@[j as int].name@));
            j = j + 1;
        }
        assert(sym_views(syms@).take(syms@.len() as int) =~= sym_views(syms@));
        let ghost r4 = strs_view(r@);
        let mut q: usize = 0;
        while q < self.variant_names.len()
            invariant
                q <= self.variant_names@.len(),
                strs_view(r@) == r4 + strs_view(self.variant_names@).take(q as int),
            decreases self.variant_names@.len() - q,
        {
            let ghost r5 = strs_view(r@);
            r.push(self.variant_names[q].clone());
            assert(strs_view(r@) =~= r5.push(self.variant_names@[q as int]@));
            assert(strs_view(self.variant_names@).take(q + 1) =~= strs_view(self.variant_names@).take(q as int).push(
                self.variant_names@[q as int]@,
            ));
            q = q + 1;
        }
        assert(strs_view(self.variant_names@).take(self.variant_names@.len() as int) =~= strs_view(self.variant_names@));
        proof {
            reveal_strlit("number");
            reveal_strlit("string");
            reveal_strlit("bool");
            reveal_strlit("datetime");
            reveal_strlit("uuid");
            reveal_strlit("void");
            assert(TokenKind::PRIMITIVE_TYPES@.take(6).map_values(|p: &str| p@) =~= seq![
                "number"@,
                "string"@,
                "bool"@,
                "datetime"@,
                "uuid"@,
                "void"@,
            ]);
        }
        assert(strs_view(r@) =~= type_candidates(*self.model, self.entries()));
        r
    }

    /// Appends the errors of a type annotation (see [`local_type_errs`]).
    fn check_type(&self, ty: &Type, out: &mut Vec<Diagnostic>)
        requires
            self.wf(),
        ensures
            diag_views(final(out)@) == diag_views(old(out)@) + local_type_errs(*self.model, self.entries(), *ty),
        decreases ty,
    {
        let ghost d0 = diag_views(out@);
        if ty.name.is_simple() {
            let lf = ty.name.segments[0].name.as_str();
            if !self.type_resolves(lf) {
                let cands = self.type_candidates();
                let mut message = String::from_str("unresolved type ");
                message.append(tick(lf).as_str());
                message.append(suggest(lf, &cands).as_str());
                push_error(out, ty.name.span, message);
            }
        }
        let ghost d1 = diag_views(out@);
        let gs = &ty.generics;
        let mut i: usize = 0;
        assert(gs@.subrange(0, 0) =~= seq![]);
        assert(d1 + seq![] =~= d1);
        while i < gs.len()
            invariant
                i <= gs@.len(),
                gs == &ty.generics,
                self.wf(),
                diag_views(out@) == d1 + local_types_errs(*self.model, self.entries(), gs@.subrange(0, i as int)),
            decreases gs@.len() - i,
        {
            proof {
                assert(decreases_to!(*ty => ty.generics));
                assert(decreases_to!(ty.generics => ty.generics@));
                assert(decreases_to!(ty.generics@ => ty.generics@[i as int]));
                let t = gs@.subrange(0, i + 1);
                assert(t.subrange(0, t.len() - 1) =~= gs@.subrange(0, i as int));
            }
            self.check_type(&gs[i], out);
            assert(diag_views(out@) =~= d1 + local_types_errs(*self.model, self.entries(), gs@.subrange(0, i + 1)));
            i = i + 1;
        }
        assert(gs@.subrange(0, gs@.len() as int) =~= gs@);
        assert(diag_views(out@) =~= d0 + local_type_errs(*self.model, self.entries(), *ty));
    }

    /// Appends the type errors of fields.
    fn check_field_types(&self, fs: &Vec<Field>, out: &mut Vec<Diagnostic>)
        requires
            self.wf(),
        ensures
            diag_views(final(out)@) == diag_views(old(out)@) + fields_type_errs(*self.model, self.entries(), fs@),
    {
        let ghost d0 = diag_views(out@);
        let mut j: usize = 0;
        assert(fs@.take(0) =~= seq![]);
        assert(d0 + seq![] =~= d0);
        while j < fs.len()
            invariant
                j <= fs@.len(),
                self.wf(),
                diag_views(out@) == d0 + fields_type_errs(*self.model, self.entries(), fs@.take(j as int)),
            decreases fs@.len() - j,
        {
            assert(fs@.take(j + 1).drop_last() =~= fs@.take(j as int));
            self.check_type(&fs[j].ty, out);
            assert(diag_views(out@) =~= d0 + fields_type_errs(*self.model, self.entries(), fs@.take(j + 1)));
            j = j + 1;
        }
        assert(fs@.take(fs@.len() as int) =~= fs@);
    }

    /// The type-reference errors of the walk `vs`.
    fn check_type_refs(&self, vs: &Vec<VisitRef>, out: &mut Vec<Diagnostic>)
        requires
            self.wf(),
        ensures
            diag_views(final(out)@) == diag_views(old(out)@) + type_ref_errs(*self.model, self.entries(), visits_of(vs@)),
    {
        let ghost all = visits_of(vs@);
        let ghost d0 = diag_views(out@);
        let ghost us = self.entries();
        let mut i: usize = 0;
        assert(all.take(0) =~= seq![]);
        assert(d0 + seq![] =~= d0);
        while i < vs.len()
            invariant
                i <= vs@.len(),
                all == visits_of(vs@),
                self.wf(),
                us == self.entries(),
                diag_views(out@) == d0 + type_ref_errs(*self.model, us, all.take(i as int)),
            decreases vs@.len() - i,
        {
            assert(all.take(i + 1).drop_last() =~= all.take(i as int));
            assert(all.take(i + 1).last() == visit_of(vs@[i as int]));
            let ghost dv = diag_views(out@);
            match vs[i] {
                VisitRef::Decl(d) => match &d.kind {
                    DeclKind::Data(data) => match &data.body {
                        DataBody::Record(fs) => self.check_field_types(fs, out),
                        DataBody::Union(variants) => {
                            let mut j: usize = 0;
                            assert(variants@.take(0) =~= seq![]);
                            assert(dv + seq![] =~= dv);
                            while j < variants.len()
                                invariant
                                    j <= variants@.len(),
                                    self.wf(),
                                    us == self.entries(),
                                    diag_views(out@) == dv + variants_type_errs(*self.model, us, variants@.take(j as int)),
                                decreases variants@.len() - j,
                            {
                                assert(variants@.take(j + 1).drop_last() =~= variants@.take(j as int));
                                let ghost dj = diag_views(out@);
                                match &variants[j].record {
                                    Some(fs) => self.check_field_types(fs, out),
                                    None => {
                                        assert(dj + seq![] =~= dj);
                                    },
                                }
                                assert(diag_views(out@) =~= dv + variants_type_errs(*self.model, us, variants@.take(j + 1)));
                                j = j + 1;
                            }
                            assert(variants@.take(variants@.len() as int) =~= variants@);
                        },
                        DataBody::BlackBox => {
                            assert(dv + seq![] =~= dv);
                        },
                    },
                    _ => {
                        assert(dv + seq![] =~= dv);
                    },
                },
                VisitRef::Callable(c, _) => {
                    let mut j: usize = 0;
                    assert(c.params@.take(0) =~= seq![]);
                    assert(dv + seq![] =~= dv);
                    while j < c.params.len()
                        invariant
                            j <= c.params@.len(),
                            self.wf(),
                            us == self.entries(),
                            diag_views(out@) == dv + params_type_errs(*self.model, us, c.params@.take(j as int)),
                        decreases c.params@.len() - j,
                    {
                        assert(c.params@.take(j + 1).drop_last() =~= c.params@.take(j as int));
                        self.check_type(&c.params[j].ty, out);
                        assert(diag_views(out@) =~= dv + params_type_errs(*self.model, us, c.params@.take(j + 1)));
                        j = j + 1;
                    }
                    assert(c.params@.take(c.params@.len() as int) =~= c.params@);
                    let ghost dp = diag_views(out@);
                    match &c.return_ty {
                        Some(t) => self.check_type(t, out),
                        None => {
                            assert(dp + seq![] =~= dp);
                        },
                    }
                    assert(diag_views(out@) =~= dv + visit_type_errs(*self.model, us, visit_of(vs@[i as int])));
                },
                VisitRef::Feature(_) => {
                    assert(dv + seq![] =~= dv);
                },
            }
            assert(diag_views(out@) =~= d0 + type_ref_errs(*self.model, us, all.take(i + 1)));
            i = i + 1;
        }
        assert(all.take(all.len() as int) =~= all);
    }
}

// ----- pass: declarations, callables, features ----------------------------------

/// The kind a declaration's macros would target.
pub open spec fn decl_target(k: DeclKind) -> SymbolKind {
    match k {
        DeclKind::Person(_) => SymbolKind::Person,
        DeclKind::System(_) => SymbolKind::System,
        DeclKind::Container(_) => SymbolKind::Container,
        DeclKind::Component(_) => SymbolKind::Component,
        DeclKind::Data(_) => SymbolKind::Data,
        DeclKind::Constant(_) => SymbolKind::Constant,
    }
}

/// Every macro on a declaration is an error: a built-in one targets only
/// callables; any other is unknown.
pub open spec fn decl_macro_errs(ms: Seq<Macro>, target: SymbolKind) -> Seq<DiagView>
    decreases ms.len(),
{
    if ms.len() == 0 {
        seq![]
    } else {
        decl_macro_errs(ms.drop_last(), target) + seq![
            err(
                ms.last().span,
                if is_builtin_macro(path_text(ms.last().name)) {
                    "macro "@ + ticked(path_text(ms.last().name)) + " cannot target a "@ + symbol_keyword(target)
                } else {
                    "unknown macro "@ + ticked(path_text(ms.last().name))
                },
            ),
        ]
    }
}

/// The last segment of a path, or nothing.
pub open spec fn path_leaf_of(p: Path) -> Seq<char> {
    if p.segments@.len() > 0 {
        p.segments@.last().name@
    } else {
        seq![]
    }
}

/// A node whose `for` parent names a symbol of this module of another kind
/// than `required`; a parent of another module is not judged here.
pub open spec fn parent_errs(model: Model, n: Node, required: SymbolKind) -> Seq<DiagView> {
    match n.parent {
        Some(p) => {
            let k = last_sym(model_syms(model), path_leaf_of(p), false);
            if k >= 0 && model_syms(model)[k].2 != required {
                seq![
                    err(
                        n.span,
                        node_word_of(n.kind) + " "@ + ticked(n.name.name@) + " parent "@ + ticked(path_leaf_of(p))
                            + " is not a "@ + symbol_keyword(required),
                    ),
                ]
            } else {
                seq![]
            }
        },
        None => seq![],
    }
}

/// The errors of a declaration itself: its macros, then a container's or
/// component's parent kind.
pub open spec fn decl_errs(model: Model, d: Decl) -> Seq<DiagView> {
    decl_macro_errs(d.macros@, decl_target(d.kind)) + match d.kind {
        DeclKind::Container(n) => parent_errs(model, n, SymbolKind::System),
        DeclKind::Component(n) => parent_errs(model, n, SymbolKind::Container),
        _ => seq![],
    }
}

/// A feature whose target names something of this module that is not a
/// node (a `data` or the module itself).
pub open spec fn feature_target_errs(model: Model, f: Feature) -> Seq<DiagView> {
    let target = path_text(f.target);
    let k = last_sym(model_syms(model), leaf_of(target), false);
    let is_module = target == model.module_name@;
    let resolves = is_module || k >= 0;
    let is_node = !is_module && k >= 0 && model_syms(model)[k].2 != SymbolKind::Data;
    if resolves && !is_node {
        seq![err(f.target.span, "feature "@ + ticked(f.name.name@) + " target "@ + ticked(target) + " is not a node"@)]
    } else {
        seq![]
    }
}

/// The last segment of a type's base name, or nothing.
pub open spec fn type_leaf_of(t: Type) -> Seq<char> {
    path_leaf_of(t.name)
}

/// An `onevent` handler must take exactly one parameter, typed as the event
/// it names; a mismatched single parameter is an error.
pub open spec fn onevent_errs(c: Callable, m: Macro) -> Seq<DiagView> {
    match m.args {
        MacroArgs::List(a) => match first_path_arg(a@) {
            Some(ev) => if c.params@.len() == 1 && type_leaf_of(c.params@[0].ty) != leaf_of(ev) {
                seq![
                    err(
                        c.span,
                        "handler parameter type "@ + ticked(path_text(c.params@[0].ty.name))
                            + " does not match triggered event "@ + ticked(ev),
                    ),
                ]
            } else {
                seq![]
            },
            None => seq![],
        },
        _ => seq![],
    }
}

/// The errors of a callable's macros: an unknown one, and an `onevent`
/// handler whose parameter does not match its event.
pub open spec fn callable_macro_errs(c: Callable, ms: Seq<Macro>) -> Seq<DiagView>
    decreases ms.len(),
{
    if ms.len() == 0 {
        seq![]
    } else {
        callable_macro_errs(c, ms.drop_last()) + if !is_builtin_macro(path_text(ms.last().name)) {
            seq![err(ms.last().span, "unknown macro "@ + ticked(path_text(ms.last().name)))]
        } else if path_text(ms.last().name) == "onevent"@ {
            onevent_errs(c, ms.last())
        } else {
            seq![]
        }
    }
}

/// A binding whose name is a parameter's or an earlier binding's is an
/// error: bindings are single-assignment, function-wide.
pub open spec fn rebind_errs(params: Seq<Seq<char>>, ids: Seq<Ident>) -> Seq<DiagView>
    decreases ids.len(),
{
    if ids.len() == 0 {
        seq![]
    } else {
        rebind_errs(params, ids.drop_last()) + if (params + ids.drop_last().map_values(|i: Ident| i.name@)).contains(
            ids.last().name@,
        ) {
            seq![err(ids.last().span, "re-binding of "@ + ticked(ids.last().name@) + ": bindings are single-assignment"@)]
        } else {
            seq![]
        }
    }
}

/// A disclosed callable with a non-`void` return type must return on every
/// path.
pub open spec fn return_path_errs(c: Callable, b: Block) -> Seq<DiagView> {
    if (c.return_ty matches Some(t) && !is_void_spec(t)) && !block_returns_spec(b.stmts@) {
        seq![err(c.span, "callable "@ + ticked(c.name.name@) + " does not return on all paths"@)]
    } else {
        seq![]
    }
}

/// The errors of a body's passes after its missing-return check:
/// wrong-branch accessor reads, return types, `from` targets, `for`
/// iterables, `self.` calls, bare references, field reads, call arity and
/// arguments, conditions.
#[verifier::opaque]
pub open spec fn passes_errs(model: Model, us: Seq<UnionView>, c: Callable, owner: Seq<char>, b: Block) -> Seq<DiagView> {
    let ss = stmts_walk(b.stmts@);
    let es = operands_walk(ss);
    let vars = vars_of(c, b);
    flow_block(seq![], b.stmts@).0 + (match c.return_ty {
        Some(ret) => return_type_errs(us, vars, ret, ss),
        None => seq![],
    }) + from_errs(model, es) + for_errs(c.params@, ss) + self_call_errs(model, owner, es) + body_ref_errs(
        model,
        us,
        scope_names(c, ss),
        es,
    ) + field_read_errs(model, vars, es) + arity_errs(model, us, owner, vars, es) + cond_errs(vars, ss)
}

/// The errors of a disclosed callable body of the node `owner`:
/// re-bindings, a missing return, then its other passes.
pub open spec fn body_errs(model: Model, us: Seq<UnionView>, c: Callable, owner: Seq<char>, b: Block) -> Seq<DiagView> {
    rebind_errs(c.params@.map_values(|p: Param| p.name.name@), binders(stmts_walk(b.stmts@))) + return_path_errs(c, b)
        + passes_errs(model, us, c, owner, b)
}

/// The errors of a callable of the node `owner`: its macros, then its
/// body's.
pub open spec fn callable_errs(model: Model, us: Seq<UnionView>, c: Callable, owner: Seq<char>) -> Seq<DiagView> {
    callable_macro_errs(c, c.macros@) + match c.body {
        Some(b) => body_errs(model, us, c, owner, b),
        None => seq![],
    }
}

/// The errors of one step of the walk.
pub open spec fn visit_item_errs(model: Model, us: Seq<UnionView>, v: Visit) -> Seq<DiagView> {
    match v {
        Visit::Decl(d) => decl_errs(model, d),
        Visit::Callable(c, o) => callable_errs(model, us, c, o.name@),
        Visit::Feature(f) => feature_target_errs(model, f),
    }
}

/// The errors of the steps of the walk, in order.
pub open spec fn item_errs(model: Model, us: Seq<UnionView>, vs: Seq<Visit>) -> Seq<DiagView>
    decreases vs.len(),
{
    if vs.len() == 0 {
        seq![]
    } else {
        item_errs(model, us, vs.drop_last()) + visit_item_errs(model, us, vs.last())
    }
}

impl<'a> Checker<'a> {
    /// Appends the errors of a declaration's macros.
    fn check_macros_on_decl(&self, macros: &Vec<Macro>, target: SymbolKind, out: &mut Vec<Diagnostic>)
        ensures
            diag_views(final(out)@) == diag_views(old(out)@) + decl_macro_errs(macros@, target),
    {
        let ghost d0 = diag_views(out@);
        let mut i: usize = 0;
        assert(macros@.take(0) =~= seq![]);
        assert(d0 + seq![] =~= d0);
        while i < macros.len()
            invariant
                i <= macros@.len(),
                diag_views(out@) == d0 + decl_macro_errs(macros@.take(i as int), target),
            decreases macros@.len() - i,
        {
            assert(macros@.take(i + 1).drop_last() =~= macros@.take(i as int));
            let mac = &macros[i];
            let name = path_str(&mac.name);
            if builtin_macro(name.as_str()) {
                let mut message = String::from_str("macro ");
                message.append(tick(name.as_str()).as_str());
                message.append(" cannot target a ");
                message.append(target.keyword());
                push_error(out, mac.span, message);
            } else {
                let mut message = String::from_str("unknown macro ");
                message.append(tick(name.as_str()).as_str());
                push_error(out, mac.span, message);
            }
            assert(diag_views(out@) =~= d0 + decl_macro_errs(macros@.take(i + 1), target));
            i = i + 1;
        }
        assert(macros@.take(macros@.len() as int) =~= macros@);
    }

    /// Appends the error of a node's parent kind.
    fn check_parent(&self, node: &Node, required: SymbolKind, out: &mut Vec<Diagnostic>)
        ensures
            diag_views(final(out)@) == diag_views(old(out)@) + parent_errs(*self.model, *node, required),
    {
        let ghost d0 = diag_views(out@);
        assert(d0 + seq![] =~= d0);
        let parent = match &node.parent {
            Some(p) => p,
            None => return,
        };
        let n = parent.segments.len();
        let parent_name: &str = if n > 0 {
            parent.segments[n - 1].name.as_str()
        } else {
            ""
        };
        proof {
            reveal_strlit("");
        }
        assert(parent_name@ == path_leaf_of(*parent));
        match self.model.symbol(parent_name) {
            Some(symbol) => {
                if symbol.kind != required {
                    let mut message = String::from_str(node_word(node.kind));
                    message.append(" ");
                    message.append(tick(node.name.name.as_str()).as_str());
                    message.append(" parent ");
                    message.append(tick(parent_name).as_str());
                    message.append(" is not a ");
                    message.append(required.keyword());
                    push_error(out, node.span, message);
                    assert(diag_views(out@) =~= d0 + parent_errs(*self.model, *node, required));
                }
            },
            None => {},
        }
    }

    /// Appends the errors of a declaration itself.
    fn check_decl(&self, decl: &Decl, out: &mut Vec<Diagnostic>)
        ensures
            diag_views(final(out)@) == diag_views(old(out)@) + decl_errs(*self.model, *decl),
    {
        let ghost d0 = diag_views(out@);
        let target = match &decl.kind {
            DeclKind::Person(_) => SymbolKind::Person,
            DeclKind::System(_) => SymbolKind::System,
            DeclKind::Container(_) => SymbolKind::Container,
            DeclKind::Component(_) => SymbolKind::Component,
            DeclKind::Data(_) => SymbolKind::Data,
            DeclKind::Constant(_) => SymbolKind::Constant,
        };
        self.check_macros_on_decl(&decl.macros, target, out);
        let ghost d1 = diag_views(out@);
        match &decl.kind {
            DeclKind::Container(node) => self.check_parent(node, SymbolKind::System, out),
            DeclKind::Component(node) => self.check_parent(node, SymbolKind::Container, out),
            _ => {
                assert(d1 + seq![] =~= d1);
            },
        }
        assert(diag_views(out@) =~= d0 + decl_errs(*self.model, *decl));
    }

    /// Appends the error of a feature's target.
    fn check_feature(&self, feature: &Feature, out: &mut Vec<Diagnostic>)
        ensures
            diag_views(final(out)@) == diag_views(old(out)@) + feature_target_errs(*self.model, *feature),
    {
        let ghost d0 = diag_views(out@);
        let target = path_str(&feature.target);
        let lf = leaf(target.as_str());
        let is_module = crate::strs::str_eq(target.as_str(), self.model.module_name.as_str());
        let (resolves, is_node) = match self.model.symbol(lf.as_str()) {
            Some(symbol) => (true, !is_module && symbol.kind != SymbolKind::Data),
            None => (is_module, false),
        };
        if resolves && !is_node {
            let mut message = String::from_str("feature ");
            message.append(tick(feature.name.name.as_str()).as_str());
            message.append(" target ");
            message.append(tick(target.as_str()).as_str());
            message.append(" is not a node");
            push_error(out, feature.target.span, message);
        } else {
            assert(d0 + seq![] =~= d0);
        }
    }

    /// Appends the error of an `onevent` handler.
    fn check_onevent(&self, callable: &Callable, mac: &Macro, out: &mut Vec<Diagnostic>)
        ensures
            diag_views(final(out)@) == diag_views(old(out)@) + onevent_errs(*callable, *mac),
    {
        let ghost d0 = diag_views(out@);
        assert(d0 + seq![] =~= d0);
        let event = match &mac.args {
            MacroArgs::List(args) => match first_path(args) {
                Some(e) => e,
                None => return,
            },
            _ => return,
        };
        if callable.params.len() != 1 {
            return;
        }
        let pty = &callable.params[0].ty;
        let n = pty.name.segments.len();
        let pleaf: &str = if n > 0 {
            pty.name.segments[n - 1].name.as_str()
        } else {
            ""
        };
        proof {
            reveal_strlit("");
        }
        assert(pleaf@ == type_leaf_of(*pty));
        let eleaf = leaf(event.as_str());
        if !crate::strs::str_eq(pleaf, eleaf.as_str()) {
            let mut message = String::from_str("handler parameter type ");
            message.append(tick(path_str(&pty.name).as_str()).as_str());
            message.append(" does not match triggered event ");
            message.append(tick(event.as_str()).as_str());
            push_error(out, callable.span, message);
        }
    }

    /// Appends the errors of a callable's macros.
    fn check_callable_macros(&self, callable: &Callable, out: &mut Vec<Diagnostic>)
        ensures
            diag_views(final(out)@) == diag_views(old(out)@) + callable_macro_errs(*callable, callable.macros@),
    {
        let ghost d0 = diag_views(out@);
        let ms = &callable.macros;
        let mut i: usize = 0;
        assert(ms@.take(0) =~= seq![]);
        assert(d0 + seq![] =~= d0);
        while i < ms.len()
            invariant
                i <= ms@.len(),
                ms == &callable.macros,
                diag_views(out@) == d0 + callable_macro_errs(*callable, ms@.take(i as int)),
            decreases ms@.len() - i,
        {
            assert(ms@.take(i + 1).drop_last() =~= ms@.take(i as int));
            let mac = &ms[i];
            let name = path_str(&mac.name);
            let ghost dv = diag_views(out@);
            if !builtin_macro(name.as_str()) {
                let mut message = String::from_str("unknown macro ");
                message.append(tick(name.as_str()).as_str());
                push_error(out, mac.span, message);
            } else if crate::strs::str_eq(name.as_str(), "onevent") {
                self.check_onevent(callable, mac, out);
            } else {
                assert(dv + seq![] =~= dv);
            }
            assert(diag_views(out@) =~= d0 + callable_macro_errs(*callable, ms@.take(i + 1)));
            i = i + 1;
        }
        assert(ms@.take(ms@.len() as int) =~= ms@);
    }

    /// Appends the re-binding errors of a body's statements `ss`.
    fn check_rebinds(&self, callable: &Callable, ss: &Vec<&Stmt>, out: &mut Vec<Diagnostic>)
        ensures
            diag_views(final(out)@) == diag_views(old(out)@) + rebind_errs(
                callable.params@.map_values(|p: Param| p.name.name@),
                binders(stmt_refs(ss@)),
            ),
    {
        let ghost d0 = diag_views(out@);
        let ghost ps = callable.params@.map_values(|p: Param| p.name.name@);
        let ghost all = stmt_refs(ss@);
        let mut bound: Vec<String> = Vec::new();
        let mut j: usize = 0;
        while j < callable.params.len()
            invariant
                j <= callable.params@.len(),
                ps == callable.params@.map_values(|p: Param| p.name.name@),
                strs_view(bound@) == ps.take(j as int),
            decreases callable.params@.len() - j,
        {
            let ghost b0 = strs_view(bound@);
            bound.push(callable.params[j].name.name.clone());
            assert(strs_view(bound@) =~= b0.push(ps[j as int]));
            assert(ps.take(j + 1) =~= ps.take(j as int).push(ps[j as int]));
            j = j + 1;
        }
        assert(ps.take(ps.len() as int) =~= ps);
        let mut i: usize = 0;
        assert(all.take(0) =~= seq![]);
        assert(d0 + seq![] =~= d0);
        assert(ps + binders(all.take(0)).map_values(|x: Ident| x.name@) =~= ps);
        while i < ss.len()
            invariant
                i <= ss@.len(),
                all == stmt_refs(ss@),
                strs_view(bound@) == ps + binders(all.take(i as int)).map_values(|x: Ident| x.name@),
                diag_views(out@) == d0 + rebind_errs(ps, binders(all.take(i as int))),
            decreases ss@.len() - i,
        {
            assert(all.take(i + 1).drop_last() =~= all.take(i as int));
            assert(all.take(i + 1).last() == *ss@[i as int]);
            let ghost bs = binders(all.take(i as int));
            let id: Option<&Ident> = match &ss[i].kind {
                StmtKind::Assign { name, .. } => Some(name),
                StmtKind::For { binding, .. } => Some(binding),
                _ => None,
            };
            match id {
                Some(id) => {
                    let ghost nb = bs.push(*id);
                    assert(binders(all.take(i + 1)) =~= nb);
                    assert(nb.drop_last() =~= bs);
                    if seen_has(&bound, id.name.as_str()) {
                        let mut message = String::from_str("re-binding of ");
                        message.append(tick(id.name.as_str()).as_str());
                        message.append(": bindings are single-assignment");
                        push_error(out, id.span, message);
                    }
                    let ghost b0 = strs_view(bound@);
                    bound.push(id.name.clone());
                    assert(strs_view(bound@) =~= b0.push(id.name@));
                    assert(ps + nb.map_values(|x: Ident| x.name@) =~= (ps + bs.map_values(|x: Ident| x.name@)).push(id.name@));
                    assert(diag_views(out@) =~= d0 + rebind_errs(ps, nb));
                },
                None => {
                    assert(binders(all.take(i + 1)) =~= bs);
                },
            }
            i = i + 1;
        }
        assert(all.take(all.len() as int) =~= all);
    }

    /// Appends the errors of a callable of the node `owner`.
    fn check_callable(&self, callable: &Callable, owner: &Ident, out: &mut Vec<Diagnostic>)
        requires
            self.wf(),
        ensures
            diag_views(final(out)@) == diag_views(old(out)@) + callable_errs(
                *self.model,
                self.entries(),
                *callable,
                owner.name@,
            ),
    {
        let ghost d0 = diag_views(out@);
        self.check_callable_macros(callable, out);
        let ghost d1 = diag_views(out@);
        let body = match &callable.body {
            Some(b) => b,
            None => {
                assert(d1 + seq![] =~= d1);
                return;
            },
        };
        let stmts = block_stmts(body);
        self.check_rebinds(callable, &stmts, out);
        let ghost d2 = diag_views(out@);
        let non_void = match &callable.return_ty {
            Some(t) => !is_void(t),
            None => false,
        };
        if non_void && !block_returns(body) {
            let mut message = String::from_str("callable ");
            message.append(tick(callable.name.name.as_str()).as_str());
            message.append(" does not return on all paths");
            push_error(out, callable.span, message);
        } else {
            assert(d2 + seq![] =~= d2);
        }
        self.check_body_passes(callable, owner, body, &stmts, out);
        assert(diag_views(out@) =~= d0 + callable_errs(*self.model, self.entries(), *callable, owner.name@));
    }

    /// Appends the errors of a body's passes after the missing-return check.
    #[verifier::rlimit(100)]
    #[verifier::spinoff_prover]
    fn check_body_passes(&self, callable: &Callable, owner: &Ident, body: &Block, stmts: &Vec<&Stmt>, out: &mut Vec<Diagnostic>)
        requires
            self.wf(),
            stmt_refs(stmts@) == stmts_walk(body.stmts@),
        ensures
            diag_views(final(out)@) == diag_views(old(out)@) + passes_errs(
                *self.model,
                self.entries(),
                *callable,
                owner.name@,
                *body,
            ),
    {
        let ghost d0 = diag_views(out@);
        check_callable_result_flow(body, out);
        let ghost d1 = diag_views(out@);
        let vars = build_vars(callable, body);
        match &callable.return_ty {
            Some(ret) => self.check_return_types(ret, stmts, &vars, out),
            None => {
                assert(d1 + seq![] =~= d1);
            },
        }
        let ghost d2 = diag_views(out@);
        let exprs = block_exprs(body);
        self.check_from_targets(&exprs, out);
        let ghost d3 = diag_views(out@);
        self.check_for_loops(&callable.params, stmts, out);
        let ghost d4 = diag_views(out@);
        self.check_self_calls(owner.name.as_str(), &exprs, out);
        let ghost d5 = diag_views(out@);
        let scope = scope_list(callable, stmts);
        self.check_references(&scope, &exprs, out);
        let ghost d6 = diag_views(out@);
        self.check_member_access(&vars, &exprs, out);
        let ghost d7 = diag_views(out@);
        self.check_call_arity(owner.name.as_str(), &vars, &exprs, out);
        let ghost d8 = diag_views(out@);
        self.check_conditions(&vars, stmts, out);
        let ghost d9 = diag_views(out@);
        assert(d9 =~= d0 + (d1.skip(d0.len() as int)) + (d2.skip(d1.len() as int)) + (d3.skip(d2.len() as int)) + (
        d4.skip(d3.len() as int)) + (d5.skip(d4.len() as int)) + (d6.skip(d5.len() as int)) + (d7.skip(d6.len() as int))
            + (d8.skip(d7.len() as int)) + (d9.skip(d8.len() as int)));
        proof {
            reveal(passes_errs);
        }
    }

    /// The declaration, callable and feature errors of the walk `vs`.
    fn check_items(&self, vs: &Vec<VisitRef>, out: &mut Vec<Diagnostic>)
        requires
            self.wf(),
        ensures
            diag_views(final(out)@) == diag_views(old(out)@) + item_errs(*self.model, self.entries(), visits_of(vs@)),
    {
        let ghost all = visits_of(vs@);
        let ghost d0 = diag_views(out@);
        let ghost us = self.entries();
        let mut i: usize = 0;
        assert(all.take(0) =~= seq![]);
        assert(d0 + seq![] =~= d0);
        while i < vs.len()
            invariant
                i <= vs@.len(),
                all == visits_of(vs@),
                self.wf(),
                us == self.entries(),
                diag_views(out@) == d0 + item_errs(*self.model, us, all.take(i as int)),
            decreases vs@.len() - i,
        {
            assert(all.take(i + 1).drop_last() =~= all.take(i as int));
            assert(all.take(i + 1).last() == visit_of(vs@[i as int]));
            match vs[i] {
                VisitRef::Decl(d) => self.check_decl(d, out),
                VisitRef::Callable(c, o) => self.check_callable(c, o, out),
                VisitRef::Feature(f) => self.check_feature(f, out),
            }
            assert(diag_views(out@) =~= d0 + item_errs(*self.model, us, all.take(i + 1)));
            i = i + 1;
        }
        assert(all.take(all.len() as int) =~= all);
    }
}

/// The names in scope in a body: the parameters, then every binding of
/// the statements `ss`.
fn scope_list(callable: &Callable, ss: &Vec<&Stmt>) -> (r: Vec<String>)
    ensures
        strs_view(r@) == scope_names(*callable, stmt_refs(ss@)),
{
    let ghost ps = callable.params@.map_values(|p: Param| p.name.name@);
    let ghost all = stmt_refs(ss@);
    let mut r: Vec<String> = Vec::new();
    let mut j: usize = 0;
    while j < callable.params.len()
        invariant
            j <= callable.params@.len(),
            ps == callable.params@.map_values(|p: Param| p.name.name@),
            strs_view(r@) == ps.take(j as int),
        decreases callable.params@.len() - j,
    {
        let ghost r0 = strs_view(r@);
        r.push(callable.params[j].name.name.clone());
        assert(strs_view(r@) =~= r0.push(ps[j as int]));
        assert(ps.take(j + 1) =~= ps.take(j as int).push(ps[j as int]));
        j = j + 1;
    }
    assert(ps.take(ps.len() as int) =~= ps);
    let mut i: usize = 0;
    assert(all.take(0) =~= seq![]);
    assert(ps + binders(all.take(0)).map_values(|x: Ident| x.name@) =~= ps);
    while i < ss.len()
        invariant
            i <= ss@.len(),
            all == stmt_refs(ss@),
            strs_view(r@) == ps + binders(all.take(i as int)).map_values(|x: Ident| x.name@),
        decreases ss@.len() - i,
    {
        assert(all.take(i + 1).drop_last() =~= all.take(i as int));
        assert(all.take(i + 1).last() == *ss@[i as int]);
        let ghost bs = binders(all.take(i as int));
        match &ss[i].kind {
            StmtKind::Assign { name, .. } => {
                let ghost r0 = strs_view(r@);
                r.push(name.name.clone());
                assert(strs_view(r@) =~= r0.push(name.name@));
                assert(binders(all.take(i + 1)) =~= bs.push(*name));
                assert(ps + bs.push(*name).map_values(|x: Ident| x.name@) =~= (ps + bs.map_values(|x: Ident| x.name@)).push(
                    name.name@,
                ));
            },
            StmtKind::For { binding, .. } => {
                let ghost r0 = strs_view(r@);
                r.push(binding.name.clone());
                assert(strs_view(r@) =~= r0.push(binding.name@));
                assert(binders(all.take(i + 1)) =~= bs.push(*binding));
                assert(ps + bs.push(*binding).map_values(|x: Ident| x.name@) =~= (ps + bs.map_values(|x: Ident| x.name@)).push(
                    binding.name@,
                ));
            },
            _ => {
                assert(binders(all.take(i + 1)) =~= bs);
            },
        }
        i = i + 1;
    }
    assert(all.take(all.len() as int) =~= all);
    r
}

// ----- the checks -----------------------------------------------------------

/// The static errors of `module`, checked against its symbol table `model`:
/// union variant collisions, feature name collisions, reserved words,
/// unresolved types, then each declaration's, callable's and feature's own
/// errors, in walk order.
pub open spec fn static_errs(module: Module, model: Model) -> Seq<DiagView> {
    let vs = items_visits(module.items@);
    let us = union_entries(vs);
    collision_errs(name_events(vs)) + feature_errs(vs) + reserved_errs(all_idents(vs)) + type_ref_errs(model, us, vs)
        + item_errs(model, us, vs)
}

/// Runs every static check on a parsed module and its symbol table.
pub fn run(module: &Module, model: &Model) -> (r: Vec<Diagnostic>)
    ensures
        diag_views(r@) == static_errs(*module, *model),
{
    let vs = module_visits(module);
    let ck = Checker::new(model, &vs);
    let mut out: Vec<Diagnostic> = Vec::new();
    assert(diag_views(out@) =~= seq![]);
    variant_collisions(&vs, &mut out);
    feature_collisions(&vs, &mut out);
    reserved_names(&vs, &mut out);
    ck.check_type_refs(&vs, &mut out);
    ck.check_items(&vs, &mut out);
    assert(diag_views(out@) =~= static_errs(*module, *model));
    out
}

/// The static errors of module entries, module after module.
pub open spec fn entries_static_errs(es: Seq<ModuleEntry>) -> Seq<DiagView>
    decreases es.len(),
{
    if es.len() == 0 {
        seq![]
    } else {
        entries_static_errs(es.drop_last()) + static_errs(es.last().ast, es.last().model)
    }
}

/// Every local module's static errors, module after module, then the
/// cross-module errors.
pub fn run_workspace(workspace: &Workspace) -> (r: Vec<Diagnostic>)
    ensures
        diag_views(r@) == entries_static_errs(workspace.entry_seq()) + entries_errs(*workspace, workspace.entry_seq()),
{
    let modules = workspace.modules();
    let mut out: Vec<Diagnostic> = Vec::new();
    let mut i: usize = 0;
    assert(modules@.take(0) =~= seq![]);
    assert(diag_views(out@) =~= seq![]);
    while i < modules.len()
        invariant
            i <= modules@.len(),
            modules@ == workspace.entry_seq(),
            diag_views(out@) == entries_static_errs(modules@.take(i as int)),
        decreases modules@.len() - i,
    {
        assert(modules@.take(i + 1).drop_last() =~= modules@.take(i as int));
        let ghost d0 = diag_views(out@);
        let mut more = run(&modules[i].ast, &modules[i].model);
        let ghost m = diag_views(more@);
        out.append(&mut more);
        assert(diag_views(out@) =~= d0 + m);
        i = i + 1;
    }
    assert(modules@.take(modules@.len() as int) =~= modules@);
    let ghost d1 = diag_views(out@);
    let mut cross = crate::model::cross_module::check(workspace);
    let ghost c = diag_views(cross@);
    out.append(&mut cross);
    assert(diag_views(out@) =~= d1 + c);
    out
}

/// One module's static errors, then the cross-module errors that
/// originate in it; every span lies in its source.
pub fn run_module(workspace: &Workspace, entry: &ModuleEntry) -> (r: Vec<Diagnostic>)
    ensures
        diag_views(r@) == static_errs(entry.ast, entry.model) + module_errs(*workspace, *entry),
{
    let mut out = run(&entry.ast, &entry.model);
    let ghost d0 = diag_views(out@);
    let mut cross = crate::model::cross_module::check_one(workspace, entry);
    let ghost c = diag_views(cross@);
    out.append(&mut cross);
    assert(diag_views(out@) =~= d0 + c);
    out
}

} // verus!
