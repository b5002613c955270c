//! Local-binding types and right-hand-side inference, for hover and
//! completion.
//!
//! A binding states its type through a `from` right-hand side
//! (`x = T from expr`), so the local types read the `from` target; the
//! same inference types a `for` binding's element and a chain receiver in
//! the middle of an expression. Inference is best-effort: an expression it
//! cannot type yields nothing rather than a guess.
//!
//! A chain rooted at a local binding is typed through that binding's type,
//! which is itself one of the module's local types. Inside the collection
//! of the local types that lookup would need the very list being built, so
//! the functions that collect or read the local types require a module
//! where no binding's right-hand side is such a chain
//! ([`local_types_known`] tells).

use crate::ast::{BinOp, Block, Callable, Decl, DeclKind, Expr, ExprKind, FromSource, Ident, Item, Literal, Module, Node, BodyMember, Path, PostfixSeg, Ref, Stmt, StmtKind, UnaryOp};
use crate::model::check::{block_stmts, items_visits, module_visits, stmt_refs, stmts_walk, strs_view, visits_of, Visit, VisitRef};
use crate::model::graph::{render_type, type_text};
use crate::model::resolve::{enc_items, enclosing_node, first_member, resolve_node_of, resolve_owner};
use crate::model::symbols::{first_entry, member_views, members_of, members_views, qualified, symbol_module, symbol_module_of, Workspace};
use crate::project::join_fqn;
use crate::span::Span;
use crate::strs::{trim_spec, trim_str};
use vstd::prelude::*;
use vstd::string::{StrSliceExecFns, StringExecFns, StringSliceAdditionalSpecFns};

verus! {

/// An inferred local binding: its name, the span of that name, and its
/// type.
#[derive(Debug)]
pub struct LocalType {
    /// The bound name.
    pub name: String,
    /// Span of the name where it is bound.
    pub name_span: Span,
    /// The inferred type, in source form.
    pub ty: String,
}

/// A local binding as plain values: name, name span, type.
pub type LocalView = (Seq<char>, Span, Seq<char>);

/// The plain view of a local binding.
pub open spec fn local_view(l: LocalType) -> LocalView {
    (l.name@, l.name_span, l.ty@)
}

/// The plain views of local bindings.
pub open spec fn local_views(ls: Seq<LocalType>) -> Seq<LocalView> {
    ls.map_values(|l: LocalType| local_view(l))
}

/// A node or `data` owner: its module and its name.
pub type OwnerView = (Seq<char>, Seq<char>);

/// The plain view of an owner.
pub open spec fn owner_view(o: (String, String)) -> OwnerView {
    (o.0@, o.1@)
}

// ----- owners named by type strings ----------------------------------------------

/// `s` without every trailing `[]`.
pub open spec fn strip_arrays(s: Seq<char>) -> Seq<char>
    decreases s.len(),
{
    if s.len() >= 2 && s[s.len() - 2] == '[' && s[s.len() - 1] == ']' {
        strip_arrays(s.take(s.len() - 2))
    } else {
        s
    }
}

/// The part of `s` before its first `<`.
pub open spec fn before_angle(s: Seq<char>) -> Seq<char>
    decreases s.len(),
{
    if s.len() == 0 {
        s
    } else if s[0] == '<' {
        seq![]
    } else {
        seq![s[0]] + before_angle(s.skip(1))
    }
}

/// The pieces of `s` split at each `::`, left to right, with `cur` the
/// piece begun so far.
pub open spec fn split_from(s: Seq<char>, cur: Seq<char>) -> Seq<Seq<char>>
    decreases s.len(),
{
    if s.len() == 0 {
        seq![cur]
    } else if s.len() >= 2 && s[0] == ':' && s[1] == ':' {
        seq![cur] + split_from(s.skip(2), seq![])
    } else {
        split_from(s.skip(1), cur.push(s[0]))
    }
}

/// The pieces of `s` split at each `::`.
pub open spec fn split_colons(s: Seq<char>) -> Seq<Seq<char>> {
    split_from(s, seq![])
}

/// The owner a `::` path written in `from` names: the module and name of
/// the symbol it resolves to.
pub open spec fn owner_of(ws: Workspace, from: Seq<char>, segs: Seq<Seq<char>>) -> Option<OwnerView> {
    match resolve_node_of(ws, from, segs) {
        Some(s) => Some((symbol_module_of(s.1), s.0)),
        None => None,
    }
}

/// The node or `data` a type string names: its base without array
/// suffixes and generic arguments (`Token[]` gives `Token`, `a::T<U>` gives
/// `a::T`), as a path.
pub open spec fn type_owner_of(ws: Workspace, from: Seq<char>, ty: Seq<char>) -> Option<OwnerView> {
    owner_of(ws, from, split_colons(trim_spec(before_angle(strip_arrays(ty)))))
}

/// `s` without every trailing `[]`.
fn strip_arrays_of(s: &str) -> (r: Vec<char>)
    ensures
        r@ == strip_arrays(s@),
{
    let mut cs = crate::strs::chars_of(s);
    while cs.len() >= 2 && cs[cs.len() - 2] == '[' && cs[cs.len() - 1] == ']'
        invariant
            strip_arrays(s@) == strip_arrays(cs@),
        decreases cs@.len(),
    {
        let ghost c0 = cs@;
        cs.pop();
        cs.pop();
        assert(cs@ =~= c0.take(c0.len() - 2));
    }
    cs
}

/// The part of `cs` before its first `<`.
fn before_angle_of(cs: &Vec<char>) -> (r: String)
    ensures
        r@ == before_angle(cs@),
{
    let mut out: Vec<char> = Vec::new();
    let mut i: usize = 0;
    assert(cs@.skip(0) =~= cs@);
    assert(before_angle(cs@) =~= out@ + before_angle(cs@.skip(0)));
    while i < cs.len() && cs[i] != '<'
        invariant
            i <= cs@.len(),
            before_angle(cs@) == out@ + before_angle(cs@.skip(i as int)),
        decreases cs@.len() - i,
    {
        let ghost t = cs@.skip(i as int);
        assert(t.skip(1) =~= cs@.skip(i + 1));
        out.push(cs[i]);
        i = i + 1;
    }
    if i < cs.len() {
        assert(cs@.skip(i as int)[0] == '<');
    } else {
        assert(cs@.skip(i as int) =~= seq![]);
    }
    assert(out@ + seq![] =~= out@);
    crate::strs::string_of(&out)
}

/// The pieces of `s` split at each `::`.
fn split_colons_of(s: &str) -> (r: Vec<String>)
    ensures
        strs_view(r@) == split_colons(s@),
{
    let cs = crate::strs::chars_of(s);
    let mut out: Vec<String> = Vec::new();
    let mut cur: Vec<char> = Vec::new();
    let mut i: usize = 0;
    assert(cs@.skip(0) =~= cs@);
    assert(split_colons(s@) =~= strs_view(out@) + split_from(cs@.skip(0), cur@));
    while i < cs.len()
        invariant
            i <= cs@.len(),
            cs@ == s@,
            split_colons(s@) == strs_view(out@) + split_from(cs@.skip(i as int), cur@),
        decreases cs@.len() - i,
    {
        let ghost t = cs@.skip(i as int);
        if i + 1 < cs.len() && cs[i] == ':' && cs[i + 1] == ':' {
            let ghost o0 = strs_view(out@);
            let piece = crate::strs::string_of(&cur);
            out.push(piece);
            cur = Vec::new();
            assert(t.skip(2) =~= cs@.skip(i + 2));
            assert(strs_view(out@) =~= o0.push(t.take(0) + piece@));
            assert(o0 + split_from(t, piece@) =~= strs_view(out@) + split_from(cs@.skip(i + 2), seq![]));
            i = i + 2;
        } else {
            cur.push(cs[i]);
            assert(t.skip(1) =~= cs@.skip(i + 1));
            i = i + 1;
        }
    }
    assert(cs@.skip(i as int) =~= seq![]);
    let ghost o1 = strs_view(out@);
    let last = crate::strs::string_of(&cur);
    out.push(last);
    assert(strs_view(out@) =~= o1.push(last@));
    assert(o1 + seq![last@] =~= strs_view(out@));
    out
}

/// The node or `data` a type string names (see [`type_owner_of`]).
pub fn type_owner(ws: &Workspace, from_fqn: &str, ty: &str) -> (r: Option<(String, String)>)
    ensures
        match r {
            Some(o) => type_owner_of(*ws, from_fqn@, ty@) == Some(owner_view(o)),
            None => type_owner_of(*ws, from_fqn@, ty@) is None,
        },
{
    let stripped = strip_arrays_of(ty);
    let base = before_angle_of(&stripped);
    let trimmed = trim_str(base.as_str());
    let segs = split_colons_of(trimmed);
    resolve_owner(ws, from_fqn, &segs)
}

// ----- constants ---------------------------------------------------------------------

/// The primitive type a literal denotes.
pub open spec fn literal_type(l: Literal) -> Seq<char> {
    match l {
        Literal::String { .. } => "string"@,
        Literal::Number { .. } => "number"@,
        Literal::Bool { .. } => "bool"@,
    }
}

/// The type of the last constant among the walk steps `vs` whose FQN in
/// `module` is `fqn`.
pub open spec fn const_type_in(vs: Seq<Visit>, module: Seq<char>, fqn: Seq<char>) -> Option<Seq<char>>
    decreases vs.len(),
{
    if vs.len() == 0 {
        None
    } else {
        match vs.last() {
            Visit::Decl(d) => match d.kind {
                DeclKind::Constant(c) => if qualified(module, c.name.name@) == fqn {
                    Some(literal_type(c.value))
                } else {
                    const_type_in(vs.drop_last(), module, fqn)
                },
                _ => const_type_in(vs.drop_last(), module, fqn),
            },
            _ => const_type_in(vs.drop_last(), module, fqn),
        }
    }
}

/// The declared primitive type of the constant named by the FQN `fqn`, in
/// the module its qualifier names.
pub open spec fn const_type_of(ws: Workspace, fqn: Seq<char>) -> Option<Seq<char>> {
    match ws.any_entry(symbol_module_of(fqn)) {
        Some(e) => const_type_in(items_visits(e.ast.items@), e.model.module_name@, fqn),
        None => None,
    }
}

/// The primitive type of a literal.
pub(crate) fn literal_type_of(l: &Literal) -> (r: String)
    ensures
        r@ == literal_type(*l),
{
    match l {
        Literal::String { .. } => String::from_str("string"),
        Literal::Number { .. } => String::from_str("number"),
        Literal::Bool { .. } => String::from_str("bool"),
    }
}

/// The declared type of the constant `fqn` (see [`const_type_of`]).
fn const_type(ws: &Workspace, fqn: &str) -> (r: Option<String>)
    ensures
        match r {
            Some(t) => const_type_of(*ws, fqn@) == Some(t@),
            None => const_type_of(*ws, fqn@) is None,
        },
{
    let module = symbol_module(fqn);
    let entry = match ws.module_any(module.as_str()) {
        Some(e) => e,
        None => return None,
    };
    assert(ws.any_entry(module@) == Some(*entry));
    let vs = module_visits(&entry.ast);
    let ghost all = visits_of(vs@);
    let mut found: Option<String> = None;
    let mut i: usize = 0;
    assert(all.take(0) =~= seq![]);
    while i < vs.len()
        invariant
            i <= vs@.len(),
            all == visits_of(vs@),
            match found {
                Some(t) => const_type_in(all.take(i as int), entry.model.module_name@, fqn@) == Some(t@),
                None => const_type_in(all.take(i as int), entry.model.module_name@, fqn@) is None,
            },
        decreases vs@.len() - i,
    {
        assert(all.take(i + 1).drop_last() =~= all.take(i as int));
        assert(all.take(i + 1).last() == visits_of(vs@)[i as int]);
        match vs[i] {
            VisitRef::Decl(d) => match &d.kind {
                DeclKind::Constant(c) => {
                    let q = crate::model::symbols::qualify(entry.model.module_name.as_str(), c.name.name.as_str());
                    if crate::strs::str_eq(q.as_str(), fqn) {
                        found = Some(literal_type_of(&c.value));
                    }
                },
                _ => {},
            },
            _ => {},
        }
        i = i + 1;
    }
    assert(all.take(vs@.len() as int) =~= all);
    found
}

// ----- typing expressions ---------------------------------------------------------

/// The names of a path's segments.
pub open spec fn path_names(p: Path) -> Seq<Seq<char>> {
    p.segments@.map_values(|i: Ident| i.name@)
}

/// The names of a path's segments.
fn path_names_of(p: &Path) -> (r: Vec<String>)
    ensures
        strs_view(r@) == path_names(*p),
{
    let mut out: Vec<String> = Vec::new();
    let mut i: usize = 0;
    while i < p.segments.len()
        invariant
            i <= p.segments@.len(),
            strs_view(out@) == path_names(*p).take(i as int),
        decreases p.segments@.len() - i,
    {
        let ghost o0 = strs_view(out@);
        out.push(p.segments[i].name.clone());
        assert(strs_view(out@) =~= o0.push(p.segments@[i as int].name@));
        assert(path_names(*p).take(i + 1) =~= path_names(*p).take(i as int).push(path_names(*p)[i as int]));
        assert(strs_view(out@) =~= path_names(*p).take(i + 1));
        i = i + 1;
    }
    assert(path_names(*p).take(i as int) =~= path_names(*p));
    out
}

/// The first of `ls` named `name`.
pub open spec fn first_local(ls: Seq<LocalView>, name: Seq<char>) -> Option<LocalView>
    decreases ls.len(),
{
    if ls.len() == 0 {
        None
    } else if ls[0].0 == name {
        Some(ls[0])
    } else {
        first_local(ls.skip(1), name)
    }
}

/// The owner a postfix chain's base denotes: `self`'s enclosing node, or
/// the node or `data` a path names. A single name that names no symbol is
/// read as a local binding, through `locals`; with no `locals` at hand
/// (inside their own collection) that lookup is stuck, which is `None`.
pub open spec fn base_owner_spec(ws: Workspace, from: Seq<char>, e: Expr, locals: Option<Seq<LocalView>>) -> Option<
    Option<OwnerView>,
>
    decreases e,
{
    match e.kind {
        ExprKind::Ref(Ref::SelfNode(span)) => {
            let k = first_entry(ws.entry_seq(), from);
            if k < 0 {
                Some(None)
            } else {
                match enc_items(ws.entry_seq()[k].ast.items@, span.start as int) {
                    Some(node) => Some(Some((from, node))),
                    None => Some(None),
                }
            }
        },
        ExprKind::Ref(Ref::Path(p)) => match owner_of(ws, from, path_names(p)) {
            Some(o) => Some(Some(o)),
            None => if path_names(p).len() == 1 {
                match locals {
                    Some(ls) => match first_local(ls, path_names(p)[0]) {
                        Some(l) => Some(type_owner_of(ws, from, l.2)),
                        None => Some(None),
                    },
                    None => None,
                }
            } else {
                Some(None)
            },
        },
        ExprKind::Paren(inner) => base_owner_spec(ws, from, *inner, locals),
        _ => Some(None),
    }
}

/// The type of a chain of members from `owner`: each member's type names
/// the owner of the next; the result is the last member's type.
pub open spec fn chain_type(ws: Workspace, from: Seq<char>, owner: OwnerView, segs: Seq<PostfixSeg>) -> Option<Seq<char>>
    decreases segs.len(),
{
    if segs.len() == 0 {
        None
    } else {
        match ws.any_entry(owner.0) {
            Some(e) => {
                let ms = members_of(members_views(e.model.member_lists@), owner.1);
                match first_member(ms, segs[0].name.name@, 0) {
                    Some(j) => if segs.len() == 1 {
                        Some(ms[j].4)
                    } else {
                        match type_owner_of(ws, from, ms[j].4) {
                            Some(o) => chain_type(ws, from, o, segs.skip(1)),
                            None => None,
                        }
                    },
                    None => None,
                }
            },
            None => None,
        }
    }
}

/// Whether a binary operator is arithmetic.
pub open spec fn is_arith(op: BinOp) -> bool {
    op == BinOp::Add || op == BinOp::Sub || op == BinOp::Mul || op == BinOp::Div || op == BinOp::Rem
}

/// The inferred type of an expression while the local types are being
/// collected: `Some(None)` when it cannot be typed, `None` when typing it
/// needs a local binding's type (stuck).
pub open spec fn expr_type_spec(ws: Workspace, from: Seq<char>, e: Expr) -> Option<Option<Seq<char>>>
    decreases e,
{
    match e.kind {
        ExprKind::Literal(l) => Some(Some(literal_type(l))),
        ExprKind::Paren(inner) => expr_type_spec(ws, from, *inner),
        ExprKind::From { ty, .. } => Some(Some(type_text(ty))),
        ExprKind::Postfix { base, segments } => match base_owner_spec(ws, from, *base, None) {
            Some(Some(o)) => Some(chain_type(ws, from, o, segments@)),
            Some(None) => Some(None),
            None => None,
        },
        ExprKind::Binary { op, .. } => Some(Some(if is_arith(op) { "number"@ } else { "bool"@ })),
        ExprKind::Unary { op, .. } => Some(Some(if op == UnaryOp::Not { "bool"@ } else { "number"@ })),
        ExprKind::Ref(Ref::Path(p)) => if path_names(p).len() != 1 {
            Some(const_type_of(ws, join_fqn(path_names(p))))
        } else {
            Some(None)
        },
        _ => Some(None),
    }
}

/// The first local named `name`.
fn find_local(ls: &Vec<LocalType>, name: &str) -> (r: Option<usize>)
    ensures
        match r {
            Some(i) => i < ls@.len() && first_local(local_views(ls@), name@) == Some(local_view(ls@[i as int])),
            None => first_local(local_views(ls@), name@) is None,
        },
{
    let ghost lv = local_views(ls@);
    let mut i: usize = 0;
    assert(lv.skip(0) =~= lv);
    while i < ls.len()
        invariant
            i <= ls@.len(),
            lv == local_views(ls@),
            first_local(lv, name@) == first_local(lv.skip(i as int), name@),
        decreases ls@.len() - i,
    {
        let ghost t = lv.skip(i as int);
        assert(t.skip(1) =~= lv.skip(i + 1));
        if crate::strs::str_eq(ls[i].name.as_str(), name) {
            return Some(i);
        }
        i = i + 1;
    }
    assert(lv.skip(i as int) =~= seq![]);
    None
}

/// The plain view of an optional list of locals.
pub open spec fn locals_view(ls: Option<&Vec<LocalType>>) -> Option<Seq<LocalView>> {
    match ls {
        Some(v) => Some(local_views(v@)),
        None => None,
    }
}

/// The plain view of an optional owner.
pub open spec fn opt_owner(o: Option<(String, String)>) -> Option<OwnerView> {
    match o {
        Some(p) => Some(owner_view(p)),
        None => None,
    }
}

/// The owner a postfix base denotes (see [`base_owner_spec`]).
fn base_owner(ws: &Workspace, from: &str, e: &Expr, locals: Option<&Vec<LocalType>>) -> (r: Option<
    Option<(String, String)>,
>)
    ensures
        match r {
            Some(o) => base_owner_spec(*ws, from@, *e, locals_view(locals)) == Some(opt_owner(o)),
            None => base_owner_spec(*ws, from@, *e, locals_view(locals)) is None,
        },
    decreases e,
{
    match &e.kind {
        ExprKind::Ref(Ref::SelfNode(span)) => match ws.module(from) {
            Some(entry) => match enclosing_node(&entry.ast, span.start) {
                Some(node) => Some(Some((String::from_str(from), node))),
                None => Some(None),
            },
            None => Some(None),
        },
        ExprKind::Ref(Ref::Path(p)) => {
            let segs = path_names_of(p);
            match resolve_owner(ws, from, &segs) {
                Some(o) => Some(Some(o)),
                None => if segs.len() == 1 {
                    match locals {
                        Some(ls) => match find_local(ls, segs[0].as_str()) {
                            Some(i) => Some(type_owner(ws, from, ls[i].ty.as_str())),
                            None => Some(None),
                        },
                        None => None,
                    }
                } else {
                    Some(None)
                },
            }
        },
        ExprKind::Paren(inner) => base_owner(ws, from, inner, locals),
        _ => Some(None),
    }
}

/// The type of a chain of members from `owner` (see [`chain_type`]).
fn chain_type_of(ws: &Workspace, from: &str, owner: (String, String), segs: &Vec<PostfixSeg>) -> (r: Option<String>)
    ensures
        match r {
            Some(t) => chain_type(*ws, from@, owner_view(owner), segs@) == Some(t@),
            None => chain_type(*ws, from@, owner_view(owner), segs@) is None,
        },
{
    let ghost target = chain_type(*ws, from@, owner_view(owner), segs@);
    let ghost ov = owner_view(owner);
    let mut cur = owner;
    let mut i: usize = 0;
    assert(segs@.skip(0) =~= segs@);
    while i < segs.len()
        invariant
            i <= segs@.len(),
            target == chain_type(*ws, from@, owner_view(cur), segs@.skip(i as int)),
            target == chain_type(*ws, from@, ov, segs@),
            ov == owner_view(owner),
        decreases segs@.len() - i,
    {
        let ghost rest = segs@.skip(i as int);
        assert(rest[0] == segs@[i as int]);
        assert(rest.skip(1) =~= segs@.skip(i + 1));
        let model = match ws.module_model(cur.0.as_str()) {
            Some(m) => m,
            None => return None,
        };
        let ms = model.members(cur.1.as_str());
        let ghost mv = member_views(ms@);
        let name = segs[i].name.name.as_str();
        let mut j: usize = 0;
        let mut hit: Option<usize> = None;
        proof {
            crate::model::resolve::lemma_first_member(mv, name@, 0);
        }
        while j < ms.len() && hit.is_none()
            invariant
                j <= ms@.len(),
                mv == member_views(ms@),
                hit is None ==> first_member(mv, name@, 0) == first_member(mv, name@, j as int),
                hit matches Some(h) ==> h < ms@.len() && first_member(mv, name@, 0) == Some(h as int),
            decreases ms@.len() - j,
        {
            if crate::strs::str_eq(ms[j].name.as_str(), name) {
                hit = Some(j);
            }
            j = j + 1;
        }
        let h = match hit {
            Some(h) => h,
            None => return None,
        };
        let ty = ms[h].ty.clone();
        if i + 1 == segs.len() {
            return Some(ty);
        }
        cur = match type_owner(ws, from, ty.as_str()) {
            Some(o) => o,
            None => return None,
        };
        i = i + 1;
    }
    None
}

/// The inferred type of an expression (see [`expr_type_spec`]).
fn expr_type(ws: &Workspace, from: &str, e: &Expr) -> (r: Option<Option<String>>)
    ensures
        match r {
            Some(Some(t)) => expr_type_spec(*ws, from@, *e) == Some(Some(t@)),
            Some(None) => expr_type_spec(*ws, from@, *e) == Some(None::<Seq<char>>),
            None => expr_type_spec(*ws, from@, *e) is None,
        },
    decreases e,
{
    match &e.kind {
        ExprKind::Literal(l) => Some(Some(literal_type_of(l))),
        ExprKind::Paren(inner) => expr_type(ws, from, inner),
        ExprKind::From { ty, .. } => Some(Some(render_type(ty))),
        ExprKind::Postfix { base, segments } => match base_owner(ws, from, base, None) {
            Some(Some(o)) => Some(chain_type_of(ws, from, o, segments)),
            Some(None) => Some(None),
            None => None,
        },
        ExprKind::Binary { op, .. } => {
            let arith = match op {
                BinOp::Add | BinOp::Sub | BinOp::Mul | BinOp::Div | BinOp::Rem => true,
                _ => false,
            };
            Some(Some(String::from_str(if arith { "number" } else { "bool" })))
        },
        ExprKind::Unary { op, .. } => Some(Some(String::from_str(match op {
            UnaryOp::Not => "bool",
            UnaryOp::Neg => "number",
        }))),
        ExprKind::Ref(Ref::Path(p)) => if p.segments.len() != 1 {
            let names = path_names_of(p);
            let fqn = crate::model::resolve::join_segments(&names);
            Some(const_type(ws, fqn.as_str()))
        } else {
            Some(None)
        },
        _ => Some(None),
    }
}


// ----- the local types ----------------------------------------------------------------

/// Whether a type string is an array type (ends in `[]`).
pub open spec fn is_array_text(t: Seq<char>) -> bool {
    t.len() >= 2 && t[t.len() - 2] == '[' && t[t.len() - 1] == ']'
}

/// The local a statement binds: an assignment binds its name to its
/// right-hand side's type; a `for` over an array binds its element type.
/// `None` when typing the right-hand side is stuck.
pub open spec fn stmt_local(ws: Workspace, from: Seq<char>, s: Stmt) -> Option<Seq<LocalView>> {
    match s.kind {
        StmtKind::Assign { name, value } => match expr_type_spec(ws, from, value) {
            Some(Some(t)) => Some(seq![(name.name@, name.span, t)]),
            Some(None) => Some(seq![]),
            None => None,
        },
        StmtKind::For { binding, iter, .. } => match expr_type_spec(ws, from, iter) {
            Some(Some(t)) => if is_array_text(t) {
                Some(seq![(binding.name@, binding.span, t.take(t.len() - 2))])
            } else {
                Some(seq![]) 
            },
            Some(None) => Some(seq![]),
            None => None,
        },
        _ => Some(seq![]),
    }
}

/// Two partial lists joined; stuck when either is.
pub open spec fn join_locals(a: Option<Seq<LocalView>>, b: Option<Seq<LocalView>>) -> Option<Seq<LocalView>> {
    match (a, b) {
        (Some(x), Some(y)) => Some(x + y),
        _ => None,
    }
}

/// The locals statements bind, in order.
pub open spec fn stmts_locals(ws: Workspace, from: Seq<char>, ss: Seq<Stmt>) -> Option<Seq<LocalView>>
    decreases ss.len(),
{
    if ss.len() == 0 {
        Some(seq![])
    } else {
        join_locals(stmts_locals(ws, from, ss.drop_last()), stmt_local(ws, from, ss.last()))
    }
}

/// The locals bound in the callables among walk steps, each callable's
/// statements (nested ones after the statement holding them) in order.
pub open spec fn visits_locals(ws: Workspace, from: Seq<char>, vs: Seq<Visit>) -> Option<Seq<LocalView>>
    decreases vs.len(),
{
    if vs.len() == 0 {
        Some(seq![])
    } else {
        join_locals(
            visits_locals(ws, from, vs.drop_last()),
            match vs.last() {
                Visit::Callable(c, _) => match c.body {
                    Some(b) => stmts_locals(ws, from, stmts_walk(b.stmts@)),
                    None => Some(seq![]),
                },
                _ => Some(seq![]),
            },
        )
    }
}

/// Every typed local binding of module `from`, or `None` when some
/// binding's right-hand side is a chain rooted at a local binding (whose
/// typing would need this very list).
pub open spec fn local_types_of(ws: Workspace, from: Seq<char>) -> Option<Seq<LocalView>> {
    let k = first_entry(ws.entry_seq(), from);
    if k < 0 {
        Some(seq![])
    } else {
        visits_locals(ws, from, items_visits(ws.entry_seq()[k].ast.items@))
    }
}

proof fn lemma_local_views_push(ls: Seq<LocalType>, l: LocalType)
    ensures
        local_views(ls.push(l)) == local_views(ls).push(local_view(l)),
{
    assert(local_views(ls.push(l)) =~= local_views(ls).push(local_view(l)));
}

/// Appends the local a statement binds; `false` when stuck.
fn push_stmt_local(ws: &Workspace, from: &str, s: &Stmt, out: &mut Vec<LocalType>) -> (ok: bool)
    ensures
        ok == (stmt_local(*ws, from@, *s) is Some),
        ok ==> local_views(final(out)@) == local_views(old(out)@) + stmt_local(*ws, from@, *s)->0,
{
    let ghost o0 = local_views(out@);
    match &s.kind {
        StmtKind::Assign { name, value } => match expr_type(ws, from, value) {
            Some(Some(t)) => {
                proof {
                    lemma_local_views_push(out@, LocalType { name: name.name, name_span: name.span, ty: t });
                }
                out.push(LocalType { name: name.name.clone(), name_span: name.span, ty: t });
                assert(local_views(out@) =~= o0 + stmt_local(*ws, from@, *s)->0);
                true
            },
            Some(None) => {
                assert(o0 + seq![] =~= o0);
                true
            },
            None => false,
        },
        StmtKind::For { binding, iter, .. } => match expr_type(ws, from, iter) {
            Some(Some(t)) => {
                let cs = crate::strs::chars_of(t.as_str());
                let n = cs.len();
                if n >= 2 && cs[n - 2] == '[' && cs[n - 1] == ']' {
                    let mut el: Vec<char> = Vec::new();
                    let mut i: usize = 0;
                    while i < n - 2
                        invariant
                            i <= n - 2,
                            n == cs@.len(),
                            el@ == cs@.take(i as int),
                        decreases n - 2 - i,
                    {
                        el.push(cs[i]);
                        i = i + 1;
                        assert(el@ =~= cs@.take(i as int));
                    }
                    let elem = crate::strs::string_of(&el);
                    proof {
                        lemma_local_views_push(
                            out@,
                            LocalType { name: binding.name, name_span: binding.span, ty: elem },
                        );
                    }
                    out.push(LocalType { name: binding.name.clone(), name_span: binding.span, ty: elem });
                    assert(local_views(out@) =~= o0 + stmt_local(*ws, from@, *s)->0);
                } else {
                    assert(o0 + seq![] =~= o0);
                }
                true
            },
            Some(None) => {
                assert(o0 + seq![] =~= o0);
                true
            },
            None => false,
        },
        _ => {
            assert(o0 + seq![] =~= o0);
            true
        },
    }
}

/// Appends the locals a callable's body binds; `false` when stuck.
fn push_body_locals(ws: &Workspace, from: &str, b: &Block, out: &mut Vec<LocalType>) -> (ok: bool)
    ensures
        ok == (stmts_locals(*ws, from@, stmts_walk(b.stmts@)) is Some),
        ok ==> local_views(final(out)@) == local_views(old(out)@) + stmts_locals(*ws, from@, stmts_walk(b.stmts@))->0,
{
    let ghost o0 = local_views(out@);
    let ss = block_stmts(b);
    let ghost sw = stmt_refs(ss@);
    let mut i: usize = 0;
    assert(sw.take(0) =~= seq![]);
    assert(o0 + seq![] =~= o0);
    while i < ss.len()
        invariant
            i <= ss@.len(),
            sw == stmt_refs(ss@),
            sw == stmts_walk(b.stmts@),
            stmts_locals(*ws, from@, sw.take(i as int)) is Some,
            local_views(out@) == o0 + stmts_locals(*ws, from@, sw.take(i as int))->0,
        decreases ss@.len() - i,
    {
        assert(sw.take(i + 1).drop_last() =~= sw.take(i as int));
        assert(sw.take(i + 1).last() == *ss@[i as int]);
        let ok = push_stmt_local(ws, from, ss[i], out);
        if !ok {
            proof {
                lemma_stuck_stmts(*ws, from@, sw, i + 1);
            }
            return false;
        }
        assert(local_views(out@) =~= o0 + stmts_locals(*ws, from@, sw.take(i + 1))->0);
        i = i + 1;
    }
    assert(sw.take(ss@.len() as int) =~= sw);
    true
}

/// A stuck prefix leaves the whole list stuck.
proof fn lemma_stuck_stmts(ws: Workspace, from: Seq<char>, ss: Seq<Stmt>, k: int)
    requires
        0 <= k <= ss.len(),
        stmts_locals(ws, from, ss.take(k)) is None,
    ensures
        stmts_locals(ws, from, ss) is None,
    decreases ss.len() - k,
{
    if k < ss.len() {
        assert(ss.take(k + 1).drop_last() =~= ss.take(k));
        lemma_stuck_stmts(ws, from, ss, k + 1);
    } else {
        assert(ss.take(k) =~= ss);
    }
}

/// A stuck prefix leaves the whole walk stuck.
proof fn lemma_stuck_visits(ws: Workspace, from: Seq<char>, vs: Seq<Visit>, k: int)
    requires
        0 <= k <= vs.len(),
        visits_locals(ws, from, vs.take(k)) is None,
    ensures
        visits_locals(ws, from, vs) is None,
    decreases vs.len() - k,
{
    if k < vs.len() {
        assert(vs.take(k + 1).drop_last() =~= vs.take(k));
        lemma_stuck_visits(ws, from, vs, k + 1);
    } else {
        assert(vs.take(k) =~= vs);
    }
}

/// The local types of module `from`, or `None` when stuck (see
/// [`local_types_of`]).
pub(crate) fn collect_locals(ws: &Workspace, from: &str) -> (r: Option<Vec<LocalType>>)
    ensures
        match r {
            Some(v) => local_types_of(*ws, from@) == Some(local_views(v@)),
            None => local_types_of(*ws, from@) is None,
        },
{
    let mut out: Vec<LocalType> = Vec::new();
    let entry = match ws.module(from) {
        Some(e) => e,
        None => {
            assert(local_views(out@) =~= seq![]);
            return Some(out);
        },
    };
    let vs = module_visits(&entry.ast);
    let ghost all = visits_of(vs@);
    let mut i: usize = 0;
    assert(all.take(0) =~= seq![]);
    assert(local_views(out@) =~= seq![]);
    while i < vs.len()
        invariant
            i <= vs@.len(),
            all == visits_of(vs@),
            all == items_visits(entry.ast.items@),
            local_types_of(*ws, from@) == visits_locals(*ws, from@, all),
            visits_locals(*ws, from@, all.take(i as int)) == Some(local_views(out@)),
        decreases vs@.len() - i,
    {
        assert(all.take(i + 1).drop_last() =~= all.take(i as int));
        assert(all.take(i + 1).last() == visits_of(vs@)[i as int]);
        let ghost o0 = local_views(out@);
        match vs[i] {
            VisitRef::Callable(c, _) => match &c.body {
                Some(b) => {
                    let ok = push_body_locals(ws, from, b, &mut out);
                    if !ok {
                        proof {
                            lemma_stuck_visits(*ws, from@, all, i + 1);
                        }
                        return None;
                    }
                },
                None => {
                    assert(o0 + seq![] =~= o0);
                },
            },
            _ => {
                assert(o0 + seq![] =~= o0);
            },
        }
        i = i + 1;
    }
    assert(all.take(vs@.len() as int) =~= all);
    Some(out)
}

/// Whether module `from`'s local types can be collected: no binding's
/// right-hand side is a chain rooted at a local binding.
pub fn local_types_known(ws: &Workspace, from_fqn: &str) -> (b: bool)
    ensures
        b == (local_types_of(*ws, from_fqn@) is Some),
{
    collect_locals(ws, from_fqn).is_some()
}

/// Every typed local binding in module `from_fqn`: assignments whose
/// right-hand side has an inferable type, and `for` bindings over an
/// array, in walk order.
pub fn local_types(ws: &Workspace, from_fqn: &str) -> (r: Vec<LocalType>)
    requires
        local_types_of(*ws, from_fqn@) is Some,
    ensures
        local_types_of(*ws, from_fqn@) == Some(local_views(r@)),
{
    match collect_locals(ws, from_fqn) {
        Some(v) => v,
        None => Vec::new(),
    }
}

/// The first local binding named `name` in module `from_fqn`, with its
/// inferred type: a use resolves to its declaration's type.
pub fn binding_type_at(ws: &Workspace, from_fqn: &str, name: &str) -> (r: Option<LocalType>)
    requires
        local_types_of(*ws, from_fqn@) is Some,
    ensures
        match r {
            Some(l) => first_local(local_types_of(*ws, from_fqn@)->0, name@) == Some(local_view(l)),
            None => first_local(local_types_of(*ws, from_fqn@)->0, name@) is None,
        },
{
    let ls = local_types(ws, from_fqn);
    match find_local(&ls, name) {
        Some(i) => Some(
            LocalType { name: ls[i].name.clone(), name_span: ls[i].name_span, ty: ls[i].ty.clone() },
        ),
        None => None,
    }
}


// ----- the receiver at a `.` --------------------------------------------------------------

/// How many leading segments have a name that begins before `dot`.
pub open spec fn count_before(segs: Seq<PostfixSeg>, dot: int) -> int
    decreases segs.len(),
{
    if segs.len() == 0 || !(segs[0].name.span.start < dot) {
        0
    } else {
        1 + count_before(segs.skip(1), dot)
    }
}

/// The owner reached from `o` through the members `segs` name in turn,
/// each member's type naming the next owner.
pub open spec fn walk_owner(ws: Workspace, from: Seq<char>, o: OwnerView, segs: Seq<PostfixSeg>) -> Option<OwnerView>
    decreases segs.len(),
{
    if segs.len() == 0 {
        Some(o)
    } else {
        match ws.any_entry(o.0) {
            Some(e) => {
                let ms = members_of(members_views(e.model.member_lists@), o.1);
                match first_member(ms, segs[0].name.name@, 0) {
                    Some(j) => match type_owner_of(ws, from, ms[j].4) {
                        Some(o2) => walk_owner(ws, from, o2, segs.skip(1)),
                        None => None,
                    },
                    None => None,
                }
            },
            None => None,
        }
    }
}

/// The owner of the receiver whose trailing `.` sits at `dot`, inside an
/// expression: a chain's base and its call arguments come first (they are
/// more specific); then the chain itself when `dot` sits right after its
/// receiver (the base plus the segments whose names begin before `dot`).
pub open spec fn expr_owner_spec(ws: Workspace, from: Seq<char>, ls: Seq<LocalView>, e: Expr, dot: int) -> Option<
    OwnerView,
>
    decreases e,
{
    match e.kind {
        ExprKind::Postfix { base, segments } => {
            let b = expr_owner_spec(ws, from, ls, *base, dot);
            if b is Some {
                b
            } else {
                let a = segs_owner_spec(ws, from, ls, segments@, dot);
                if a is Some {
                    a
                } else {
                    let k = count_before(segments@, dot);
                    let recv_end = if k == 0 {
                        base.span.end as int
                    } else {
                        segments@[k - 1].span.end as int
                    };
                    let next_ok = k >= segments@.len() || dot < segments@[k].name.span.start;
                    if recv_end <= dot && next_ok && dot <= e.span.end {
                        match base_owner_spec(ws, from, *base, Some(ls)) {
                            Some(Some(o)) => walk_owner(ws, from, o, segments@.take(k)),
                            _ => None,
                        }
                    } else {
                        None
                    }
                }
            }
        },
        ExprKind::Paren(inner) => expr_owner_spec(ws, from, ls, *inner, dot),
        ExprKind::Unary { expr, .. } => expr_owner_spec(ws, from, ls, *expr, dot),
        ExprKind::Marker { payload, .. } => match payload {
            Some(p) => expr_owner_spec(ws, from, ls, *p, dot),
            None => None,
        },
        ExprKind::From { source, .. } => match source {
            FromSource::Compose(es) => exprs_owner_spec(ws, from, ls, es@, dot),
            FromSource::Convert(x) => expr_owner_spec(ws, from, ls, *x, dot),
        },
        _ => None,
    }
}

/// The first owner found among expressions, in order.
pub open spec fn exprs_owner_spec(ws: Workspace, from: Seq<char>, ls: Seq<LocalView>, es: Seq<Expr>, dot: int) -> Option<
    OwnerView,
>
    decreases es,
{
    if es.len() == 0 {
        None
    } else {
        let h = expr_owner_spec(ws, from, ls, es[0], dot);
        if h is Some {
            h
        } else {
            exprs_owner_spec(ws, from, ls, es.subrange(1, es.len() as int), dot)
        }
    }
}

/// The first owner found among the segments' call arguments, in order.
pub open spec fn segs_owner_spec(ws: Workspace, from: Seq<char>, ls: Seq<LocalView>, segs: Seq<PostfixSeg>, dot: int) -> Option<
    OwnerView,
>
    decreases segs,
{
    if segs.len() == 0 {
        None
    } else {
        let h = match segs[0].call_args {
            Some(args) => exprs_owner_spec(ws, from, ls, args@, dot),
            None => None,
        };
        if h is Some {
            h
        } else {
            segs_owner_spec(ws, from, ls, segs.subrange(1, segs.len() as int), dot)
        }
    }
}

/// The first owner found in a statement's expressions and blocks.
pub open spec fn stmt_owner_spec(ws: Workspace, from: Seq<char>, ls: Seq<LocalView>, s: Stmt, dot: int) -> Option<
    OwnerView,
>
    decreases s,
{
    match s.kind {
        StmtKind::Assign { value, .. } => expr_owner_spec(ws, from, ls, value, dot),
        StmtKind::Return(r) => match r {
            Some(e) => expr_owner_spec(ws, from, ls, e, dot),
            None => None,
        },
        StmtKind::Expr(e) => expr_owner_spec(ws, from, ls, e, dot),
        StmtKind::If { cond, then_block, else_block } => {
            let c = expr_owner_spec(ws, from, ls, cond, dot);
            if c is Some {
                c
            } else {
                let t = stmts_owner_spec(ws, from, ls, then_block.stmts@, dot);
                if t is Some {
                    t
                } else {
                    match else_block {
                        Some(b) => stmts_owner_spec(ws, from, ls, b.stmts@, dot),
                        None => None,
                    }
                }
            }
        },
        StmtKind::For { iter, body, .. } => {
            let c = expr_owner_spec(ws, from, ls, iter, dot);
            if c is Some {
                c
            } else {
                stmts_owner_spec(ws, from, ls, body.stmts@, dot)
            }
        },
        StmtKind::While { cond, body } => {
            let c = expr_owner_spec(ws, from, ls, cond, dot);
            if c is Some {
                c
            } else {
                stmts_owner_spec(ws, from, ls, body.stmts@, dot)
            }
        },
    }
}

/// The first owner found among statements, in order.
pub open spec fn stmts_owner_spec(ws: Workspace, from: Seq<char>, ls: Seq<LocalView>, ss: Seq<Stmt>, dot: int) -> Option<
    OwnerView,
>
    decreases ss,
{
    if ss.len() == 0 {
        None
    } else {
        let h = stmt_owner_spec(ws, from, ls, ss[0], dot);
        if h is Some {
            h
        } else {
            stmts_owner_spec(ws, from, ls, ss.subrange(1, ss.len() as int), dot)
        }
    }
}

/// The first owner found in a declaration: in a node's callables' bodies
/// and nested declarations, in order.
pub open spec fn decl_owner_spec(ws: Workspace, from: Seq<char>, ls: Seq<LocalView>, d: Decl, dot: int) -> Option<
    OwnerView,
>
    decreases d,
{
    match d.kind {
        DeclKind::Person(n) => node_owner_spec(ws, from, ls, n, dot),
        DeclKind::System(n) => node_owner_spec(ws, from, ls, n, dot),
        DeclKind::Container(n) => node_owner_spec(ws, from, ls, n, dot),
        DeclKind::Component(n) => node_owner_spec(ws, from, ls, n, dot),
        _ => None,
    }
}

/// The first owner found in a node's body.
pub open spec fn node_owner_spec(ws: Workspace, from: Seq<char>, ls: Seq<LocalView>, n: Node, dot: int) -> Option<
    OwnerView,
>
    decreases n,
{
    match n.body {
        Some(ms) => members_owner_spec(ws, from, ls, ms@, dot),
        None => None,
    }
}

/// The first owner found among body members, in order.
pub open spec fn members_owner_spec(ws: Workspace, from: Seq<char>, ls: Seq<LocalView>, ms: Seq<BodyMember>, dot: int) -> Option<
    OwnerView,
>
    decreases ms,
{
    if ms.len() == 0 {
        None
    } else {
        let h = match ms[0] {
            BodyMember::Callable(c) => match c.body {
                Some(b) => stmts_owner_spec(ws, from, ls, b.stmts@, dot),
                None => None,
            },
            BodyMember::Decl(d) => decl_owner_spec(ws, from, ls, d, dot),
        };
        if h is Some {
            h
        } else {
            members_owner_spec(ws, from, ls, ms.subrange(1, ms.len() as int), dot)
        }
    }
}

/// The first owner found among a module's items, in order.
pub open spec fn items_owner_spec(ws: Workspace, from: Seq<char>, ls: Seq<LocalView>, items: Seq<Item>, dot: int) -> Option<
    OwnerView,
>
    decreases items.len(),
{
    if items.len() == 0 {
        None
    } else {
        let h = match items[0] {
            Item::Decl(d) => decl_owner_spec(ws, from, ls, d, dot),
            Item::Feature(_) => None,
        };
        if h is Some {
            h
        } else {
            items_owner_spec(ws, from, ls, items.skip(1), dot)
        }
    }
}


/// The type of the member named `name` of the owner `o`.
pub open spec fn member_type_of(ws: Workspace, o: OwnerView, name: Seq<char>) -> Option<Seq<char>> {
    match ws.any_entry(o.0) {
        Some(e) => {
            let ms = members_of(members_views(e.model.member_lists@), o.1);
            match first_member(ms, name, 0) {
                Some(j) => Some(ms[j].4),
                None => None,
            }
        },
        None => None,
    }
}

/// The type of the member named `name` of the owner `o`.
fn member_type(ws: &Workspace, o: &(String, String), name: &str) -> (r: Option<String>)
    ensures
        match r {
            Some(t) => member_type_of(*ws, owner_view(*o), name@) == Some(t@),
            None => member_type_of(*ws, owner_view(*o), name@) is None,
        },
{
    let model = match ws.module_model(o.0.as_str()) {
        Some(m) => m,
        None => return None,
    };
    let ms = model.members(o.1.as_str());
    let ghost mv = member_views(ms@);
    let mut j: usize = 0;
    proof {
        crate::model::resolve::lemma_first_member(mv, name@, 0);
    }
    while j < ms.len()
        invariant
            j <= ms@.len(),
            mv == member_views(ms@),
            mv == members_of(members_views(model.member_lists@), o.1@),
            first_member(mv, name@, 0) == first_member(mv, name@, j as int),
            match ws.any_entry(o.0@) {
                Some(e) => *model == e.model,
                None => false,
            },
        decreases ms@.len() - j,
    {
        if crate::strs::str_eq(ms[j].name.as_str(), name) {
            return Some(ms[j].ty.clone());
        }
        j = j + 1;
    }
    None
}

/// The owner reached from `o` through the first `k` segments (see
/// [`walk_owner`]).
fn walk_owner_of(ws: &Workspace, from: &str, o: (String, String), segs: &Vec<PostfixSeg>, k: usize) -> (r: Option<
    (String, String),
>)
    requires
        k <= segs@.len(),
    ensures
        opt_owner(r) == walk_owner(*ws, from@, owner_view(o), segs@.take(k as int)),
{
    let ghost target = walk_owner(*ws, from@, owner_view(o), segs@.take(k as int));
    let ghost all = segs@.take(k as int);
    let ghost ov = owner_view(o);
    let mut cur = o;
    let mut i: usize = 0;
    assert(all.skip(0) =~= all);
    while i < k
        invariant
            i <= k <= segs@.len(),
            all == segs@.take(k as int),
            target == walk_owner(*ws, from@, owner_view(cur), all.skip(i as int)),
            target == walk_owner(*ws, from@, ov, all),
            ov == owner_view(o),
        decreases k - i,
    {
        let ghost rest = all.skip(i as int);
        assert(rest[0] == segs@[i as int]);
        assert(rest.skip(1) =~= all.skip(i + 1));
        let ty = match member_type(ws, &cur, segs[i].name.name.as_str()) {
            Some(t) => t,
            None => return None,
        };
        cur = match type_owner(ws, from, ty.as_str()) {
            Some(o2) => o2,
            None => return None,
        };
        i = i + 1;
    }
    assert(all.skip(i as int) =~= seq![]);
    Some(cur)
}

/// How many leading segments have a name that begins before `dot`.
fn count_before_of(segs: &Vec<PostfixSeg>, dot: u32) -> (k: usize)
    ensures
        k as int == count_before(segs@, dot as int),
        k <= segs@.len(),
{
    let mut k: usize = 0;
    assert(segs@.skip(0) =~= segs@);
    while k < segs.len() && segs[k].name.span.start < dot
        invariant
            k <= segs@.len(),
            count_before(segs@, dot as int) == k + count_before(segs@.skip(k as int), dot as int),
        decreases segs@.len() - k,
    {
        let ghost rest = segs@.skip(k as int);
        assert(rest.skip(1) =~= segs@.skip(k + 1));
        k = k + 1;
    }
    proof {
        if k < segs@.len() {
            assert(segs@.skip(k as int)[0] == segs@[k as int]);
        }
    }
    k
}

/// The owner of the receiver at `dot` inside an expression (see
/// [`expr_owner_spec`]).
fn expr_owner_at(ws: &Workspace, from: &str, ls: &Vec<LocalType>, e: &Expr, dot: u32) -> (r: Option<(String, String)>)
    ensures
        opt_owner(r) == expr_owner_spec(*ws, from@, local_views(ls@), *e, dot as int),
    decreases e,
{
    match &e.kind {
        ExprKind::Postfix { base, segments } => {
            match expr_owner_at(ws, from, ls, base, dot) {
                Some(o) => return Some(o),
                None => {},
            }
            proof {
                assert(decreases_to!(*e => e.kind));
            }
            match segs_owner_at(ws, from, ls, segments, dot) {
                Some(o) => return Some(o),
                None => {},
            }
            let k = count_before_of(segments, dot);
            let recv_end = if k == 0 {
                base.span.end
            } else {
                segments[k - 1].span.end
            };
            let next_ok = k >= segments.len() || dot < segments[k].name.span.start;
            if recv_end <= dot && next_ok && dot <= e.span.end {
                match base_owner(ws, from, base, Some(ls)) {
                    Some(Some(o)) => walk_owner_of(ws, from, o, segments, k),
                    _ => None,
                }
            } else {
                None
            }
        },
        ExprKind::Paren(inner) => expr_owner_at(ws, from, ls, inner, dot),
        ExprKind::Unary { expr, .. } => expr_owner_at(ws, from, ls, expr, dot),
        ExprKind::Marker { payload, .. } => match payload {
            Some(p) => expr_owner_at(ws, from, ls, p, dot),
            None => None,
        },
        ExprKind::From { source, .. } => match source {
            FromSource::Compose(es) => {
                proof {
                    assert(decreases_to!(*e => e.kind));
                }
                exprs_owner_at(ws, from, ls, es, dot)
            },
            FromSource::Convert(x) => expr_owner_at(ws, from, ls, x, dot),
        },
        _ => None,
    }
}

/// The first owner found among expressions (see [`exprs_owner_spec`]).
fn exprs_owner_at(ws: &Workspace, from: &str, ls: &Vec<LocalType>, es: &Vec<Expr>, dot: u32) -> (r: Option<
    (String, String),
>)
    ensures
        opt_owner(r) == exprs_owner_spec(*ws, from@, local_views(ls@), es@, dot as int),
    decreases es,
{
    let ghost lv = local_views(ls@);
    let ghost target = exprs_owner_spec(*ws, from@, lv, es@, dot as int);
    let mut i: usize = 0;
    assert(es@.subrange(0, es@.len() as int) =~= es@);
    while i < es.len()
        invariant
            i <= es@.len(),
            lv == local_views(ls@),
            target == exprs_owner_spec(*ws, from@, lv, es@, dot as int),
            target == exprs_owner_spec(*ws, from@, lv, es@.subrange(i as int, es@.len() as int), dot as int),
        decreases es@.len() - i,
    {
        let ghost rest = es@.subrange(i as int, es@.len() as int);
        assert(rest[0] == es@[i as int]);
        assert(rest.subrange(1, rest.len() as int) =~= es@.subrange(i + 1, es@.len() as int));
        proof {
            assert(decreases_to!(*es => es@));
            assert(decreases_to!(es@ => es@[i as int]));
        }
        match expr_owner_at(ws, from, ls, &es[i], dot) {
            Some(o) => return Some(o),
            None => {},
        }
        i = i + 1;
    }
    None
}

/// The first owner found among the segments' call arguments (see
/// [`segs_owner_spec`]).
fn segs_owner_at(ws: &Workspace, from: &str, ls: &Vec<LocalType>, segs: &Vec<PostfixSeg>, dot: u32) -> (r: Option<
    (String, String),
>)
    ensures
        opt_owner(r) == segs_owner_spec(*ws, from@, local_views(ls@), segs@, dot as int),
    decreases segs,
{
    let ghost lv = local_views(ls@);
    let ghost target = segs_owner_spec(*ws, from@, lv, segs@, dot as int);
    let mut i: usize = 0;
    assert(segs@.subrange(0, segs@.len() as int) =~= segs@);
    while i < segs.len()
        invariant
            i <= segs@.len(),
            lv == local_views(ls@),
            target == segs_owner_spec(*ws, from@, lv, segs@, dot as int),
            target == segs_owner_spec(*ws, from@, lv, segs@.subrange(i as int, segs@.len() as int), dot as int),
        decreases segs@.len() - i,
    {
        let ghost rest = segs@.subrange(i as int, segs@.len() as int);
        assert(rest[0] == segs@[i as int]);
        assert(rest.subrange(1, rest.len() as int) =~= segs@.subrange(i + 1, segs@.len() as int));
        match &segs[i].call_args {
            Some(args) => {
                proof {
                    assert(decreases_to!(*segs => segs@));
                    assert(decreases_to!(segs@ => segs@[i as int]));
                    assert(decreases_to!(segs@[i as int] => segs@[i as int].call_args));
                    assert(decreases_to!(segs@[i as int].call_args => *args));
                }
                match exprs_owner_at(ws, from, ls, args, dot) {
                    Some(o) => return Some(o),
                    None => {},
                }
            },
            None => {},
        }
        i = i + 1;
    }
    None
}


/// The first owner found in a statement (see [`stmt_owner_spec`]).
fn stmt_owner_at(ws: &Workspace, from: &str, ls: &Vec<LocalType>, s: &Stmt, dot: u32) -> (r: Option<(String, String)>)
    ensures
        opt_owner(r) == stmt_owner_spec(*ws, from@, local_views(ls@), *s, dot as int),
    decreases s,
{
    match &s.kind {
        StmtKind::Assign { value, .. } => expr_owner_at(ws, from, ls, value, dot),
        StmtKind::Return(r) => match r {
            Some(e) => expr_owner_at(ws, from, ls, e, dot),
            None => None,
        },
        StmtKind::Expr(e) => expr_owner_at(ws, from, ls, e, dot),
        StmtKind::If { cond, then_block, else_block } => {
            match expr_owner_at(ws, from, ls, cond, dot) {
                Some(o) => return Some(o),
                None => {},
            }
            proof {
                assert(decreases_to!(*s => s.kind));
            }
            match stmts_owner_at(ws, from, ls, &then_block.stmts, dot) {
                Some(o) => return Some(o),
                None => {},
            }
            match else_block {
                Some(b) => stmts_owner_at(ws, from, ls, &b.stmts, dot),
                None => None,
            }
        },
        StmtKind::For { iter, body, .. } => {
            match expr_owner_at(ws, from, ls, iter, dot) {
                Some(o) => return Some(o),
                None => {},
            }
            stmts_owner_at(ws, from, ls, &body.stmts, dot)
        },
        StmtKind::While { cond, body } => {
            match expr_owner_at(ws, from, ls, cond, dot) {
                Some(o) => return Some(o),
                None => {},
            }
            stmts_owner_at(ws, from, ls, &body.stmts, dot)
        },
    }
}

/// The first owner found among statements (see [`stmts_owner_spec`]).
fn stmts_owner_at(ws: &Workspace, from: &str, ls: &Vec<LocalType>, ss: &Vec<Stmt>, dot: u32) -> (r: Option<
    (String, String),
>)
    ensures
        opt_owner(r) == stmts_owner_spec(*ws, from@, local_views(ls@), ss@, dot as int),
    decreases ss,
{
    let ghost lv = local_views(ls@);
    let ghost target = stmts_owner_spec(*ws, from@, lv, ss@, dot as int);
    let mut i: usize = 0;
    assert(ss@.subrange(0, ss@.len() as int) =~= ss@);
    while i < ss.len()
        invariant
            i <= ss@.len(),
            lv == local_views(ls@),
            target == stmts_owner_spec(*ws, from@, lv, ss@, dot as int),
            target == stmts_owner_spec(*ws, from@, lv, ss@.subrange(i as int, ss@.len() as int), dot as int),
        decreases ss@.len() - i,
    {
        let ghost rest = ss@.subrange(i as int, ss@.len() as int);
        assert(rest[0] == ss@[i as int]);
        assert(rest.subrange(1, rest.len() as int) =~= ss@.subrange(i + 1, ss@.len() as int));
        proof {
            assert(decreases_to!(*ss => ss@));
            assert(decreases_to!(ss@ => ss@[i as int]));
        }
        match stmt_owner_at(ws, from, ls, &ss[i], dot) {
            Some(o) => return Some(o),
            None => {},
        }
        i = i + 1;
    }
    None
}

/// The first owner found in a declaration (see [`decl_owner_spec`]).
fn decl_owner_at(ws: &Workspace, from: &str, ls: &Vec<LocalType>, d: &Decl, dot: u32) -> (r: Option<(String, String)>)
    ensures
        opt_owner(r) == decl_owner_spec(*ws, from@, local_views(ls@), *d, dot as int),
    decreases d,
{
    match &d.kind {
        DeclKind::Person(n) | DeclKind::System(n) | DeclKind::Container(n) | DeclKind::Component(n) => {
            proof {
                if d.kind is Person {
                    assert(decreases_to!(d.kind => d.kind->Person_0));
                } else if d.kind is System {
                    assert(decreases_to!(d.kind => d.kind->System_0));
                } else if d.kind is Container {
                    assert(decreases_to!(d.kind => d.kind->Container_0));
                } else {
                    assert(decreases_to!(d.kind => d.kind->Component_0));
                }
            }
            match &n.body {
                Some(ms) => {
                    proof {
                        assert(decreases_to!(*n => n.body));
                        assert(decreases_to!(n.body => n.body->0));
                    }
                    members_owner_at(ws, from, ls, ms, dot)
                },
                None => None,
            }
        },
        _ => None,
    }
}

/// The first owner found among body members (see [`members_owner_spec`]).
fn members_owner_at(ws: &Workspace, from: &str, ls: &Vec<LocalType>, ms: &Vec<BodyMember>, dot: u32) -> (r: Option<
    (String, String),
>)
    ensures
        opt_owner(r) == members_owner_spec(*ws, from@, local_views(ls@), ms@, dot as int),
    decreases ms,
{
    let ghost lv = local_views(ls@);
    let ghost target = members_owner_spec(*ws, from@, lv, ms@, dot as int);
    let mut i: usize = 0;
    assert(ms@.subrange(0, ms@.len() as int) =~= ms@);
    while i < ms.len()
        invariant
            i <= ms@.len(),
            lv == local_views(ls@),
            target == members_owner_spec(*ws, from@, lv, ms@, dot as int),
            target == members_owner_spec(*ws, from@, lv, ms@.subrange(i as int, ms@.len() as int), dot as int),
        decreases ms@.len() - i,
    {
        let ghost rest = ms@.subrange(i as int, ms@.len() as int);
        assert(rest[0] == ms@[i as int]);
        assert(rest.subrange(1, rest.len() as int) =~= ms@.subrange(i + 1, ms@.len() as int));
        let found = match &ms[i] {
            BodyMember::Callable(c) => match &c.body {
                Some(b) => stmts_owner_at(ws, from, ls, &b.stmts, dot),
                None => None,
            },
            BodyMember::Decl(inner) => {
                proof {
                    assert(decreases_to!(*ms => ms@));
                    assert(decreases_to!(ms@ => ms@[i as int]));
                    assert(decreases_to!(ms@[i as int] => *inner));
                }
                decl_owner_at(ws, from, ls, inner, dot)
            },
        };
        match found {
            Some(o) => return Some(o),
            None => {},
        }
        i = i + 1;
    }
    None
}

/// The owner of the receiver whose trailing `.` sits at byte `dot` of
/// `module`, module `from_fqn`'s syntax tree: the first chain straddling
/// the cursor, typed through its base and the members left of the cursor.
pub fn owner_at_dot_in(ws: &Workspace, from_fqn: &str, module: &Module, dot: u32) -> (r: Option<(String, String)>)
    requires
        local_types_of(*ws, from_fqn@) is Some,
    ensures
        opt_owner(r) == items_owner_spec(*ws, from_fqn@, local_types_of(*ws, from_fqn@)->0, module.items@, dot as int),
{
    let ls = local_types(ws, from_fqn);
    let ghost lv = local_views(ls@);
    let ghost target = items_owner_spec(*ws, from_fqn@, lv, module.items@, dot as int);
    let mut i: usize = 0;
    assert(module.items@.skip(0) =~= module.items@);
    while i < module.items.len()
        invariant
            i <= module.items@.len(),
            lv == local_views(ls@),
            lv == local_types_of(*ws, from_fqn@)->0,
            target == items_owner_spec(*ws, from_fqn@, lv, module.items@, dot as int),
            target == items_owner_spec(*ws, from_fqn@, lv, module.items@.skip(i as int), dot as int),
        decreases module.items@.len() - i,
    {
        let ghost rest = module.items@.skip(i as int);
        assert(rest[0] == module.items@[i as int]);
        assert(rest.skip(1) =~= module.items@.skip(i + 1));
        let found = match &module.items[i] {
            Item::Decl(d) => decl_owner_at(ws, from_fqn, &ls, d, dot),
            Item::Feature(_) => None,
        };
        match found {
            Some(o) => return Some(o),
            None => {},
        }
        i = i + 1;
    }
    None
}

/// The owner of the receiver whose trailing `.` sits at byte `dot` of
/// `src`, module `from_fqn`'s source: member completion on a chain
/// (`Repo.fetch(id).value.`). Parses `src`, then proceeds as
/// [`owner_at_dot_in`] says on the parsed module.
pub fn owner_at_dot(ws: &Workspace, from_fqn: &str, src: &str, dot: u32) -> (r: Option<(String, String)>)
    requires
        src.spec_bytes().len() < u32::MAX,
        local_types_of(*ws, from_fqn@) is Some,
    ensures
        exists|m: Module|
            crate::parser::parsed_from(src.spec_bytes(), m) && opt_owner(r) == #[trigger] items_owner_spec(
                *ws,
                from_fqn@,
                local_types_of(*ws, from_fqn@)->0,
                m.items@,
                dot as int,
            ),
{
    let module = crate::parser::parse(src).ast;
    let r = owner_at_dot_in(ws, from_fqn, &module, dot);
    r
}

} // verus!
