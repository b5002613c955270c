//! The conservative expression typing the body checks rely on, and the
//! walk over a body's expressions.
//!
//! A type is inferred only where it is certain: literals, `Ok`/`Err`/
//! `Some`/`None` markers, `from` compositions, and bare references to
//! parameters and bindings. Calls, field accesses, `self` and qualified
//! paths infer to unknown, so no check ever fires on a guess.

use crate::ast::{Block, Callable, Expr, ExprKind, FromSource, Literal, MarkerKind, Param, PostfixSeg, Ref, Stmt, StmtKind, Type};
use crate::model::check::{block_stmts, path_leaf_of, stmt_refs, stmts_walk, union_has};
use crate::model::symbols::UnionView;
use vstd::prelude::*;
use vstd::string::{StrSliceExecFns, StringExecFns};

verus! {

/// An inferred type as plain values.
pub enum TyView {
    /// A primitive or named type, and whether it is an array.
    Named(Seq<char>, bool),
    /// A `Result` (inner types not tracked).
    ResultOf,
    /// An `Option` (inner type not tracked).
    OptionOf,
    /// Not inferable.
    Unknown,
}

/// An inferred expression type.
pub enum Ty {
    /// A primitive or named type, and whether it is an array.
    Named { name: String, array: bool },
    /// A `Result` value (inner types not tracked).
    ResultOf,
    /// An `Option` value (inner type not tracked).
    OptionOf,
    /// Not inferable.
    Unknown,
}

/// The plain view of an inferred type.
pub open spec fn ty_view(t: Ty) -> TyView {
    match t {
        Ty::Named { name, array } => TyView::Named(name@, array),
        Ty::ResultOf => TyView::ResultOf,
        Ty::OptionOf => TyView::OptionOf,
        Ty::Unknown => TyView::Unknown,
    }
}

impl Ty {
    /// A copy of this type.
    pub fn copy(&self) -> (t: Ty)
        ensures
            ty_view(t) == ty_view(*self),
    {
        match self {
            Ty::Named { name, array } => Ty::Named { name: name.clone(), array: *array },
            Ty::ResultOf => Ty::ResultOf,
            Ty::OptionOf => Ty::OptionOf,
            Ty::Unknown => Ty::Unknown,
        }
    }
}

/// A type's rendering in a diagnostic: `name`, `name[]`, `Result`,
/// `Option`, or `?` when unknown.
pub open spec fn ty_text(t: TyView) -> Seq<char> {
    match t {
        TyView::Named(n, a) => if a {
            n + "[]"@
        } else {
            n
        },
        TyView::ResultOf => "Result"@,
        TyView::OptionOf => "Option"@,
        TyView::Unknown => "?"@,
    }
}

/// Renders an inferred type for a diagnostic.
pub fn ty_display(t: &Ty) -> (s: String)
    ensures
        s@ == ty_text(ty_view(*t)),
{
    match t {
        Ty::Named { name, array } => {
            let mut s = name.clone();
            if *array {
                s.append("[]");
            }
            s
        },
        Ty::ResultOf => String::from_str("Result"),
        Ty::OptionOf => String::from_str("Option"),
        Ty::Unknown => String::from_str("?"),
    }
}

/// The inferred type of a type annotation: `Result` and `Option` by name,
/// else its base name's last segment and array flag.
pub open spec fn ty_of_type(t: Type) -> TyView {
    let leaf = path_leaf_of(t.name);
    if leaf == "Result"@ {
        TyView::ResultOf
    } else if leaf == "Option"@ {
        TyView::OptionOf
    } else {
        TyView::Named(leaf, t.is_array)
    }
}

/// The last segment of a type's base name, or nothing.
pub fn type_leaf(t: &Type) -> (r: &str)
    ensures
        r@ == path_leaf_of(t.name),
{
    let n = t.name.segments.len();
    if n > 0 {
        t.name.segments[n - 1].name.as_str()
    } else {
        proof {
            reveal_strlit("");
        }
        ""
    }
}

/// The inferred type of a type annotation (see [`ty_of_type`]).
pub fn ty_from_ast(t: &Type) -> (r: Ty)
    ensures
        ty_view(r) == ty_of_type(*t),
{
    let leaf = type_leaf(t);
    if crate::strs::str_eq(leaf, "Result") {
        Ty::ResultOf
    } else if crate::strs::str_eq(leaf, "Option") {
        Ty::OptionOf
    } else {
        Ty::Named { name: String::from_str(leaf), array: t.is_array }
    }
}

/// A typing context as plain values: names and their inferred types, the
/// last entry for a name winning.
pub type VarsView = Seq<(Seq<char>, TyView)>;

/// The type of `name` in `vars`, unknown when it has none.
pub open spec fn var_ty(vars: VarsView, name: Seq<char>) -> TyView
    decreases vars.len(),
{
    if vars.len() == 0 {
        TyView::Unknown
    } else if vars.last().0 == name {
        vars.last().1
    } else {
        var_ty(vars.drop_last(), name)
    }
}

/// The inferred type of an expression in the context `vars`.
pub open spec fn infer_spec(vars: VarsView, e: Expr) -> TyView
    decreases e,
{
    match e.kind {
        ExprKind::Literal(l) => match l {
            Literal::String { .. } => TyView::Named("string"@, false),
            Literal::Number { .. } => TyView::Named("number"@, false),
            Literal::Bool { .. } => TyView::Named("bool"@, false),
        },
        ExprKind::Unary { .. } => TyView::Named("bool"@, false),
        ExprKind::Marker { kind, .. } => match kind {
            MarkerKind::OkMarker => TyView::ResultOf,
            MarkerKind::ErrMarker => TyView::ResultOf,
            MarkerKind::SomeMarker => TyView::OptionOf,
            MarkerKind::NoneMarker => TyView::OptionOf,
        },
        ExprKind::From { ty, .. } => TyView::Named(path_leaf_of(ty.name), ty.is_array),
        ExprKind::Ref(Ref::Path(p)) => if p.segments@.len() == 1 {
            var_ty(vars, p.segments@[0].name@)
        } else {
            TyView::Unknown
        },
        ExprKind::Paren(inner) => infer_spec(vars, *inner),
        _ => TyView::Unknown,
    }
}

/// A typing context: names and their inferred types, the last entry for a
/// name winning.
pub struct Vars {
    /// The entries, in order.
    pub entries: Vec<(String, Ty)>,
}

impl Vars {
    /// The entries as plain values.
    pub open spec fn view_vars(&self) -> VarsView {
        self.entries@.map_values(|p: (String, Ty)| (p.0@, ty_view(p.1)))
    }

    /// The type of `name` (see [`var_ty`]).
    pub fn get(&self, name: &str) -> (t: Ty)
        ensures
            ty_view(t) == var_ty(self.view_vars(), name@),
    {
        let ghost vv = self.view_vars();
        let mut i: usize = self.entries.len();
        assert(vv.take(i as int) =~= vv);
        while i > 0
            invariant
                i <= self.entries@.len(),
                vv == self.view_vars(),
                var_ty(vv, name@) == var_ty(vv.take(i as int), name@),
            decreases i,
        {
            assert(vv.take(i as int).last() == vv[i - 1]);
            if crate::strs::str_eq(self.entries[i - 1].0.as_str(), name) {
                return self.entries[i - 1].1.copy();
            }
            assert(vv.take(i as int).drop_last() =~= vv.take(i - 1));
            i = i - 1;
        }
        Ty::Unknown
    }

    /// Records `name` with type `t`.
    pub fn insert(&mut self, name: &str, t: Ty)
        ensures
            final(self).view_vars() == old(self).view_vars().push((name@, ty_view(t))),
    {
        let ghost v0 = self.view_vars();
        let ghost tv = ty_view(t);
        self.entries.push((String::from_str(name), t));
        assert(self.view_vars() =~= v0.push((name@, tv)));
    }
}

/// Infers an expression's type where it is certain (see [`infer_spec`]).
pub fn infer(e: &Expr, vars: &Vars) -> (t: Ty)
    ensures
        ty_view(t) == infer_spec(vars.view_vars(), *e),
    decreases e,
{
    match &e.kind {
        ExprKind::Literal(l) => match l {
            Literal::String { .. } => Ty::Named { name: String::from_str("string"), array: false },
            Literal::Number { .. } => Ty::Named { name: String::from_str("number"), array: false },
            Literal::Bool { .. } => Ty::Named { name: String::from_str("bool"), array: false },
        },
        ExprKind::Unary { .. } => Ty::Named { name: String::from_str("bool"), array: false },
        ExprKind::Marker { kind, .. } => match kind {
            MarkerKind::OkMarker | MarkerKind::ErrMarker => Ty::ResultOf,
            MarkerKind::SomeMarker | MarkerKind::NoneMarker => Ty::OptionOf,
        },
        ExprKind::From { ty, .. } => Ty::Named { name: String::from_str(type_leaf(ty)), array: ty.is_array },
        ExprKind::Ref(Ref::Path(p)) => if p.is_simple() {
            vars.get(p.segments[0].name.as_str())
        } else {
            Ty::Unknown
        },
        ExprKind::Paren(inner) => infer(inner, vars),
        _ => Ty::Unknown,
    }
}

/// The parameters' types.
pub open spec fn params_vars(ps: Seq<Param>) -> VarsView {
    ps.map_values(|p: Param| (p.name.name@, ty_of_type(p.ty)))
}

/// The context after the bindings of statements `ss`: an assignment binds
/// its name to its value's inferred type; a `for` binding is unknown.
pub open spec fn bind_vars(vars: VarsView, ss: Seq<Stmt>) -> VarsView
    decreases ss.len(),
{
    if ss.len() == 0 {
        vars
    } else {
        let v = bind_vars(vars, ss.drop_last());
        match ss.last().kind {
            StmtKind::Assign { name, value } => v.push((name.name@, infer_spec(v, value))),
            StmtKind::For { binding, .. } => v.push((binding.name@, TyView::Unknown)),
            _ => v,
        }
    }
}

/// A callable body's typing context: its parameters, then its bindings in
/// walk order.
pub open spec fn vars_of(c: Callable, b: Block) -> VarsView {
    bind_vars(params_vars(c.params@), stmts_walk(b.stmts@))
}

/// Builds a callable body's typing context (see [`vars_of`]).
pub fn build_vars(callable: &Callable, body: &Block) -> (v: Vars)
    ensures
        v.view_vars() == vars_of(*callable, *body),
{
    let mut vars = Vars { entries: Vec::new() };
    let ps = &callable.params;
    let mut i: usize = 0;
    assert(vars.view_vars() =~= params_vars(ps@.take(0)));
    while i < ps.len()
        invariant
            i <= ps@.len(),
            ps == &callable.params,
            vars.view_vars() == params_vars(ps@.take(i as int)),
        decreases ps@.len() - i,
    {
        vars.insert(ps[i].name.name.as_str(), ty_from_ast(&ps[i].ty));
        assert(params_vars(ps@.take(i + 1)) =~= params_vars(ps@.take(i as int)).push(
            (ps@[i as int].name.name@, ty_of_type(ps@[i as int].ty)),
        ));
        i = i + 1;
    }
    assert(ps@.take(ps@.len() as int) =~= ps@);
    let ghost v0 = vars.view_vars();
    let stmts = block_stmts(body);
    let ghost all = stmt_refs(stmts@);
    let mut j: usize = 0;
    assert(all.take(0) =~= seq![]);
    while j < stmts.len()
        invariant
            j <= stmts@.len(),
            all == stmt_refs(stmts@),
            vars.view_vars() == bind_vars(v0, all.take(j as int)),
        decreases stmts@.len() - j,
    {
        assert(all.take(j + 1).drop_last() =~= all.take(j as int));
        assert(all.take(j + 1).last() == *stmts@[j as int]);
        match &stmts[j].kind {
            StmtKind::Assign { name, value } => {
                let t = infer(value, &vars);
                vars.insert(name.name.as_str(), t);
            },
            StmtKind::For { binding, .. } => {
                vars.insert(binding.name.as_str(), Ty::Unknown);
            },
            _ => {},
        }
        j = j + 1;
    }
    assert(all.take(all.len() as int) =~= all);
    vars
}

/// Whether an inferred argument type matches a parameter shape `(leaf,
/// array)`: a variant satisfies its union; an unknown type matches anything.
pub open spec fn arg_matches_spec(us: Seq<UnionView>, arg: TyView, leaf: Seq<char>, array: bool) -> bool {
    match arg {
        TyView::Named(n, a) => a == array && (n == leaf || union_has(us, leaf, n)),
        TyView::ResultOf => !array && leaf == "Result"@,
        TyView::OptionOf => !array && leaf == "Option"@,
        TyView::Unknown => true,
    }
}

// ----- the walk over a body's expressions ----------------------------------------

/// An expression, then its sub-expressions in evaluation order.
pub open spec fn expr_walk(e: Expr) -> Seq<Expr>
    decreases e,
{
    seq![e] + match e.kind {
        ExprKind::Postfix { base, segments } => expr_walk(*base) + segs_walk(segments@),
        ExprKind::From { source, .. } => match source {
            FromSource::Compose(v) => exprs_walk(v@),
            FromSource::Convert(b) => expr_walk(*b),
        },
        ExprKind::Marker { payload, .. } => match payload {
            Some(p) => expr_walk(*p),
            None => seq![],
        },
        ExprKind::OwnCall { args, .. } => exprs_walk(args@),
        ExprKind::Unary { expr, .. } => expr_walk(*expr),
        ExprKind::Paren(inner) => expr_walk(*inner),
        ExprKind::Binary { left, right, .. } => expr_walk(*left) + expr_walk(*right),
        ExprKind::Ref(_) => seq![],
        ExprKind::Literal(_) => seq![],
    }
}

/// The walks of expressions, in order.
pub open spec fn exprs_walk(es: Seq<Expr>) -> Seq<Expr>
    decreases es,
{
    if es.len() == 0 {
        seq![]
    } else {
        exprs_walk(es.subrange(0, es.len() - 1)) + expr_walk(es[es.len() - 1])
    }
}

/// The walks of postfix segments' call arguments.
pub open spec fn segs_walk(segs: Seq<PostfixSeg>) -> Seq<Expr>
    decreases segs,
{
    if segs.len() == 0 {
        seq![]
    } else {
        segs_walk(segs.subrange(0, segs.len() - 1)) + match segs[segs.len() - 1].call_args {
            Some(args) => exprs_walk(args@),
            None => seq![],
        }
    }
}

/// The walk of a statement's own operand.
pub open spec fn stmt_operands(s: Stmt) -> Seq<Expr> {
    match s.kind {
        StmtKind::Assign { value, .. } => expr_walk(value),
        StmtKind::Expr(value) => expr_walk(value),
        StmtKind::Return(v) => match v {
            Some(e) => expr_walk(e),
            None => seq![],
        },
        StmtKind::If { cond, .. } => expr_walk(cond),
        StmtKind::While { cond, .. } => expr_walk(cond),
        StmtKind::For { iter, .. } => expr_walk(iter),
    }
}

/// The operands' walks of statements, in order.
pub open spec fn operands_walk(ss: Seq<Stmt>) -> Seq<Expr>
    decreases ss.len(),
{
    if ss.len() == 0 {
        seq![]
    } else {
        operands_walk(ss.drop_last()) + stmt_operands(ss.last())
    }
}

/// The expressions borrowed.
pub open spec fn expr_refs(v: Seq<&Expr>) -> Seq<Expr> {
    v.map_values(|e: &Expr| *e)
}

proof fn lemma_expr_refs_push<'a>(v: Seq<&'a Expr>, e: &'a Expr)
    ensures
        expr_refs(v.push(e)) == expr_refs(v).push(*e),
{
    assert(expr_refs(v.push(e)) =~= expr_refs(v).push(*e));
}

/// Appends the walk of an expression.
fn walk_expr<'a>(e: &'a Expr, out: &mut Vec<&'a Expr>)
    ensures
        expr_refs(final(out)@) == expr_refs(old(out)@) + expr_walk(*e),
    decreases e,
{
    let ghost o0 = expr_refs(out@);
    proof {
        lemma_expr_refs_push(out@, e);
    }
    out.push(e);
    match &e.kind {
        ExprKind::Postfix { base, segments } => {
            walk_expr(base, out);
            walk_segs(segments, out);
        },
        ExprKind::From { source, .. } => match source {
            FromSource::Compose(v) => walk_exprs(v, out),
            FromSource::Convert(b) => walk_expr(b, out),
        },
        ExprKind::Marker { payload, .. } => match payload {
            Some(p) => walk_expr(p, out),
            None => {},
        },
        ExprKind::OwnCall { args, .. } => walk_exprs(args, out),
        ExprKind::Unary { expr: inner, .. } => walk_expr(inner, out),
        ExprKind::Paren(inner) => walk_expr(inner, out),
        ExprKind::Binary { left, right, .. } => {
            walk_expr(left, out);
            walk_expr(right, out);
        },
        _ => {},
    }
    assert(expr_refs(out@) =~= o0 + expr_walk(*e));
}

/// Appends the walks of expressions.
fn walk_exprs<'a>(es: &'a Vec<Expr>, out: &mut Vec<&'a Expr>)
    ensures
        expr_refs(final(out)@) == expr_refs(old(out)@) + exprs_walk(es@),
    decreases es,
{
    let ghost o0 = expr_refs(out@);
    let mut i: usize = 0;
    assert(es@.subrange(0, 0) =~= seq![]);
    assert(o0 + seq![] =~= o0);
    while i < es.len()
        invariant
            i <= es@.len(),
            expr_refs(out@) == o0 + exprs_walk(es@.subrange(0, i as int)),
        decreases es@.len() - i,
    {
        proof {
            assert(decreases_to!(*es => es@));
            assert(decreases_to!(es@ => es@[i as int]));
            let t = es@.subrange(0, i + 1);
            assert(t.subrange(0, t.len() - 1) =~= es@.subrange(0, i as int));
        }
        walk_expr(&es[i], out);
        assert(expr_refs(out@) =~= o0 + exprs_walk(es@.subrange(0, i + 1)));
        i = i + 1;
    }
    assert(es@.subrange(0, es@.len() as int) =~= es@);
}

/// Appends the walks of postfix segments' call arguments.
fn walk_segs<'a>(segments: &'a Vec<PostfixSeg>, out: &mut Vec<&'a Expr>)
    ensures
        expr_refs(final(out)@) == expr_refs(old(out)@) + segs_walk(segments@),
    decreases segments,
{
    let ghost o0 = expr_refs(out@);
    let mut i: usize = 0;
    assert(segments@.subrange(0, 0) =~= seq![]);
    assert(o0 + seq![] =~= o0);
    while i < segments.len()
        invariant
            i <= segments@.len(),
            expr_refs(out@) == o0 + segs_walk(segments@.subrange(0, i as int)),
        decreases segments@.len() - i,
    {
        proof {
            let t = segments@.subrange(0, i + 1);
            assert(t.subrange(0, t.len() - 1) =~= segments@.subrange(0, i as int));
        }
        let ghost before = expr_refs(out@);
        match &segments[i].call_args {
            Some(args) => {
                proof {
                    assert(decreases_to!(*segments => segments@));
                    assert(decreases_to!(segments@ => segments@[i as int]));
                    assert(decreases_to!(segments@[i as int] => segments@[i as int].call_args));
                    assert(decreases_to!(segments@[i as int].call_args => segments@[i as int].call_args->0));
                }
                walk_exprs(args, out);
            },
            None => {
                assert(before + seq![] =~= before);
            },
        }
        assert(expr_refs(out@) =~= o0 + segs_walk(segments@.subrange(0, i + 1)));
        i = i + 1;
    }
    assert(segments@.subrange(0, segments@.len() as int) =~= segments@);
}

/// Every expression of a block: each statement's operand and all its
/// sub-expressions, statements in walk order.
pub fn block_exprs<'a>(b: &'a Block) -> (r: Vec<&'a Expr>)
    ensures
        expr_refs(r@) == operands_walk(stmts_walk(b.stmts@)),
{
    let stmts = block_stmts(b);
    let ghost all = stmt_refs(stmts@);
    let mut out: Vec<&'a Expr> = Vec::new();
    let mut i: usize = 0;
    assert(all.take(0) =~= seq![]);
    assert(expr_refs(out@) =~= seq![]);
    while i < stmts.len()
        invariant
            i <= stmts@.len(),
            all == stmt_refs(stmts@),
            expr_refs(out@) == operands_walk(all.take(i as int)),
        decreases stmts@.len() - i,
    {
        assert(all.take(i + 1).drop_last() =~= all.take(i as int));
        assert(all.take(i + 1).last() == *stmts@[i as int]);
        let ghost before = expr_refs(out@);
        match &stmts[i].kind {
            StmtKind::Assign { value, .. } => walk_expr(value, &mut out),
            StmtKind::Expr(value) => walk_expr(value, &mut out),
            StmtKind::Return(v) => match v {
                Some(e) => walk_expr(e, &mut out),
                None => {
                    assert(before + seq![] =~= before);
                },
            },
            StmtKind::If { cond, .. } => walk_expr(cond, &mut out),
            StmtKind::While { cond, .. } => walk_expr(cond, &mut out),
            StmtKind::For { iter, .. } => walk_expr(iter, &mut out),
        }
        i = i + 1;
    }
    assert(all.take(all.len() as int) =~= all);
    out
}

} // verus!
