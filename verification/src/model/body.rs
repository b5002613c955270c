//! The checks over a callable's body: declared return types, `from`
//! targets, `for` iterables, `self.` calls, bare references, field reads
//! on records, call arity and argument types, and condition types.
//!
//! Every check walks the body once, statements or expressions in walk
//! order, and fires only where the types involved are certain.

use crate::ast::{Block, Callable, Expr, ExprKind, Ident, Literal, MarkerKind, Param, PostfixSeg, Ref, Stmt, StmtKind, Type};
use crate::diagnostic::Diagnostic;
use crate::model::arch::{diag_views, DiagView};
use crate::model::check::{
    binders, hint_of, is_primitive, is_primitive_word, model_syms, path_leaf_of, strs_view, suggest, union_has,
    variant_names_of, Checker,
};
use crate::model::check::{block_stmts, stmt_refs};
use crate::model::cross_module::{err, leaf, leaf_of, push_error, sub_string, tick, ticked};
use crate::model::symbols::{
    last_sym, latest, member_views, members_of, members_views, sym_views, MemberKind, MemberView, Model, SymView,
    SymbolKind, UnionView,
};
use crate::model::typing::{
    arg_matches_spec, expr_refs, infer, infer_spec, ty_display, ty_text, ty_view, type_leaf, Ty, TyView, Vars, VarsView,
};
use crate::strs::decimal;
use vstd::prelude::*;
use vstd::string::{StrSliceExecFns, StringExecFns};

verus! {

// ----- return types ---------------------------------------------------------

/// A declared type's rendering in a diagnostic: its base name's last
/// segment, with `[]` for an array.
pub open spec fn type_text_of(t: Type) -> Seq<char> {
    if t.is_array {
        path_leaf_of(t.name) + "[]"@
    } else {
        path_leaf_of(t.name)
    }
}

/// Whether an inferred type satisfies the declared return type `ret`: the
/// array flags agree and the names match, or the name is a variant of the
/// union `ret` names; `Result` and `Option` by name; unknown always.
pub open spec fn satisfies_ret(us: Seq<UnionView>, t: TyView, ret: Type) -> bool {
    match t {
        TyView::Named(n, a) => ret.is_array == a && (path_leaf_of(ret.name) == n || union_has(us, path_leaf_of(ret.name), n)),
        TyView::ResultOf => !ret.is_array && path_leaf_of(ret.name) == "Result"@,
        TyView::OptionOf => !ret.is_array && path_leaf_of(ret.name) == "Option"@,
        TyView::Unknown => true,
    }
}

/// A `return` whose value has a certain type must match the declared one.
pub open spec fn return_type_errs(us: Seq<UnionView>, vars: VarsView, ret: Type, ss: Seq<Stmt>) -> Seq<DiagView>
    decreases ss.len(),
{
    if ss.len() == 0 {
        seq![]
    } else {
        return_type_errs(us, vars, ret, ss.drop_last()) + match ss.last().kind {
            StmtKind::Return(v) => match v {
                Some(e) => {
                    let t = infer_spec(vars, e);
                    if !(t is Unknown) && !satisfies_ret(us, t, ret) {
                        seq![
                            err(
                                e.span,
                                "return type "@ + ticked(ty_text(t)) + " does not match declared "@ + ticked(
                                    type_text_of(ret),
                                ),
                            ),
                        ]
                    } else {
                        seq![]
                    }
                },
                None => seq![],
            },
            _ => seq![],
        }
    }
}

// ----- `from` targets -------------------------------------------------------------

/// A `from` whose target is a primitive, `Result`, `Option`, or a node of
/// this module is an error: it must be a `data` record or variant.
pub open spec fn from_errs(model: Model, es: Seq<Expr>) -> Seq<DiagView>
    decreases es.len(),
{
    if es.len() == 0 {
        seq![]
    } else {
        from_errs(model, es.drop_last()) + match es.last().kind {
            ExprKind::From { ty, .. } => {
                let leaf = path_leaf_of(ty.name);
                let k = last_sym(model_syms(model), leaf, false);
                if is_primitive_word(leaf) || leaf == "Result"@ || leaf == "Option"@ || (k >= 0 && model_syms(model)[k].2
                    != SymbolKind::Data) {
                    seq![err(es.last().span, "`from` target "@ + ticked(leaf) + " is not a `data` record or variant"@)]
                } else {
                    seq![]
                }
            },
            _ => seq![],
        }
    }
}

// ----- `for` iterables -----------------------------------------------------------

/// The type of the last parameter named `name`, if any.
pub open spec fn param_type_of(ps: Seq<Param>, name: Seq<char>) -> Option<Type>
    decreases ps.len(),
{
    if ps.len() == 0 {
        None
    } else if ps.last().name.name@ == name {
        Some(ps.last().ty)
    } else {
        param_type_of(ps.drop_last(), name)
    }
}

/// The `(type name, is array)` of an iterable whose type is certain: a
/// parameter, a literal, a marker, or a `from`.
pub open spec fn iter_shape_of(ps: Seq<Param>, e: Expr) -> Option<(Seq<char>, bool)>
    decreases e,
{
    match e.kind {
        ExprKind::Ref(Ref::Path(p)) => if p.segments@.len() == 1 {
            match param_type_of(ps, p.segments@[0].name@) {
                Some(t) => Some((path_leaf_of(t.name), t.is_array)),
                None => None,
            }
        } else {
            None
        },
        ExprKind::Literal(l) => match l {
            Literal::String { .. } => Some(("string"@, false)),
            Literal::Number { .. } => Some(("number"@, false)),
            Literal::Bool { .. } => Some(("bool"@, false)),
        },
        ExprKind::Marker { kind, .. } => match kind {
            MarkerKind::OkMarker => Some(("Result"@, false)),
            MarkerKind::ErrMarker => Some(("Result"@, false)),
            MarkerKind::SomeMarker => Some(("Option"@, false)),
            MarkerKind::NoneMarker => Some(("Option"@, false)),
        },
        ExprKind::From { ty, .. } => Some((path_leaf_of(ty.name), ty.is_array)),
        ExprKind::Paren(inner) => iter_shape_of(ps, *inner),
        _ => None,
    }
}

/// A `for` over an iterable of a certain non-array type is an error.
pub open spec fn for_errs(ps: Seq<Param>, ss: Seq<Stmt>) -> Seq<DiagView>
    decreases ss.len(),
{
    if ss.len() == 0 {
        seq![]
    } else {
        for_errs(ps, ss.drop_last()) + match ss.last().kind {
            StmtKind::For { iter, .. } => match iter_shape_of(ps, iter) {
                Some(sh) => if !sh.1 {
                    seq![err(iter.span, "`for` iterates a non-array type "@ + ticked(sh.0))]
                } else {
                    seq![]
                },
                None => seq![],
            },
            _ => seq![],
        }
    }
}

// ----- `self.` calls -------------------------------------------------------------

/// The names of the callables among members, in order.
pub open spec fn callable_names(ms: Seq<MemberView>) -> Seq<Seq<char>>
    decreases ms.len(),
{
    if ms.len() == 0 {
        seq![]
    } else {
        callable_names(ms.drop_last()) + if ms.last().1 == MemberKind::Callable {
            seq![ms.last().0]
        } else {
            seq![]
        }
    }
}

/// The members of the node or record named `owner` in `model`.
pub open spec fn owner_members(model: Model, owner: Seq<char>) -> Seq<MemberView> {
    members_of(members_views(model.member_lists@), owner)
}

/// A `self.name(..)` call must name a callable of the enclosing node.
pub open spec fn self_call_errs(model: Model, owner: Seq<char>, es: Seq<Expr>) -> Seq<DiagView>
    decreases es.len(),
{
    if es.len() == 0 {
        seq![]
    } else {
        self_call_errs(model, owner, es.drop_last()) + match es.last().kind {
            ExprKind::Postfix { base, segments } => if (base.kind matches ExprKind::Ref(Ref::SelfNode(_)))
                && segments@.len() > 0 && segments@[0].call_args is Some && !callable_names(
                owner_members(model, owner),
            ).contains(segments@[0].name.name@) {
                seq![
                    err(
                        segments@[0].span,
                        "`self."@ + segments@[0].name.name@ + "` does not name a callable of "@ + ticked(owner)
                            + hint_of(segments@[0].name.name@, callable_names(owner_members(model, owner))),
                    ),
                ]
            } else {
                seq![]
            },
            _ => seq![],
        }
    }
}

// ----- bare references -----------------------------------------------------------

/// The names in scope in a body: the parameters, then every binding.
pub open spec fn scope_names(c: Callable, ss: Seq<Stmt>) -> Seq<Seq<char>> {
    c.params@.map_values(|p: Param| p.name.name@) + binders(ss).map_values(|i: Ident| i.name@)
}

/// The names an unresolved reference is compared against.
pub open spec fn ref_candidates(model: Model, us: Seq<UnionView>, scope: Seq<Seq<char>>) -> Seq<Seq<char>> {
    scope + latest(model_syms(model), false).map_values(|s: SymView| s.0) + variant_names_of(us)
}

/// The hint of an unresolved `void`: it is a type, not a value.
pub open spec fn void_hint() -> Seq<char> {
    "; `void` is a type, not a value — a void result returns bare `Ok`"@
}

/// A bare reference must name a parameter, a binding, a symbol of the
/// module, or a union variant.
pub open spec fn body_ref_errs(model: Model, us: Seq<UnionView>, scope: Seq<Seq<char>>, es: Seq<Expr>) -> Seq<DiagView>
    decreases es.len(),
{
    if es.len() == 0 {
        seq![]
    } else {
        body_ref_errs(model, us, scope, es.drop_last()) + match es.last().kind {
            ExprKind::Ref(Ref::Path(p)) => {
                let n = p.segments@[0].name@;
                if p.segments@.len() == 1 && !scope.contains(n) && last_sym(model_syms(model), n, false) < 0
                    && !variant_names_of(us).contains(n) {
                    seq![
                        err(
                            p.span,
                            "unresolved reference "@ + ticked(n) + if n == "void"@ {
                                void_hint()
                            } else {
                                hint_of(n, ref_candidates(model, us, scope))
                            },
                        ),
                    ]
                } else {
                    seq![]
                }
            },
            _ => seq![],
        }
    }
}

// ----- field reads ---------------------------------------------------------------

/// The names of members, in order.
pub open spec fn member_names(ms: Seq<MemberView>) -> Seq<Seq<char>> {
    ms.map_values(|m: MemberView| m.0)
}

/// Whether `name` is a `data` record of this module with disclosed fields.
pub open spec fn is_record_spec(model: Model, name: Seq<char>) -> bool {
    let k = last_sym(model_syms(model), name, false);
    k >= 0 && model_syms(model)[k].2 == SymbolKind::Data && owner_members(model, name).len() > 0
}

/// The hint when a missing field is a `Result`/`Option` accessor read off
/// a value that is neither.
pub open spec fn accessor_hint_of(name: Seq<char>, receiver: Seq<char>) -> Seq<char> {
    if name == "isOk"@ || name == "isErr"@ || name == "error"@ {
        "; `."@ + name + "` is a `Result` accessor — "@ + ticked(receiver) + " is not a `Result`"@
    } else if name == "isSome"@ || name == "isNone"@ {
        "; `."@ + name + "` is an `Option` accessor — type the value `Option<"@ + receiver + ">` to use it"@
    } else if name == "value"@ {
        "; `.value` reads a `Result`/`Option` payload — "@ + ticked(receiver) + " is neither"@
    } else {
        seq![]
    }
}

/// A field read on a record of this module must name one of its fields.
pub open spec fn field_read_errs(model: Model, vars: VarsView, es: Seq<Expr>) -> Seq<DiagView>
    decreases es.len(),
{
    if es.len() == 0 {
        seq![]
    } else {
        field_read_errs(model, vars, es.drop_last()) + match es.last().kind {
            ExprKind::Postfix { base, segments } => if segments@.len() > 0 && segments@[0].call_args is None {
                match infer_spec(vars, *base) {
                    TyView::Named(n, a) => {
                        let f = segments@[0].name.name@;
                        if !a && is_record_spec(model, n) && !member_names(owner_members(model, n)).contains(f) {
                            let sug = hint_of(f, member_names(owner_members(model, n)));
                            seq![
                                err(
                                    segments@[0].span,
                                    "no field "@ + ticked(f) + " on "@ + ticked(n) + if sug.len() == 0 {
                                        accessor_hint_of(f, n)
                                    } else {
                                        sug
                                    },
                                ),
                            ]
                        } else {
                            seq![]
                        }
                    },
                    _ => seq![],
                }
            } else {
                seq![]
            },
            _ => seq![],
        }
    }
}

// ----- call arity and argument types ---------------------------------------------

/// The node of this module a call's receiver names: the owner for `self`,
/// else the node a path's last segment names.
pub open spec fn receiver_node(model: Model, owner: Seq<char>, base: Expr) -> Option<Seq<char>> {
    match base.kind {
        ExprKind::Ref(Ref::SelfNode(_)) => Some(owner),
        ExprKind::Ref(Ref::Path(p)) => if p.segments@.len() > 0 {
            let leaf = p.segments@.last().name@;
            let k = last_sym(model_syms(model), leaf, false);
            if k >= 0 && model_syms(model)[k].2 != SymbolKind::Data {
                Some(leaf)
            } else {
                None
            }
        } else {
            None
        },
        _ => None,
    }
}

/// The parameter types of the first callable member named `name`.
pub open spec fn callable_params(ms: Seq<MemberView>, name: Seq<char>) -> Option<Seq<Seq<char>>>
    decreases ms.len(),
{
    if ms.len() == 0 {
        None
    } else if ms[0].1 == MemberKind::Callable && ms[0].0 == name {
        Some(ms[0].5)
    } else {
        callable_params(ms.drop_first(), name)
    }
}

/// Whether `s` contains the character `c`.
pub open spec fn has_char(s: Seq<char>, c: char) -> bool {
    exists|i: int| 0 <= i < s.len() && s[i] == c
}

/// A rendered parameter type as `(last segment, is array)`, or nothing for
/// a generic one.
pub open spec fn param_shape_of(s: Seq<char>) -> Option<(Seq<char>, bool)> {
    if has_char(s, '<') {
        None
    } else if s.len() >= 2 && s[s.len() - 2] == '[' && s[s.len() - 1] == ']' {
        Some((leaf_of(s.take(s.len() - 2)), true))
    } else {
        Some((leaf_of(s), false))
    }
}

/// The errors of the first `k` arguments against their parameter types.
pub open spec fn arg_errs(us: Seq<UnionView>, vars: VarsView, args: Seq<Expr>, params: Seq<Seq<char>>, k: nat) -> Seq<DiagView>
    decreases k,
{
    if k == 0 {
        seq![]
    } else {
        arg_errs(us, vars, args, params, (k - 1) as nat) + match param_shape_of(params[k - 1]) {
            Some(sh) => {
                let t = infer_spec(vars, args[k - 1]);
                if !arg_matches_spec(us, t, sh.0, sh.1) {
                    seq![
                        err(
                            args[k - 1].span,
                            "argument "@ + decimal(k) + ": expected "@ + ticked(params[k - 1]) + ", found "@ + ticked(
                                ty_text(t),
                            ),
                        ),
                    ]
                } else {
                    seq![]
                }
            },
            None => seq![],
        }
    }
}

/// A call on a node of this module must pass as many arguments as its
/// callable declares, each of a matching type where that is certain.
pub open spec fn arity_errs(model: Model, us: Seq<UnionView>, owner: Seq<char>, vars: VarsView, es: Seq<Expr>) -> Seq<DiagView>
    decreases es.len(),
{
    if es.len() == 0 {
        seq![]
    } else {
        arity_errs(model, us, owner, vars, es.drop_last()) + match es.last().kind {
            ExprKind::Postfix { base, segments } => if segments@.len() > 0 && segments@[0].call_args is Some {
                match receiver_node(model, owner, *base) {
                    Some(node) => match callable_params(owner_members(model, node), segments@[0].name.name@) {
                        Some(params) => {
                            let args = segments@[0].call_args->0@;
                            if args.len() == params.len() {
                                arg_errs(us, vars, args, params, args.len())
                            } else {
                                seq![
                                    err(
                                        segments@[0].span,
                                        "callable "@ + ticked(segments@[0].name.name@) + " expects "@ + decimal(
                                            params.len(),
                                        ) + " argument(s), got "@ + decimal(args.len()),
                                    ),
                                ]
                            }
                        },
                        None => seq![],
                    },
                    None => seq![],
                }
            } else {
                seq![]
            },
            _ => seq![],
        }
    }
}

// ----- conditions ----------------------------------------------------------------

/// Whether a type is certainly not `bool`.
pub open spec fn non_bool(t: TyView) -> bool {
    match t {
        TyView::Named(n, a) => a || n != "bool"@,
        TyView::ResultOf => true,
        TyView::OptionOf => true,
        TyView::Unknown => false,
    }
}

/// An `if` or `while` condition of a certain type must be `bool`.
pub open spec fn cond_errs(vars: VarsView, ss: Seq<Stmt>) -> Seq<DiagView>
    decreases ss.len(),
{
    if ss.len() == 0 {
        seq![]
    } else {
        cond_errs(vars, ss.drop_last()) + match ss.last().kind {
            StmtKind::If { cond, .. } => if non_bool(infer_spec(vars, cond)) {
                seq![err(cond.span, "condition must be `bool`, found "@ + ticked(ty_text(infer_spec(vars, cond))))]
            } else {
                seq![]
            },
            StmtKind::While { cond, .. } => if non_bool(infer_spec(vars, cond)) {
                seq![err(cond.span, "condition must be `bool`, found "@ + ticked(ty_text(infer_spec(vars, cond))))]
            } else {
                seq![]
            },
            _ => seq![],
        }
    }
}

// ----- the checks -----------------------------------------------------------------

/// The last parameter named `name`.
fn param_type<'a>(ps: &'a Vec<Param>, name: &str) -> (r: Option<&'a Type>)
    ensures
        match r {
            Some(t) => param_type_of(ps@, name@) == Some(*t),
            None => param_type_of(ps@, name@) is None,
        },
{
    let mut i: usize = ps.len();
    assert(ps@.take(i as int) =~= ps@);
    while i > 0
        invariant
            i <= ps@.len(),
            param_type_of(ps@, name@) == param_type_of(ps@.take(i as int), name@),
        decreases i,
    {
        assert(ps@.take(i as int).last() == ps@[i - 1]);
        if crate::strs::str_eq(ps[i - 1].name.name.as_str(), name) {
            return Some(&ps[i - 1].ty);
        }
        assert(ps@.take(i as int).drop_last() =~= ps@.take(i - 1));
        i = i - 1;
    }
    None
}

/// The shape of an iterable whose type is certain (see [`iter_shape_of`]).
fn iter_shape(ps: &Vec<Param>, e: &Expr) -> (r: Option<(String, bool)>)
    ensures
        match r {
            Some(sh) => iter_shape_of(ps@, *e) == Some((sh.0@, sh.1)),
            None => iter_shape_of(ps@, *e) is None,
        },
    decreases e,
{
    match &e.kind {
        ExprKind::Ref(Ref::Path(p)) => if p.is_simple() {
            match param_type(ps, p.segments[0].name.as_str()) {
                Some(t) => Some((String::from_str(type_leaf(t)), t.is_array)),
                None => None,
            }
        } else {
            None
        },
        ExprKind::Literal(l) => match l {
            Literal::String { .. } => Some((String::from_str("string"), false)),
            Literal::Number { .. } => Some((String::from_str("number"), false)),
            Literal::Bool { .. } => Some((String::from_str("bool"), false)),
        },
        ExprKind::Marker { kind, .. } => match kind {
            MarkerKind::OkMarker | MarkerKind::ErrMarker => Some((String::from_str("Result"), false)),
            MarkerKind::SomeMarker | MarkerKind::NoneMarker => Some((String::from_str("Option"), false)),
        },
        ExprKind::From { ty, .. } => Some((String::from_str(type_leaf(ty)), ty.is_array)),
        ExprKind::Paren(inner) => iter_shape(ps, inner),
        _ => None,
    }
}

/// The shape of a rendered parameter type (see [`param_shape_of`]).
fn param_shape(s: &str) -> (r: Option<(String, bool)>)
    ensures
        match r {
            Some(sh) => param_shape_of(s@) == Some((sh.0@, sh.1)),
            None => param_shape_of(s@) is None,
        },
{
    let cs = crate::strs::chars_of(s);
    let mut i: usize = 0;
    while i < cs.len()
        invariant
            i <= cs@.len(),
            cs@ == s@,
            forall|q: int| 0 <= q < i ==> cs@[q] != '<',
        decreases cs@.len() - i,
    {
        if cs[i] == '<' {
            assert(has_char(s@, '<'));
            return None;
        }
        i = i + 1;
    }
    let n = cs.len();
    if n >= 2 && cs[n - 2] == '[' && cs[n - 1] == ']' {
        let base = sub_string(&cs, 0, n - 2);
        assert(base@ =~= s@.take(n - 2));
        Some((leaf(base.as_str()), true))
    } else {
        Some((leaf(s), false))
    }
}

/// The names of the callables among members.
fn callable_member_names(ms: &[crate::model::symbols::Member]) -> (r: Vec<String>)
    ensures
        strs_view(r@) == callable_names(member_views(ms@)),
{
    let ghost mv = member_views(ms@);
    let mut r: Vec<String> = Vec::new();
    let mut i: usize = 0;
    assert(mv.take(0) =~= seq![]);
    assert(strs_view(r@) =~= seq![]);
    while i < ms.len()
        invariant
            i <= ms@.len(),
            mv == member_views(ms@),
            strs_view(r@) == callable_names(mv.take(i as int)),
        decreases ms@.len() - i,
    {
        assert(mv.take(i + 1).drop_last() =~= mv.take(i as int));
        assert(mv.take(i + 1).last() == mv[i as int]);
        if ms[i].kind == MemberKind::Callable {
            let ghost r0 = strs_view(r@);
            r.push(ms[i].name.clone());
            assert(strs_view(r@) =~= r0.push(ms@[i as int].name@));
        }
        i = i + 1;
    }
    assert(mv.take(mv.len() as int) =~= mv);
    r
}

/// The names of members.
fn member_name_list(ms: &[crate::model::symbols::Member]) -> (r: Vec<String>)
    ensures
        strs_view(r@) == member_names(member_views(ms@)),
{
    let mut r: Vec<String> = Vec::new();
    let mut i: usize = 0;
    while i < ms.len()
        invariant
            i <= ms@.len(),
            strs_view(r@) == member_names(member_views(ms@)).take(i as int),
        decreases ms@.len() - i,
    {
        let ghost r0 = strs_view(r@);
        r.push(ms[i].name.clone());
        assert(strs_view(r@) =~= r0.push(ms@[i as int].name@));
        assert(member_names(member_views(ms@)).take(i + 1) =~= member_names(member_views(ms@)).take(i as int).push(
            ms@[i as int].name@,
        ));
        i = i + 1;
    }
    assert(member_names(member_views(ms@)).take(ms@.len() as int) =~= member_names(member_views(ms@)));
    r
}

/// Whether `names` holds `name`.
fn names_have(names: &Vec<String>, name: &str) -> (b: bool)
    ensures
        b == strs_view(names@).contains(name@),
{
    let ghost sv = strs_view(names@);
    let mut found = false;
    let mut j: usize = 0;
    while j < names.len()
        invariant
            j <= names@.len(),
            sv == strs_view(names@),
            found == exists|q: int| 0 <= q < j && (#[trigger] sv[q]) == name@,
        decreases names@.len() - j,
    {
        if crate::strs::str_eq(names[j].as_str(), name) {
            assert(sv[j as int] == name@);
            found = true;
        }
        j = j + 1;
    }
    found
}

/// The hint when a missing field is a `Result`/`Option` accessor.
fn accessor_hint(name: &str, receiver: &str) -> (r: String)
    ensures
        r@ == accessor_hint_of(name@, receiver@),
{
    if crate::strs::str_eq(name, "isOk") || crate::strs::str_eq(name, "isErr") || crate::strs::str_eq(name, "error") {
        let mut r = String::from_str("; `.");
        r.append(name);
        r.append("` is a `Result` accessor — ");
        r.append(tick(receiver).as_str());
        r.append(" is not a `Result`");
        r
    } else if crate::strs::str_eq(name, "isSome") || crate::strs::str_eq(name, "isNone") {
        let mut r = String::from_str("; `.");
        r.append(name);
        r.append("` is an `Option` accessor — type the value `Option<");
        r.append(receiver);
        r.append(">` to use it");
        r
    } else if crate::strs::str_eq(name, "value") {
        let mut r = String::from_str("; `.value` reads a `Result`/`Option` payload — ");
        r.append(tick(receiver).as_str());
        r.append(" is neither");
        r
    } else {
        String::new()
    }
}

impl<'a> Checker<'a> {
    /// Whether an inferred type satisfies the declared return type.
    fn ty_satisfies_ret(&self, t: &Ty, ret: &Type) -> (b: bool)
        ensures
            b == satisfies_ret(self.entries(), ty_view(*t), *ret),
    {
        let lf = type_leaf(ret);
        match t {
            Ty::Named { name, array } => ret.is_array == *array && (crate::strs::str_eq(lf, name.as_str())
                || self.union_has_variant(lf, name.as_str())),
            Ty::ResultOf => !ret.is_array && crate::strs::str_eq(lf, "Result"),
            Ty::OptionOf => !ret.is_array && crate::strs::str_eq(lf, "Option"),
            Ty::Unknown => true,
        }
    }

    /// Whether an inferred argument type matches a parameter shape.
    fn arg_matches(&self, t: &Ty, lf: &str, array: bool) -> (b: bool)
        ensures
            b == arg_matches_spec(self.entries(), ty_view(*t), lf@, array),
    {
        match t {
            Ty::Named { name, array: a } => *a == array && (crate::strs::str_eq(name.as_str(), lf)
                || self.union_has_variant(lf, name.as_str())),
            Ty::ResultOf => !array && crate::strs::str_eq(lf, "Result"),
            Ty::OptionOf => !array && crate::strs::str_eq(lf, "Option"),
            Ty::Unknown => true,
        }
    }

    /// Appends the errors of `return` values against the declared type.
    pub(crate) fn check_return_types(&self, ret: &Type, ss: &Vec<&Stmt>, vars: &Vars, out: &mut Vec<Diagnostic>)
        ensures
            diag_views(final(out)@) == diag_views(old(out)@) + return_type_errs(
                self.entries(),
                vars.view_vars(),
                *ret,
                stmt_refs(ss@),
            ),
    {
        let ghost all = stmt_refs(ss@);
        let ghost d0 = diag_views(out@);
        let mut i: usize = 0;
        assert(all.take(0) =~= seq![]);
        assert(d0 + seq![] =~= d0);
        while i < ss.len()
            invariant
                i <= ss@.len(),
                all == stmt_refs(ss@),
                diag_views(out@) == d0 + return_type_errs(self.entries(), vars.view_vars(), *ret, all.take(i as int)),
            decreases ss@.len() - i,
        {
            assert(all.take(i + 1).drop_last() =~= all.take(i as int));
            assert(all.take(i + 1).last() == *ss@[i as int]);
            let ghost dv = diag_views(out@);
            match &ss[i].kind {
                StmtKind::Return(Some(e)) => {
                    let t = infer(e, vars);
                    let unknown = match t {
                        Ty::Unknown => true,
                        _ => false,
                    };
                    if !unknown && !self.ty_satisfies_ret(&t, ret) {
                        let mut message = String::from_str("return type ");
                        message.append(tick(ty_display(&t).as_str()).as_str());
                        message.append(" does not match declared ");
                        let mut shown = String::from_str(type_leaf(ret));
                        if ret.is_array {
                            shown.append("[]");
                        }
                        message.append(tick(shown.as_str()).as_str());
                        push_error(out, e.span, message);
                    } else {
                        assert(dv + seq![] =~= dv);
                    }
                },
                _ => {
                    assert(dv + seq![] =~= dv);
                },
            }
            assert(diag_views(out@) =~= d0 + return_type_errs(self.entries(), vars.view_vars(), *ret, all.take(i + 1)));
            i = i + 1;
        }
        assert(all.take(all.len() as int) =~= all);
    }

    /// Appends the errors of `from` targets.
    pub(crate) fn check_from_targets(&self, es: &Vec<&Expr>, out: &mut Vec<Diagnostic>)
        ensures
            diag_views(final(out)@) == diag_views(old(out)@) + from_errs(*self.model, expr_refs(es@)),
    {
        let ghost all = expr_refs(es@);
        let ghost d0 = diag_views(out@);
        let mut i: usize = 0;
        assert(all.take(0) =~= seq![]);
        assert(d0 + seq![] =~= d0);
        while i < es.len()
            invariant
                i <= es@.len(),
                all == expr_refs(es@),
                diag_views(out@) == d0 + from_errs(*self.model, all.take(i as int)),
            decreases es@.len() - i,
        {
            assert(all.take(i + 1).drop_last() =~= all.take(i as int));
            assert(all.take(i + 1).last() == *es@[i as int]);
            let ghost dv = diag_views(out@);
            let e = es[i];
            match &e.kind {
                ExprKind::From { ty, .. } => {
                    let lf = type_leaf(ty);
                    let builtin = is_primitive(lf) || crate::strs::str_eq(lf, "Result") || crate::strs::str_eq(lf, "Option");
                    let node = match self.model.symbol(lf) {
                        Some(sym) => sym.kind != SymbolKind::Data,
                        None => false,
                    };
                    if builtin || node {
                        let mut message = String::from_str("`from` target ");
                        message.append(tick(lf).as_str());
                        message.append(" is not a `data` record or variant");
                        push_error(out, e.span, message);
                    } else {
                        assert(dv + seq![] =~= dv);
                    }
                },
                _ => {
                    assert(dv + seq![] =~= dv);
                },
            }
            assert(diag_views(out@) =~= d0 + from_errs(*self.model, all.take(i + 1)));
            i = i + 1;
        }
        assert(all.take(all.len() as int) =~= all);
    }

    /// Appends the errors of `for` iterables.
    pub(crate) fn check_for_loops(&self, params: &Vec<Param>, ss: &Vec<&Stmt>, out: &mut Vec<Diagnostic>)
        ensures
            diag_views(final(out)@) == diag_views(old(out)@) + for_errs(params@, stmt_refs(ss@)),
    {
        let ghost all = stmt_refs(ss@);
        let ghost d0 = diag_views(out@);
        let mut i: usize = 0;
        assert(all.take(0) =~= seq![]);
        assert(d0 + seq![] =~= d0);
        while i < ss.len()
            invariant
                i <= ss@.len(),
                all == stmt_refs(ss@),
                diag_views(out@) == d0 + for_errs(params@, all.take(i as int)),
            decreases ss@.len() - i,
        {
            assert(all.take(i + 1).drop_last() =~= all.take(i as int));
            assert(all.take(i + 1).last() == *ss@[i as int]);
            let ghost dv = diag_views(out@);
            match &ss[i].kind {
                StmtKind::For { iter, .. } => match iter_shape(params, iter) {
                    Some((name, is_array)) => {
                        if !is_array {
                            let mut message = String::from_str("`for` iterates a non-array type ");
                            message.append(tick(name.as_str()).as_str());
                            push_error(out, iter.span, message);
                        } else {
                            assert(dv + seq![] =~= dv);
                        }
                    },
                    None => {
                        assert(dv + seq![] =~= dv);
                    },
                },
                _ => {
                    assert(dv + seq![] =~= dv);
                },
            }
            assert(diag_views(out@) =~= d0 + for_errs(params@, all.take(i + 1)));
            i = i + 1;
        }
        assert(all.take(all.len() as int) =~= all);
    }

    /// Appends the errors of `self.` calls.
    pub(crate) fn check_self_calls(&self, owner: &str, es: &Vec<&Expr>, out: &mut Vec<Diagnostic>)
        ensures
            diag_views(final(out)@) == diag_views(old(out)@) + self_call_errs(*self.model, owner@, expr_refs(es@)),
    {
        let ghost all = expr_refs(es@);
        let ghost d0 = diag_views(out@);
        let callables = callable_member_names(self.model.members(owner));
        let mut i: usize = 0;
        assert(all.take(0) =~= seq![]);
        assert(d0 + seq![] =~= d0);
        while i < es.len()
            invariant
                i <= es@.len(),
                all == expr_refs(es@),
                strs_view(callables@) == callable_names(owner_members(*self.model, owner@)),
                diag_views(out@) == d0 + self_call_errs(*self.model, owner@, all.take(i as int)),
            decreases es@.len() - i,
        {
            assert(all.take(i + 1).drop_last() =~= all.take(i as int));
            assert(all.take(i + 1).last() == *es@[i as int]);
            let ghost dv = diag_views(out@);
            let e = es[i];
            let mut fired = false;
            match &e.kind {
                ExprKind::Postfix { base, segments } => {
                    let on_self = match &base.kind {
                        ExprKind::Ref(Ref::SelfNode(_)) => true,
                        _ => false,
                    };
                    if on_self && segments.len() > 0 && segments[0].call_args.is_some() {
                        let seg = &segments[0];
                        if !names_have(&callables, seg.name.name.as_str()) {
                            let mut message = String::from_str("`self.");
                            message.append(seg.name.name.as_str());
                            message.append("` does not name a callable of ");
                            message.append(tick(owner).as_str());
                            message.append(suggest(seg.name.name.as_str(), &callables).as_str());
                            push_error(out, seg.span, message);
                            fired = true;
                        }
                    }
                },
                _ => {},
            }
            if !fired {
                assert(dv + seq![] =~= dv);
            }
            assert(diag_views(out@) =~= d0 + self_call_errs(*self.model, owner@, all.take(i + 1)));
            i = i + 1;
        }
        assert(all.take(all.len() as int) =~= all);
    }

    /// The names an unresolved reference is compared against.
    fn ref_candidate_list(&self, scope: &Vec<String>) -> (r: Vec<String>)
        requires
            self.wf(),
        ensures
            strs_view(r@) == ref_candidates(*self.model, self.entries(), strs_view(scope@)),
    {
        let mut r: Vec<String> = Vec::new();
        let mut k: usize = 0;
        while k < scope.len()
            invariant
                k <= scope@.len(),
                strs_view(r@) == strs_view(scope@).take(k as int),
            decreases scope@.len() - k,
        {
            let ghost r0 = strs_view(r@);
            r.push(scope[k].clone());
            assert(strs_view(r@) =~= r0.push(scope@[k as int]@));
            assert(strs_view(scope@).take(k + 1) =~= strs_view(scope@).take(k as int).push(scope@[k as int]@));
            k = k + 1;
        }
        assert(strs_view(scope@).take(scope@.len() as int) =~= strs_view(scope@));
        let syms = self.model.symbols();
        let ghost r2 = strs_view(r@);
        let mut j: usize = 0;
        while j < syms.len()
            invariant
                j <= syms@.len(),
                strs_view(r@) == r2 + sym_views(syms@).take(j as int).map_values(|s: SymView| s.0),
            decreases syms@.len() - j,
        {
            let ghost r3 = strs_view(r@);
            r.push(syms[j].name.clone());
            assert(strs_view(r@) =~= r3.push(syms@[j as int].name@));
            assert(sym_views(syms@).take(j + 1).map_values(|s: SymView| s.0) =~= sym_views(syms@).take(j as int).map_values(
                |s: SymView| s.0,
            ).push(syms@[j as int].name@));
            j = j + 1;
        }
        assert(sym_views(syms@).take(syms@.len() as int) =~= sym_views(syms@));
        let ghost r4 = strs_view(r@);
        let mut q: usize = 0;
        while q < self.variant_names.len()
            invariant
                q <= self.variant_names@.len(),
                strs_view(r@) == r4 + strs_view(self.variant_names@).take(q as int),
            decreases self.variant_names@.len() - q,
        {
            let ghost r5 = strs_view(r@);
            r.push(self.variant_names[q].clone());
            assert(strs_view(r@) =~= r5.push(self.variant_names@[q as int]@));
            assert(strs_view(self.variant_names@).take(q + 1) =~= strs_view(self.variant_names@).take(q as int).push(
                self.variant_names@[q as int]@,
            ));
            q = q + 1;
        }
        assert(strs_view(self.variant_names@).take(self.variant_names@.len() as int) =~= strs_view(self.variant_names@));
        assert(strs_view(r@) =~= ref_candidates(*self.model, self.entries(), strs_view(scope@)));
        r
    }

    /// Appends the errors of bare references.
    pub(crate) fn check_references(&self, scope: &Vec<String>, es: &Vec<&Expr>, out: &mut Vec<Diagnostic>)
        requires
            self.wf(),
        ensures
            diag_views(final(out)@) == diag_views(old(out)@) + body_ref_errs(
                *self.model,
                self.entries(),
                strs_view(scope@),
                expr_refs(es@),
            ),
    {
        let ghost all = expr_refs(es@);
        let ghost d0 = diag_views(out@);
        let ghost sc = strs_view(scope@);
        let mut i: usize = 0;
        assert(all.take(0) =~= seq![]);
        assert(d0 + seq![] =~= d0);
        while i < es.len()
            invariant
                i <= es@.len(),
                all == expr_refs(es@),
                self.wf(),
                sc == strs_view(scope@),
                diag_views(out@) == d0 + body_ref_errs(*self.model, self.entries(), sc, all.take(i as int)),
            decreases es@.len() - i,
        {
            assert(all.take(i + 1).drop_last() =~= all.take(i as int));
            assert(all.take(i + 1).last() == *es@[i as int]);
            let ghost dv = diag_views(out@);
            let e = es[i];
            let mut fired = false;
            match &e.kind {
                ExprKind::Ref(Ref::Path(p)) => {
                    if p.is_simple() {
                        let name = p.segments[0].name.as_str();
                        if !names_have(scope, name) && self.model.symbol(name).is_none() && !self.is_variant_name(name) {
                            let mut message = String::from_str("unresolved reference ");
                            message.append(tick(name).as_str());
                            if crate::strs::str_eq(name, "void") {
                                message.append("; `void` is a type, not a value — a void result returns bare `Ok`");
                            } else {
                                let cands = self.ref_candidate_list(scope);
                                message.append(suggest(name, &cands).as_str());
                            }
                            push_error(out, p.span, message);
                            fired = true;
                        }
                    }
                },
                _ => {},
            }
            if !fired {
                assert(dv + seq![] =~= dv);
            }
            assert(diag_views(out@) =~= d0 + body_ref_errs(*self.model, self.entries(), sc, all.take(i + 1)));
            i = i + 1;
        }
        assert(all.take(all.len() as int) =~= all);
    }

    /// Whether `name` is a record of this module with disclosed fields.
    fn is_record(&self, name: &str) -> (b: bool)
        ensures
            b == is_record_spec(*self.model, name@),
    {
        match self.model.symbol(name) {
            Some(sym) => sym.kind == SymbolKind::Data && self.model.members(name).len() > 0,
            None => false,
        }
    }

    /// Appends the errors of field reads on records.
    pub(crate) fn check_member_access(&self, vars: &Vars, es: &Vec<&Expr>, out: &mut Vec<Diagnostic>)
        ensures
            diag_views(final(out)@) == diag_views(old(out)@) + field_read_errs(*self.model, vars.view_vars(), expr_refs(es@)),
    {
        let ghost all = expr_refs(es@);
        let ghost d0 = diag_views(out@);
        let mut i: usize = 0;
        assert(all.take(0) =~= seq![]);
        assert(d0 + seq![] =~= d0);
        while i < es.len()
            invariant
                i <= es@.len(),
                all == expr_refs(es@),
                diag_views(out@) == d0 + field_read_errs(*self.model, vars.view_vars(), all.take(i as int)),
            decreases es@.len() - i,
        {
            assert(all.take(i + 1).drop_last() =~= all.take(i as int));
            assert(all.take(i + 1).last() == *es@[i as int]);
            let ghost dv = diag_views(out@);
            let e = es[i];
            let mut fired = false;
            match &e.kind {
                ExprKind::Postfix { base, segments } => {
                    if segments.len() > 0 && segments[0].call_args.is_none() {
                        let seg = &segments[0];
                        match infer(base, vars) {
                            Ty::Named { name, array } => {
                                if !array && self.is_record(name.as_str()) {
                                    let names = member_name_list(self.model.members(name.as_str()));
                                    if !names_have(&names, seg.name.name.as_str()) {
                                        let sug = suggest(seg.name.name.as_str(), &names);
                                        let mut message = String::from_str("no field ");
                                        message.append(tick(seg.name.name.as_str()).as_str());
                                        message.append(" on ");
                                        message.append(tick(name.as_str()).as_str());
                                        if sug.as_str().unicode_len() == 0 {
                                            message.append(accessor_hint(seg.name.name.as_str(), name.as_str()).as_str());
                                        } else {
                                            message.append(sug.as_str());
                                        }
                                        push_error(out, seg.span, message);
                                        fired = true;
                                    }
                                }
                            },
                            _ => {},
                        }
                    }
                },
                _ => {},
            }
            if !fired {
                assert(dv + seq![] =~= dv);
            }
            assert(diag_views(out@) =~= d0 + field_read_errs(*self.model, vars.view_vars(), all.take(i + 1)));
            i = i + 1;
        }
        assert(all.take(all.len() as int) =~= all);
    }

    /// The node of this module a call's receiver names.
    fn call_receiver_node(&self, base: &Expr, owner: &str) -> (r: Option<String>)
        ensures
            match r {
                Some(n) => receiver_node(*self.model, owner@, *base) == Some(n@),
                None => receiver_node(*self.model, owner@, *base) is None,
            },
    {
        match &base.kind {
            ExprKind::Ref(Ref::SelfNode(_)) => Some(String::from_str(owner)),
            ExprKind::Ref(Ref::Path(p)) => {
                let n = p.segments.len();
                if n == 0 {
                    return None;
                }
                let lf = p.segments[n - 1].name.as_str();
                match self.model.symbol(lf) {
                    Some(sym) => if sym.kind != SymbolKind::Data {
                        Some(String::from_str(lf))
                    } else {
                        None
                    },
                    None => None,
                }
            },
            _ => None,
        }
    }

    /// Appends the errors of arguments against their parameter types.
    fn check_arg_types(&self, args: &Vec<Expr>, params: &Vec<String>, vars: &Vars, out: &mut Vec<Diagnostic>)
        requires
            args@.len() == params@.len(),
        ensures
            diag_views(final(out)@) == diag_views(old(out)@) + arg_errs(
                self.entries(),
                vars.view_vars(),
                args@,
                strs_view(params@),
                args@.len(),
            ),
    {
        let ghost d0 = diag_views(out@);
        let ghost ps = strs_view(params@);
        let mut i: usize = 0;
        assert(d0 + seq![] =~= d0);
        while i < args.len()
            invariant
                i <= args@.len(),
                args@.len() == params@.len(),
                ps == strs_view(params@),
                diag_views(out@) == d0 + arg_errs(self.entries(), vars.view_vars(), args@, ps, i as nat),
            decreases args@.len() - i,
        {
            let ghost dv = diag_views(out@);
            match param_shape(params[i].as_str()) {
                Some((lf, array)) => {
                    let t = infer(&args[i], vars);
                    if !self.arg_matches(&t, lf.as_str(), array) {
                        let mut message = String::from_str("argument ");
                        crate::strs::push_count(&mut message, i + 1);
                        message.append(": expected ");
                        message.append(tick(params[i].as_str()).as_str());
                        message.append(", found ");
                        message.append(tick(ty_display(&t).as_str()).as_str());
                        push_error(out, args[i].span, message);
                    } else {
                        assert(dv + seq![] =~= dv);
                    }
                },
                None => {
                    assert(dv + seq![] =~= dv);
                },
            }
            assert(diag_views(out@) =~= d0 + arg_errs(self.entries(), vars.view_vars(), args@, ps, (i + 1) as nat));
            i = i + 1;
        }
    }

    /// The parameter types of the first callable member named `name` of
    /// `node`.
    fn callable_param_types(&self, node: &str, name: &str) -> (r: Option<Vec<String>>)
        ensures
            match r {
                Some(ps) => callable_params(owner_members(*self.model, node@), name@) == Some(strs_view(ps@)),
                None => callable_params(owner_members(*self.model, node@), name@) is None,
            },
    {
        let ms = self.model.members(node);
        let ghost mv = member_views(ms@);
        let mut i: usize = 0;
        assert(mv.skip(0) =~= mv);
        while i < ms.len()
            invariant
                i <= ms@.len(),
                mv == member_views(ms@),
                mv == owner_members(*self.model, node@),
                callable_params(mv, name@) == callable_params(mv.skip(i as int), name@),
            decreases ms@.len() - i,
        {
            assert(mv.skip(i as int)[0] == mv[i as int]);
            if ms[i].kind == MemberKind::Callable && crate::strs::str_eq(ms[i].name.as_str(), name) {
                let src = &ms[i].param_types;
                let mut out: Vec<String> = Vec::new();
                let mut k: usize = 0;
                while k < src.len()
                    invariant
                        k <= src@.len(),
                        strs_view(out@) == strs_view(src@).take(k as int),
                    decreases src@.len() - k,
                {
                    let ghost o0 = strs_view(out@);
                    out.push(src[k].clone());
                    assert(strs_view(out@) =~= o0.push(src@[k as int]@));
                    assert(strs_view(src@).take(k + 1) =~= strs_view(src@).take(k as int).push(src@[k as int]@));
                    k = k + 1;
                }
                assert(strs_view(src@).take(src@.len() as int) =~= strs_view(src@));
                assert(mv[i as int].5 =~= strs_view(src@));
                return Some(out);
            }
            assert(mv.skip(i as int).drop_first() =~= mv.skip(i + 1));
            i = i + 1;
        }
        None
    }

    /// Appends the errors of calls' arity and argument types.
    pub(crate) fn check_call_arity(&self, owner: &str, vars: &Vars, es: &Vec<&Expr>, out: &mut Vec<Diagnostic>)
        ensures
            diag_views(final(out)@) == diag_views(old(out)@) + arity_errs(
                *self.model,
                self.entries(),
                owner@,
                vars.view_vars(),
                expr_refs(es@),
            ),
    {
        let ghost all = expr_refs(es@);
        let ghost d0 = diag_views(out@);
        let mut i: usize = 0;
        assert(all.take(0) =~= seq![]);
        assert(d0 + seq![] =~= d0);
        while i < es.len()
            invariant
                i <= es@.len(),
                all == expr_refs(es@),
                diag_views(out@) == d0 + arity_errs(*self.model, self.entries(), owner@, vars.view_vars(), all.take(i as int)),
            decreases es@.len() - i,
        {
            assert(all.take(i + 1).drop_last() =~= all.take(i as int));
            assert(all.take(i + 1).last() == *es@[i as int]);
            let ghost dv = diag_views(out@);
            let e = es[i];
            let mut done = false;
            match &e.kind {
                ExprKind::Postfix { base, segments } => {
                    if segments.len() > 0 {
                        let seg = &segments[0];
                        match &seg.call_args {
                            Some(args) => match self.call_receiver_node(base, owner) {
                                Some(node) => match self.callable_param_types(node.as_str(), seg.name.name.as_str()) {
                                    Some(params) => {
                                        if args.len() == params.len() {
                                            self.check_arg_types(args, &params, vars, out);
                                        } else {
                                            let mut message = String::from_str("callable ");
                                            message.append(tick(seg.name.name.as_str()).as_str());
                                            message.append(" expects ");
                                            crate::strs::push_count(&mut message, params.len());
                                            message.append(" argument(s), got ");
                                            crate::strs::push_count(&mut message, args.len());
                                            push_error(out, seg.span, message);
                                        }
                                        done = true;
                                    },
                                    None => {},
                                },
                                None => {},
                            },
                            None => {},
                        }
                    }
                },
                _ => {},
            }
            if !done {
                assert(dv + seq![] =~= dv);
            }
            assert(diag_views(out@) =~= d0 + arity_errs(*self.model, self.entries(), owner@, vars.view_vars(), all.take(i + 1)));
            i = i + 1;
        }
        assert(all.take(all.len() as int) =~= all);
    }

    /// Appends the errors of `if` and `while` conditions.
    pub(crate) fn check_conditions(&self, vars: &Vars, ss: &Vec<&Stmt>, out: &mut Vec<Diagnostic>)
        ensures
            diag_views(final(out)@) == diag_views(old(out)@) + cond_errs(vars.view_vars(), stmt_refs(ss@)),
    {
        let ghost all = stmt_refs(ss@);
        let ghost d0 = diag_views(out@);
        let mut i: usize = 0;
        assert(all.take(0) =~= seq![]);
        assert(d0 + seq![] =~= d0);
        while i < ss.len()
            invariant
                i <= ss@.len(),
                all == stmt_refs(ss@),
                diag_views(out@) == d0 + cond_errs(vars.view_vars(), all.take(i as int)),
            decreases ss@.len() - i,
        {
            assert(all.take(i + 1).drop_last() =~= all.take(i as int));
            assert(all.take(i + 1).last() == *ss@[i as int]);
            let ghost dv = diag_views(out@);
            let cond: Option<&Expr> = match &ss[i].kind {
                StmtKind::If { cond, .. } => Some(cond),
                StmtKind::While { cond, .. } => Some(cond),
                _ => None,
            };
            let mut fired = false;
            match cond {
                Some(c) => {
                    let t = infer(c, vars);
                    let bad = match &t {
                        Ty::Named { name, array } => *array || !crate::strs::str_eq(name.as_str(), "bool"),
                        Ty::ResultOf | Ty::OptionOf => true,
                        Ty::Unknown => false,
                    };
                    if bad {
                        let mut message = String::from_str("condition must be `bool`, found ");
                        message.append(tick(ty_display(&t).as_str()).as_str());
                        push_error(out, c.span, message);
                        fired = true;
                    }
                },
                None => {},
            }
            if !fired {
                assert(dv + seq![] =~= dv);
            }
            assert(diag_views(out@) =~= d0 + cond_errs(vars.view_vars(), all.take(i + 1)));
            i = i + 1;
        }
        assert(all.take(all.len() as int) =~= all);
    }
}

} // verus!
