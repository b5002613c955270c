//! Flow-sensitive `Result` / `Option` accessor checking.
//!
//! Each binding carries a typestate: unknown, `Ok`/`Err` (a `Result`), or
//! `Some`/`None` (an `Option`), narrowed on entering the branches of
//! `if (r.isErr)`, `if (r.isOk)`, `if (o.isNone)` or `if (o.isSome)`.
//! Reading `.value` while a binding is known `Err` or `None`, or `.error`
//! while it is known `Ok`, is an error. Each branch works on its own copy of
//! the environment, so narrowing does not leak.

use crate::ast::{Block, Expr, ExprKind, FromSource, PostfixSeg, Ref, Stmt, StmtKind};
use crate::diagnostic::Diagnostic;
use crate::model::arch::{diag_views, DiagView};
use crate::model::cross_module::{err, push_error};
use vstd::prelude::*;
use vstd::string::StrSliceExecFns;

verus! {

/// Which `Result`/`Option` branch a binding is known to be on.
#[derive(Debug, Clone, Copy, PartialEq, Eq, Structural)]
pub enum State {
    /// Not yet determined.
    Unknown,
    /// Known `Ok`.
    OkBranch,
    /// Known `Err`.
    ErrBranch,
    /// Known `Some`.
    SomeBranch,
    /// Known `None`.
    NoneBranch,
}

/// The opposite branch.
pub open spec fn inverse_of(s: State) -> State {
    match s {
        State::OkBranch => State::ErrBranch,
        State::ErrBranch => State::OkBranch,
        State::SomeBranch => State::NoneBranch,
        State::NoneBranch => State::SomeBranch,
        State::Unknown => State::Unknown,
    }
}

impl State {
    /// The opposite branch.
    pub fn inverse(self) -> (r: State)
        ensures
            r == inverse_of(self),
    {
        match self {
            State::OkBranch => State::ErrBranch,
            State::ErrBranch => State::OkBranch,
            State::SomeBranch => State::NoneBranch,
            State::NoneBranch => State::SomeBranch,
            State::Unknown => State::Unknown,
        }
    }
}

/// An environment as plain values: settings in order, the last for a name
/// winning.
pub type EnvView = Seq<(Seq<char>, State)>;

/// The state of `name` in `env`: its last setting, else unknown.
pub open spec fn env_get(env: EnvView, name: Seq<char>) -> State
    decreases env.len(),
{
    if env.len() == 0 {
        State::Unknown
    } else if env.last().0 == name {
        env.last().1
    } else {
        env_get(env.drop_last(), name)
    }
}

/// The per-point typestate environment: binding names and their known
/// branch, the last setting of a name winning.
pub struct Bindings {
    /// The settings, in order.
    pub states: Vec<(String, State)>,
}

impl Bindings {
    /// The settings as plain values.
    pub open spec fn view_env(&self) -> EnvView {
        self.states@.map_values(|p: (String, State)| (p.0@, p.1))
    }

    /// An empty environment.
    pub fn new() -> (b: Bindings)
        ensures
            b.view_env() == Seq::<(Seq<char>, State)>::empty(),
    {
        let b = Bindings { states: Vec::new() };
        assert(b.view_env() =~= seq![]);
        b
    }

    /// The state of `name`.
    pub fn get(&self, name: &str) -> (s: State)
        ensures
            s == env_get(self.view_env(), name@),
    {
        let ghost ev = self.view_env();
        let mut i: usize = self.states.len();
        assert(ev.take(i as int) =~= ev);
        while i > 0
            invariant
                i <= self.states@.len(),
                ev == self.view_env(),
                env_get(ev, name@) == env_get(ev.take(i as int), name@),
            decreases i,
        {
            assert(ev.take(i as int).last() == ev[i - 1]);
            if crate::strs::str_eq(self.states[i - 1].0.as_str(), name) {
                return self.states[i - 1].1;
            }
            assert(ev.take(i as int).drop_last() =~= ev.take(i - 1));
            i = i - 1;
        }
        State::Unknown
    }

    /// Sets the state of `name`.
    pub fn set(&mut self, name: &str, state: State)
        ensures
            final(self).view_env() == old(self).view_env().push((name@, state)),
    {
        let ghost e0 = self.view_env();
        self.states.push((String::from_str(name), state));
        assert(self.view_env() =~= e0.push((name@, state)));
    }

    /// A copy of this environment.
    pub fn copy(&self) -> (b: Bindings)
        ensures
            b.view_env() == self.view_env(),
    {
        let mut states: Vec<(String, State)> = Vec::new();
        let mut i: usize = 0;
        while i < self.states.len()
            invariant
                i <= self.states@.len(),
                states@.map_values(|p: (String, State)| (p.0@, p.1)) == self.view_env().take(i as int),
            decreases self.states@.len() - i,
        {
            let ghost s0 = states@.map_values(|p: (String, State)| (p.0@, p.1));
            let name = self.states[i].0.clone();
            states.push((name, self.states[i].1));
            assert(states@.map_values(|p: (String, State)| (p.0@, p.1)) =~= s0.push(self.view_env()[i as int]));
            assert(self.view_env().take(i + 1) =~= self.view_env().take(i as int).push(self.view_env()[i as int]));
            i = i + 1;
        }
        assert(self.view_env().take(self.states@.len() as int) =~= self.view_env());
        Bindings { states }
    }
}

/// The bare binding a reference expression names, if it is a one-segment
/// path.
pub open spec fn ref_name_of(e: Expr) -> Option<Seq<char>> {
    match e.kind {
        ExprKind::Ref(Ref::Path(p)) => if p.segments@.len() == 1 {
            Some(p.segments@[0].name@)
        } else {
            None
        },
        _ => None,
    }
}

/// The bare binding a reference expression names.
fn ref_name(e: &Expr) -> (r: Option<&str>)
    ensures
        match r {
            Some(n) => ref_name_of(*e) == Some(n@),
            None => ref_name_of(*e) is None,
        },
{
    match &e.kind {
        ExprKind::Ref(Ref::Path(p)) => if p.is_simple() {
            Some(p.segments[0].name.as_str())
        } else {
            None
        },
        _ => None,
    }
}

/// The binding and branch a bare `r.isErr` / `r.isOk` / `o.isNone` /
/// `o.isSome` condition narrows to inside its then-block.
pub open spec fn guard_of(cond: Expr) -> Option<(Seq<char>, State)> {
    match cond.kind {
        ExprKind::Postfix { base, segments } => if segments@.len() == 1 && segments@[0].call_args is None {
            match ref_name_of(*base) {
                Some(n) => {
                    let w = segments@[0].name.name@;
                    if w == "isErr"@ {
                        Some((n, State::ErrBranch))
                    } else if w == "isOk"@ {
                        Some((n, State::OkBranch))
                    } else if w == "isNone"@ {
                        Some((n, State::NoneBranch))
                    } else if w == "isSome"@ {
                        Some((n, State::SomeBranch))
                    } else {
                        None
                    }
                },
                None => None,
            }
        } else {
            None
        },
        _ => None,
    }
}

/// The narrowing a condition makes (see [`guard_of`]).
fn branch_guard(cond: &Expr) -> (r: Option<(&str, State)>)
    ensures
        match r {
            Some(g) => guard_of(*cond) == Some((g.0@, g.1)),
            None => guard_of(*cond) is None,
        },
{
    let (base, segments) = match &cond.kind {
        ExprKind::Postfix { base, segments } => (base, segments),
        _ => return None,
    };
    if segments.len() != 1 || segments[0].call_args.is_some() {
        return None;
    }
    let name = match ref_name(base) {
        Some(n) => n,
        None => return None,
    };
    let w = segments[0].name.name.as_str();
    if crate::strs::str_eq(w, "isErr") {
        Some((name, State::ErrBranch))
    } else if crate::strs::str_eq(w, "isOk") {
        Some((name, State::OkBranch))
    } else if crate::strs::str_eq(w, "isNone") {
        Some((name, State::NoneBranch))
    } else if crate::strs::str_eq(w, "isSome") {
        Some((name, State::SomeBranch))
    } else {
        None
    }
}

/// The error of a chain that is exactly `r.value` or `r.error` over a
/// binding known to be on the other branch.
pub open spec fn accessor_errs(env: EnvView, base: Expr, segs: Seq<PostfixSeg>) -> Seq<DiagView> {
    if segs.len() == 1 && segs[0].call_args is None && ref_name_of(base) is Some {
        let w = segs[0].name.name@;
        let st = env_get(env, ref_name_of(base)->0);
        if w == "value"@ && st == State::ErrBranch {
            seq![err(segs[0].span, "`.value` read on an `Err` branch"@)]
        } else if w == "value"@ && st == State::NoneBranch {
            seq![err(segs[0].span, "`.value` read on a `None` branch"@)]
        } else if w == "error"@ && st == State::OkBranch {
            seq![err(segs[0].span, "`.error` read on an `Ok` branch"@)]
        } else {
            seq![]
        }
    } else {
        seq![]
    }
}

/// The wrong-branch reads of an expression, outermost first.
pub open spec fn flow_expr(env: EnvView, e: Expr) -> Seq<DiagView>
    decreases e,
{
    match e.kind {
        ExprKind::Postfix { base, segments } => accessor_errs(env, *base, segments@) + flow_expr(env, *base)
            + flow_segs(env, segments@),
        ExprKind::Marker { payload, .. } => match payload {
            Some(p) => flow_expr(env, *p),
            None => seq![],
        },
        ExprKind::From { source, .. } => match source {
            FromSource::Compose(v) => flow_exprs(env, v@),
            FromSource::Convert(b) => flow_expr(env, *b),
        },
        ExprKind::OwnCall { args, .. } => flow_exprs(env, args@),
        ExprKind::Unary { expr, .. } => flow_expr(env, *expr),
        ExprKind::Paren(inner) => flow_expr(env, *inner),
        ExprKind::Binary { left, right, .. } => flow_expr(env, *left) + flow_expr(env, *right),
        ExprKind::Ref(_) => seq![],
        ExprKind::Literal(_) => seq![],
    }
}

/// The wrong-branch reads of expressions, in order.
pub open spec fn flow_exprs(env: EnvView, es: Seq<Expr>) -> Seq<DiagView>
    decreases es,
{
    if es.len() == 0 {
        seq![]
    } else {
        flow_exprs(env, es.subrange(0, es.len() - 1)) + flow_expr(env, es[es.len() - 1])
    }
}

/// The wrong-branch reads of postfix segments' call arguments.
pub open spec fn flow_segs(env: EnvView, segs: Seq<PostfixSeg>) -> Seq<DiagView>
    decreases segs,
{
    if segs.len() == 0 {
        seq![]
    } else {
        flow_segs(env, segs.subrange(0, segs.len() - 1)) + match segs[segs.len() - 1].call_args {
            Some(args) => flow_exprs(env, args@),
            None => seq![],
        }
    }
}

/// The outcome of a statement or block: its errors, the environment after
/// it, and whether it returns on every path.
pub type FlowView = (Seq<DiagView>, EnvView, bool);

/// The outcome of statements run in order from `env`.
pub open spec fn flow_block(env: EnvView, ss: Seq<Stmt>) -> FlowView
    decreases ss,
{
    if ss.len() == 0 {
        (seq![], env, false)
    } else {
        let a = flow_block(env, ss.subrange(0, ss.len() - 1));
        let b = flow_stmt(a.1, ss[ss.len() - 1]);
        (a.0 + b.0, b.1, a.2 || b.2)
    }
}

/// `env` with the narrowing `g` applied, if any.
pub open spec fn narrowed(env: EnvView, g: Option<(Seq<char>, State)>, inverse: bool) -> EnvView {
    match g {
        Some(p) => env.push((p.0, if inverse {
            inverse_of(p.1)
        } else {
            p.1
        })),
        None => env,
    }
}

/// The outcome of a statement run from `env`. An assignment resets its
/// binding; an `if` narrows each branch by its guard, and when a guarded
/// then-block without `else` returns, the code after it is on the other
/// branch; loop bodies run on a copy.
pub open spec fn flow_stmt(env: EnvView, s: Stmt) -> FlowView
    decreases s,
{
    match s.kind {
        StmtKind::Assign { name, value } => (flow_expr(env, value), env.push((name.name@, State::Unknown)), false),
        StmtKind::Return(v) => (
            match v {
                Some(e) => flow_expr(env, e),
                None => seq![],
            },
            env,
            true,
        ),
        StmtKind::Expr(e) => (flow_expr(env, e), env, false),
        StmtKind::If { cond, then_block, else_block } => {
            let g = guard_of(cond);
            let t = flow_block(narrowed(env, g, false), then_block.stmts@);
            match else_block {
                Some(b) => {
                    let e = flow_block(narrowed(env, g, true), b.stmts@);
                    (flow_expr(env, cond) + t.0 + e.0, env, t.2 && e.2)
                },
                None => (flow_expr(env, cond) + t.0, if t.2 {
                    narrowed(env, g, true)
                } else {
                    env
                }, false),
            }
        },
        StmtKind::For { iter, body, .. } => (flow_expr(env, iter) + flow_block(env, body.stmts@).0, env, false),
        StmtKind::While { cond, body } => (flow_expr(env, cond) + flow_block(env, body.stmts@).0, env, false),
    }
}

/// Appends the wrong-branch reads of expressions.
fn check_exprs(es: &Vec<Expr>, env: &Bindings, out: &mut Vec<Diagnostic>)
    ensures
        diag_views(final(out)@) == diag_views(old(out)@) + flow_exprs(env.view_env(), es@),
    decreases es,
{
    let ghost d0 = diag_views(out@);
    let mut i: usize = 0;
    assert(es@.subrange(0, 0) =~= seq![]);
    assert(d0 + seq![] =~= d0);
    while i < es.len()
        invariant
            i <= es@.len(),
            diag_views(out@) == d0 + flow_exprs(env.view_env(), es@.subrange(0, i as int)),
        decreases es@.len() - i,
    {
        proof {
            assert(decreases_to!(*es => es@));
            assert(decreases_to!(es@ => es@[i as int]));
            let t = es@.subrange(0, i + 1);
            assert(t.subrange(0, t.len() - 1) =~= es@.subrange(0, i as int));
        }
        check_expr(&es[i], env, out);
        assert(diag_views(out@) =~= d0 + flow_exprs(env.view_env(), es@.subrange(0, i + 1)));
        i = i + 1;
    }
    assert(es@.subrange(0, es@.len() as int) =~= es@);
}

/// Appends the wrong-branch reads of postfix segments' call arguments.
fn check_segs(segments: &Vec<PostfixSeg>, env: &Bindings, out: &mut Vec<Diagnostic>)
    ensures
        diag_views(final(out)@) == diag_views(old(out)@) + flow_segs(env.view_env(), segments@),
    decreases segments,
{
    let ghost d0 = diag_views(out@);
    let mut i: usize = 0;
    assert(segments@.subrange(0, 0) =~= seq![]);
    assert(d0 + seq![] =~= d0);
    while i < segments.len()
        invariant
            i <= segments@.len(),
            diag_views(out@) == d0 + flow_segs(env.view_env(), segments@.subrange(0, i as int)),
        decreases segments@.len() - i,
    {
        proof {
            let t = segments@.subrange(0, i + 1);
            assert(t.subrange(0, t.len() - 1) =~= segments@.subrange(0, i as int));
        }
        let ghost before = diag_views(out@);
        match &segments[i].call_args {
            Some(args) => {
                proof {
                    assert(decreases_to!(*segments => segments@));
                    assert(decreases_to!(segments@ => segments@[i as int]));
                    assert(decreases_to!(segments@[i as int] => segments@[i as int].call_args));
                    assert(decreases_to!(segments@[i as int].call_args => segments@[i as int].call_args->0));
                }
                check_exprs(args, env, out);
            },
            None => {
                assert(before + seq![] =~= before);
            },
        }
        assert(diag_views(out@) =~= d0 + flow_segs(env.view_env(), segments@.subrange(0, i + 1)));
        i = i + 1;
    }
    assert(segments@.subrange(0, segments@.len() as int) =~= segments@);
}

/// Appends the error of a wrong-branch `.value` / `.error` read.
fn check_accessor(base: &Expr, segments: &Vec<PostfixSeg>, env: &Bindings, out: &mut Vec<Diagnostic>)
    ensures
        diag_views(final(out)@) == diag_views(old(out)@) + accessor_errs(env.view_env(), *base, segments@),
{
    let ghost d0 = diag_views(out@);
    assert(d0 + seq![] =~= d0);
    if segments.len() != 1 || segments[0].call_args.is_some() {
        return;
    }
    let name = match ref_name(base) {
        Some(n) => n,
        None => return,
    };
    let seg = &segments[0];
    let w = seg.name.name.as_str();
    let st = env.get(name);
    if crate::strs::str_eq(w, "value") && st == State::ErrBranch {
        push_error(out, seg.span, String::from_str("`.value` read on an `Err` branch"));
    } else if crate::strs::str_eq(w, "value") && st == State::NoneBranch {
        push_error(out, seg.span, String::from_str("`.value` read on a `None` branch"));
    } else if crate::strs::str_eq(w, "error") && st == State::OkBranch {
        push_error(out, seg.span, String::from_str("`.error` read on an `Ok` branch"));
    }
}

/// Appends the wrong-branch reads of an expression.
fn check_expr(expr: &Expr, env: &Bindings, out: &mut Vec<Diagnostic>)
    ensures
        diag_views(final(out)@) == diag_views(old(out)@) + flow_expr(env.view_env(), *expr),
    decreases expr,
{
    let ghost d0 = diag_views(out@);
    match &expr.kind {
        ExprKind::Postfix { base, segments } => {
            check_accessor(base, segments, env, out);
            check_expr(base, env, out);
            check_segs(segments, env, out);
            assert(diag_views(out@) =~= d0 + flow_expr(env.view_env(), *expr));
        },
        ExprKind::Marker { payload, .. } => match payload {
            Some(p) => check_expr(p, env, out),
            None => {
                assert(d0 + seq![] =~= d0);
            },
        },
        ExprKind::From { source, .. } => match source {
            FromSource::Compose(v) => check_exprs(v, env, out),
            FromSource::Convert(b) => check_expr(b, env, out),
        },
        ExprKind::OwnCall { args, .. } => check_exprs(args, env, out),
        ExprKind::Unary { expr: inner, .. } => check_expr(inner, env, out),
        ExprKind::Paren(inner) => check_expr(inner, env, out),
        ExprKind::Binary { left, right, .. } => {
            check_expr(left, env, out);
            check_expr(right, env, out);
            assert(diag_views(out@) =~= d0 + flow_expr(env.view_env(), *expr));
        },
        ExprKind::Ref(_) => {
            assert(d0 + seq![] =~= d0);
        },
        ExprKind::Literal(_) => {
            assert(d0 + seq![] =~= d0);
        },
    }
}

/// Runs a block's statements in order from `env`, appending their errors;
/// returns whether some statement returns on every path.
fn check_block(block: &Block, env: &mut Bindings, out: &mut Vec<Diagnostic>) -> (r: bool)
    ensures
        diag_views(final(out)@) == diag_views(old(out)@) + flow_block(old(env).view_env(), block.stmts@).0,
        final(env).view_env() == flow_block(old(env).view_env(), block.stmts@).1,
        r == flow_block(old(env).view_env(), block.stmts@).2,
    decreases block,
{
    let ghost d0 = diag_views(out@);
    let ghost e0 = env.view_env();
    let ghost ss = block.stmts@;
    let mut diverges = false;
    let mut i: usize = 0;
    assert(ss.subrange(0, 0) =~= seq![]);
    assert(d0 + seq![] =~= d0);
    while i < block.stmts.len()
        invariant
            i <= ss.len(),
            ss == block.stmts@,
            diag_views(out@) == d0 + flow_block(e0, ss.subrange(0, i as int)).0,
            env.view_env() == flow_block(e0, ss.subrange(0, i as int)).1,
            diverges == flow_block(e0, ss.subrange(0, i as int)).2,
        decreases ss.len() - i,
    {
        proof {
            assert(decreases_to!(*block => block.stmts));
            assert(decreases_to!(block.stmts => block.stmts@));
            assert(decreases_to!(block.stmts@ => block.stmts@[i as int]));
            let t = ss.subrange(0, i + 1);
            assert(t.subrange(0, t.len() - 1) =~= ss.subrange(0, i as int));
        }
        if check_stmt(&block.stmts[i], env, out) {
            diverges = true;
        }
        assert(diag_views(out@) =~= d0 + flow_block(e0, ss.subrange(0, i + 1)).0);
        i = i + 1;
    }
    assert(ss.subrange(0, ss.len() as int) =~= ss);
    diverges
}

/// Runs a statement from `env`, appending its errors; returns whether it
/// returns on every path.
fn check_stmt(stmt: &Stmt, env: &mut Bindings, out: &mut Vec<Diagnostic>) -> (r: bool)
    ensures
        diag_views(final(out)@) == diag_views(old(out)@) + flow_stmt(old(env).view_env(), *stmt).0,
        final(env).view_env() == flow_stmt(old(env).view_env(), *stmt).1,
        r == flow_stmt(old(env).view_env(), *stmt).2,
    decreases stmt,
{
    let ghost d0 = diag_views(out@);
    let ghost e0 = env.view_env();
    match &stmt.kind {
        StmtKind::Assign { name, value } => {
            check_expr(value, env, out);
            env.set(name.name.as_str(), State::Unknown);
            false
        },
        StmtKind::Return(v) => {
            match v {
                Some(e) => check_expr(e, env, out),
                None => {
                    assert(d0 + seq![] =~= d0);
                },
            }
            true
        },
        StmtKind::Expr(e) => {
            check_expr(e, env, out);
            false
        },
        StmtKind::If { cond, then_block, else_block } => {
            check_expr(cond, env, out);
            let narrow = branch_guard(cond);
            let ghost g = guard_of(*cond);
            let mut then_env = env.copy();
            match narrow {
                Some((name, state)) => then_env.set(name, state),
                None => {},
            }
            assert(then_env.view_env() == narrowed(e0, g, false));
            let then_diverges = check_block(then_block, &mut then_env, out);
            let ghost d1 = diag_views(out@);
            match else_block {
                Some(b) => {
                    let mut else_env = env.copy();
                    match narrow {
                        Some((name, state)) => else_env.set(name, state.inverse()),
                        None => {},
                    }
                    assert(else_env.view_env() == narrowed(e0, g, true));
                    let else_diverges = check_block(b, &mut else_env, out);
                    assert(diag_views(out@) =~= d0 + flow_stmt(e0, *stmt).0);
                    then_diverges && else_diverges
                },
                None => {
                    if then_diverges {
                        match narrow {
                            Some((name, state)) => env.set(name, state.inverse()),
                            None => {},
                        }
                    }
                    assert(diag_views(out@) =~= d0 + flow_stmt(e0, *stmt).0);
                    false
                },
            }
        },
        StmtKind::For { iter, body, .. } => {
            check_expr(iter, env, out);
            let mut loop_env = env.copy();
            check_block(body, &mut loop_env, out);
            assert(diag_views(out@) =~= d0 + flow_stmt(e0, *stmt).0);
            false
        },
        StmtKind::While { cond, body } => {
            check_expr(cond, env, out);
            let mut loop_env = env.copy();
            check_block(body, &mut loop_env, out);
            assert(diag_views(out@) =~= d0 + flow_stmt(e0, *stmt).0);
            false
        },
    }
}

/// The wrong-branch accessor reads of a callable body, run from an empty
/// environment.
pub fn check_callable_result_flow(block: &Block, out: &mut Vec<Diagnostic>)
    ensures
        diag_views(final(out)@) == diag_views(old(out)@) + flow_block(seq![], block.stmts@).0,
{
    let mut env = Bindings::new();
    check_block(block, &mut env, out);
}

} // verus!
