//! AST-aware semantic tokens.
//!
//! Three passes feed one sorted, non-overlapping token list in absolute byte
//! offsets:
//!
//! - the **token pass** colours keywords, doc comments, and string/number
//!   literals;
//! - the **comment pass** colours `//` and `/* */` comments, which the lexer
//!   keeps as trivia;
//! - the **AST pass** colours identifiers by their role (a `system` name is a
//!   namespace, a `data` name a class, a callable a method, a parameter a
//!   parameter, a `.f()` step a method call) and a whole `#[…]` macro
//!   invocation as one decorator span.
//!
//! The tokens are then stably sorted by start offset, and a token that is
//! empty or overlaps the previously kept one is dropped, so the macro span
//! subsumes its arguments.

use crate::ast::{
    Block, BodyMember, Callable, Data, DataBody, Decl, DeclKind, Expr, ExprKind, Field, FromSource,
    Ident, Item, Macro, Module, Node, Param, Path, PostfixSeg, Ref, Stmt, StmtKind, Type, Variant,
};
use crate::lexer::{SpannedTrivia, Trivia, lex, lex_tokens, lex_trivia, tok_fours, tokens_wf, triv_views, trivia_wf};
use crate::parser::{
    callable_within, decl_within, expr_within, fields_within, item_within, macros_within, member_within,
    node_within, parse, parsed_from, path_within, seg_within, span_within, stmt_kind_within, type_within,
    variants_within,
};
use crate::span::Span;
use crate::token::{Token, TokenKind, is_keyword_kind};
use vstd::prelude::*;
use vstd::string::StringSliceAdditionalSpecFns;

verus! {

/// A semantic token's role, named after the LSP standard token types.
#[derive(Debug, Clone, Copy, PartialEq, Eq, Structural)]
pub enum SemKind {
    Namespace,
    Type,
    Class,
    Parameter,
    Variable,
    Property,
    EnumMember,
    Method,
    Keyword,
    Comment,
    String,
    Number,
    Decorator,
}

/// One coloured span in absolute byte offsets, with the `declaration`
/// modifier.
#[derive(Debug, Clone, Copy, PartialEq, Eq, Structural)]
pub struct SemToken {
    /// Start byte offset (inclusive).
    pub start: u32,
    /// End byte offset (exclusive).
    pub end: u32,
    /// What the token denotes.
    pub kind: SemKind,
    /// Whether this is the declaration site of the symbol.
    pub declaration: bool,
}

/// The tokens are sorted by start, none is empty, and each ends before the
/// next begins.
pub open spec fn sorted_disjoint(ts: Seq<SemToken>) -> bool {
    &&& forall|i: int| 0 <= i < ts.len() ==> (#[trigger] ts[i]).start < ts[i].end
    &&& forall|i: int, j: int| 0 <= i < j < ts.len() ==> (#[trigger] ts[i]).end <= (#[trigger] ts[j]).start
}

/// `t` inserted into `sorted` after every token starting at or before it.
pub open spec fn insert_by_start(sorted: Seq<SemToken>, t: SemToken) -> Seq<SemToken>
    decreases sorted.len(),
{
    if sorted.len() == 0 {
        seq![t]
    } else if sorted.last().start <= t.start {
        sorted.push(t)
    } else {
        insert_by_start(sorted.drop_last(), t).push(sorted.last())
    }
}

/// `ts` stably sorted by start offset (insertion sort).
pub open spec fn sort_by_start(ts: Seq<SemToken>) -> Seq<SemToken>
    decreases ts.len(),
{
    if ts.len() == 0 {
        seq![]
    } else {
        insert_by_start(sort_by_start(ts.drop_last()), ts.last())
    }
}

/// Greedy selection over `ts` in order: a token is kept when it is
/// non-empty and starts at or after `last_end`, the end of the last kept
/// token.
pub open spec fn select_from(ts: Seq<SemToken>, last_end: u32) -> Seq<SemToken>
    decreases ts.len(),
{
    if ts.len() == 0 {
        seq![]
    } else if ts[0].start < last_end || ts[0].end <= ts[0].start {
        select_from(ts.drop_first(), last_end)
    } else {
        seq![ts[0]] + select_from(ts.drop_first(), ts[0].end)
    }
}

/// The token of `span` coloured `k`.
pub open spec fn tok(span: Span, k: SemKind, d: bool) -> SemToken {
    SemToken { start: span.start, end: span.end, kind: k, declaration: d }
}

/// The token pass's colour for one lexer token, if any.
pub open spec fn token_sem(t: Token) -> Seq<SemToken> {
    if is_keyword_kind(t.kind) {
        seq![tok(t.span, SemKind::Keyword, false)]
    } else if t.kind == TokenKind::Doc || t.kind == TokenKind::InnerDoc || t.kind == TokenKind::Tag {
        seq![tok(t.span, SemKind::Comment, false)]
    } else if t.kind == TokenKind::String {
        seq![tok(t.span, SemKind::String, false)]
    } else if t.kind == TokenKind::Number {
        seq![tok(t.span, SemKind::Number, false)]
    } else {
        seq![]
    }
}

/// The token pass over a token stream.
pub open spec fn token_pass_spec(ts: Seq<Token>) -> Seq<SemToken>
    decreases ts.len(),
{
    if ts.len() == 0 {
        seq![]
    } else {
        token_pass_spec(ts.drop_last()) + token_sem(ts.last())
    }
}

/// The comment pass over trivia: each line or block comment.
pub open spec fn comment_pass_spec(tv: Seq<SpannedTrivia>) -> Seq<SemToken>
    decreases tv.len(),
{
    if tv.len() == 0 {
        seq![]
    } else {
        comment_pass_spec(tv.drop_last()) + match tv.last().trivia {
            Trivia::BlankLines(_) => seq![],
            _ => seq![tok(tv.last().span, SemKind::Comment, false)],
        }
    }
}

/// Each identifier coloured as a namespace.
pub open spec fn ns_spans(ids: Seq<Ident>) -> Seq<SemToken> {
    ids.map_values(|i: Ident| tok(i.span, SemKind::Namespace, false))
}

/// A path's qualifiers as namespaces, its last segment as `last`.
pub open spec fn split_path_spec(p: Path, last: SemKind) -> Seq<SemToken> {
    let n = p.segments@.len();
    if n == 0 {
        seq![]
    } else {
        ns_spans(p.segments@.take(n - 1)) + seq![tok(p.segments@[n - 1].span, last, false)]
    }
}

/// A type's base path, then its generic arguments.
pub open spec fn type_sem(t: Type) -> Seq<SemToken>
    decreases t, 1nat,
{
    split_path_spec(t.name, SemKind::Type) + types_sem(t.generics@)
}

/// Types in order.
pub open spec fn types_sem(ts: Seq<Type>) -> Seq<SemToken>
    decreases ts, 0nat,
{
    if ts.len() == 0 {
        seq![]
    } else {
        types_sem(ts.subrange(0, ts.len() - 1)) + type_sem(ts[ts.len() - 1])
    }
}

/// Macro invocations, each one decorator.
pub open spec fn macros_sem(ms: Seq<Macro>) -> Seq<SemToken> {
    ms.map_values(|m: Macro| tok(m.span, SemKind::Decorator, false))
}

/// An expression's references, calls, field accesses and `from` types.
pub open spec fn expr_sem(e: Expr) -> Seq<SemToken>
    decreases e, 1nat,
{
    match e.kind {
        ExprKind::Marker { payload, .. } => match payload {
            Some(p) => expr_sem(*p),
            None => seq![],
        },
        ExprKind::From { ty, source } => type_sem(ty) + match source {
            FromSource::Compose(v) => exprs_sem(v@),
            FromSource::Convert(b) => expr_sem(*b),
        },
        ExprKind::Postfix { base, segments } => expr_sem(*base) + segs_sem(segments@),
        ExprKind::OwnCall { name, args } => seq![tok(name.span, SemKind::Method, false)] + exprs_sem(args@),
        ExprKind::Ref(Ref::Path(path)) => split_path_spec(path, SemKind::Variable),
        ExprKind::Ref(Ref::SelfNode(_)) => seq![],
        ExprKind::Literal(_) => seq![],
        ExprKind::Unary { expr, .. } => expr_sem(*expr),
        ExprKind::Binary { left, right, .. } => expr_sem(*left) + expr_sem(*right),
        ExprKind::Paren(inner) => expr_sem(*inner),
    }
}

/// Expressions in order.
pub open spec fn exprs_sem(es: Seq<Expr>) -> Seq<SemToken>
    decreases es, 0nat,
{
    if es.len() == 0 {
        seq![]
    } else {
        exprs_sem(es.subrange(0, es.len() - 1)) + expr_sem(es[es.len() - 1])
    }
}

/// Postfix segments: a call as a method, an access as a property, then the
/// call's arguments.
pub open spec fn segs_sem(segs: Seq<PostfixSeg>) -> Seq<SemToken>
    decreases segs, 0nat,
{
    if segs.len() == 0 {
        seq![]
    } else {
        let g = segs[segs.len() - 1];
        segs_sem(segs.subrange(0, segs.len() - 1)) + seq![
            tok(g.name.span, if g.call_args is Some { SemKind::Method } else { SemKind::Property }, false),
        ] + match g.call_args {
            Some(args) => exprs_sem(args@),
            None => seq![],
        }
    }
}

/// A statement: a bound name as a declared variable, then its expressions
/// and blocks.
pub open spec fn stmt_sem(st: Stmt) -> Seq<SemToken>
    decreases st,
{
    match st.kind {
        StmtKind::Assign { name, value } => seq![tok(name.span, SemKind::Variable, true)] + expr_sem(value),
        StmtKind::Return(v) => match v {
            Some(e) => expr_sem(e),
            None => seq![],
        },
        StmtKind::If { cond, then_block, else_block } => expr_sem(cond) + stmts_sem(then_block.stmts@) + match else_block {
            Some(b) => stmts_sem(b.stmts@),
            None => seq![],
        },
        StmtKind::For { binding, iter, body } => seq![tok(binding.span, SemKind::Variable, true)] + expr_sem(iter)
            + stmts_sem(body.stmts@),
        StmtKind::While { cond, body } => expr_sem(cond) + stmts_sem(body.stmts@),
        StmtKind::Expr(e) => expr_sem(e),
    }
}

/// Statements in order.
pub open spec fn stmts_sem(ss: Seq<Stmt>) -> Seq<SemToken>
    decreases ss,
{
    if ss.len() == 0 {
        seq![]
    } else {
        stmts_sem(ss.subrange(0, ss.len() - 1)) + stmt_sem(ss[ss.len() - 1])
    }
}

/// Record fields: each name as a declared property, then its type.
pub open spec fn fields_sem(fs: Seq<Field>) -> Seq<SemToken>
    decreases fs.len(),
{
    if fs.len() == 0 {
        seq![]
    } else {
        fields_sem(fs.drop_last()) + seq![tok(fs.last().name.span, SemKind::Property, true)] + type_sem(fs.last().ty)
    }
}

/// Union variants: each name as a declared enum member, then its fields.
pub open spec fn variants_sem(vs: Seq<Variant>) -> Seq<SemToken>
    decreases vs.len(),
{
    if vs.len() == 0 {
        seq![]
    } else {
        variants_sem(vs.drop_last()) + seq![tok(vs.last().name.span, SemKind::EnumMember, true)] + match vs.last().record {
            Some(fs) => fields_sem(fs@),
            None => seq![],
        }
    }
}

/// A `data` declaration: its name as a declared class, then its body.
pub open spec fn data_sem(d: Data) -> Seq<SemToken> {
    seq![tok(d.name.span, SemKind::Class, true)] + match d.body {
        DataBody::Record(fs) => fields_sem(fs@),
        DataBody::Union(vs) => variants_sem(vs@),
        DataBody::BlackBox => seq![],
    }
}

/// Parameters: each name as a declared parameter, then its type.
pub open spec fn params_sem(ps: Seq<Param>) -> Seq<SemToken>
    decreases ps.len(),
{
    if ps.len() == 0 {
        seq![]
    } else {
        params_sem(ps.drop_last()) + seq![tok(ps.last().name.span, SemKind::Parameter, true)] + type_sem(ps.last().ty)
    }
}

/// A callable: macros, its name as a declared method, parameters, return
/// type, body.
pub open spec fn callable_sem(c: Callable) -> Seq<SemToken> {
    macros_sem(c.macros@) + seq![tok(c.name.span, SemKind::Method, true)] + params_sem(c.params@) + match c.return_ty {
        Some(t) => type_sem(t),
        None => seq![],
    } + match c.body {
        Some(b) => stmts_sem(b.stmts@),
        None => seq![],
    }
}

/// A declaration: its macros, then its payload.
pub open spec fn decl_sem(d: Decl) -> Seq<SemToken>
    decreases d,
{
    macros_sem(d.macros@) + match d.kind {
        DeclKind::Person(n) => node_sem(n),
        DeclKind::System(n) => node_sem(n),
        DeclKind::Container(n) => node_sem(n),
        DeclKind::Component(n) => node_sem(n),
        DeclKind::Data(data) => data_sem(data),
        DeclKind::Constant(c) => seq![tok(c.name.span, SemKind::Variable, true)],
    }
}

/// A node: its name as a declared namespace, its parent path, its members.
pub open spec fn node_sem(n: Node) -> Seq<SemToken>
    decreases n,
{
    seq![tok(n.name.span, SemKind::Namespace, true)] + match n.parent {
        Some(p) => ns_spans(p.segments@),
        None => seq![],
    } + match n.body {
        Some(ms) => members_sem(ms@),
        None => seq![],
    }
}

/// Body members in order.
pub open spec fn members_sem(ms: Seq<BodyMember>) -> Seq<SemToken>
    decreases ms,
{
    if ms.len() == 0 {
        seq![]
    } else {
        members_sem(ms.subrange(0, ms.len() - 1)) + match ms[ms.len() - 1] {
            BodyMember::Callable(c) => callable_sem(c),
            BodyMember::Decl(d) => decl_sem(d),
        }
    }
}

/// The AST pass over a module's items.
pub open spec fn ast_pass_spec(items: Seq<Item>) -> Seq<SemToken>
    decreases items.len(),
{
    if items.len() == 0 {
        seq![]
    } else {
        ast_pass_spec(items.drop_last()) + match items.last() {
            Item::Decl(d) => decl_sem(d),
            Item::Feature(f) => seq![tok(f.name.span, SemKind::Namespace, true)] + ns_spans(f.target.segments@),
        }
    }
}

/// Appends the token `span` coloured `kind`.
fn push(out: &mut Vec<SemToken>, span: Span, kind: SemKind, declaration: bool)
    ensures
        final(out)@ == old(out)@.push(SemToken { start: span.start, end: span.end, kind, declaration }),
{
    out.push(SemToken { start: span.start, end: span.end, kind, declaration });
}

/// The token pass: keywords, doc comments, string and number literals.
fn token_pass(tokens: &Vec<Token>, out: &mut Vec<SemToken>)
    ensures
        final(out)@ == old(out)@ + token_pass_spec(tokens@),
{
    let ghost o0 = out@;
    let mut i: usize = 0;
    assert(tokens@.take(0) =~= seq![]);
    assert(o0 + seq![] =~= o0);
    while i < tokens.len()
        invariant
            i <= tokens@.len(),
            out@ == o0 + token_pass_spec(tokens@.take(i as int)),
        decreases tokens@.len() - i,
    {
        let token = &tokens[i];
        let k = token.kind;
        assert(tokens@.take(i + 1).drop_last() =~= tokens@.take(i as int));
        if k.is_keyword() {
            push(out, token.span, SemKind::Keyword, false);
        } else if k == TokenKind::Doc || k == TokenKind::InnerDoc || k == TokenKind::Tag {
            push(out, token.span, SemKind::Comment, false);
        } else if k == TokenKind::String {
            push(out, token.span, SemKind::String, false);
        } else if k == TokenKind::Number {
            push(out, token.span, SemKind::Number, false);
        }
        assert(out@ =~= o0 + token_pass_spec(tokens@.take(i + 1)));
        i = i + 1;
    }
    assert(tokens@.take(tokens@.len() as int) =~= tokens@);
}

/// The comment pass: `//` line and `/* */` block comments.
fn comment_pass(trivia: &Vec<SpannedTrivia>, out: &mut Vec<SemToken>)
    ensures
        final(out)@ == old(out)@ + comment_pass_spec(trivia@),
{
    let ghost o0 = out@;
    let mut i: usize = 0;
    assert(trivia@.take(0) =~= seq![]);
    assert(o0 + seq![] =~= o0);
    while i < trivia.len()
        invariant
            i <= trivia@.len(),
            out@ == o0 + comment_pass_spec(trivia@.take(i as int)),
        decreases trivia@.len() - i,
    {
        assert(trivia@.take(i + 1).drop_last() =~= trivia@.take(i as int));
        match &trivia[i].trivia {
            Trivia::LineComment(_) | Trivia::BlockComment(_) => {
                push(out, trivia[i].span, SemKind::Comment, false);
            },
            Trivia::BlankLines(_) => {},
        }
        assert(out@ =~= o0 + comment_pass_spec(trivia@.take(i + 1)));
        i = i + 1;
    }
    assert(trivia@.take(trivia@.len() as int) =~= trivia@);
}

/// Appends the first `n` identifiers of `ids`, each as a namespace.
fn push_namespaces(ids: &Vec<Ident>, n: usize, out: &mut Vec<SemToken>)
    requires
        n <= ids@.len(),
    ensures
        final(out)@ == old(out)@ + ns_spans(ids@.take(n as int)),
{
    let ghost o0 = out@;
    let mut i: usize = 0;
    assert(o0 + ns_spans(ids@.take(0)) =~= o0);
    while i < n
        invariant
            i <= n <= ids@.len(),
            out@ == o0 + ns_spans(ids@.take(i as int)),
        decreases n - i,
    {
        push(out, ids[i].span, SemKind::Namespace, false);
        assert(ns_spans(ids@.take(i + 1)) =~= ns_spans(ids@.take(i as int)).push(
            tok(ids@[i as int].span, SemKind::Namespace, false),
        ));
        assert(out@ =~= o0 + ns_spans(ids@.take(i + 1)));
        i = i + 1;
    }
}

/// Colours a path's last segment as `last`, every qualifier as a namespace.
fn split_path(path: &Path, last: SemKind, out: &mut Vec<SemToken>)
    ensures
        final(out)@ == old(out)@ + split_path_spec(*path, last),
{
    let ghost o0 = out@;
    let n = path.segments.len();
    if n == 0 {
        assert(o0 + seq![] =~= o0);
        return;
    }
    push_namespaces(&path.segments, n - 1, out);
    push(out, path.segments[n - 1].span, last, false);
    assert(out@ =~= o0 + split_path_spec(*path, last));
}

/// Colours every segment of a path as a namespace (parent / target path).
fn namespace_path(path: &Path, out: &mut Vec<SemToken>)
    ensures
        final(out)@ == old(out)@ + ns_spans(path.segments@),
{
    push_namespaces(&path.segments, path.segments.len(), out);
    assert(path.segments@.take(path.segments@.len() as int) =~= path.segments@);
}

/// Colours a type: the base path (qualifiers as namespaces, the name as a
/// type) and any generic arguments.
fn type_tokens(ty: &Type, out: &mut Vec<SemToken>)
    ensures
        final(out)@ == old(out)@ + type_sem(*ty),
    decreases ty,
{
    let ghost o0 = out@;
    split_path(&ty.name, SemKind::Type, out);
    let ghost o1 = out@;
    let ghost gs = ty.generics@;
    let mut i: usize = 0;
    assert(gs.subrange(0, 0) =~= seq![]);
    assert(o1 + seq![] =~= o1);
    while i < ty.generics.len()
        invariant
            i <= gs.len(),
            gs == ty.generics@,
            out@ == o1 + types_sem(gs.subrange(0, i as int)),
        decreases ty.generics@.len() - i,
    {
        proof {
            assert(decreases_to!(*ty => ty.generics));
            assert(decreases_to!(ty.generics => ty.generics@));
            assert(decreases_to!(ty.generics@ => ty.generics@[i as int]));
            let t = gs.subrange(0, i + 1);
            assert(t.subrange(0, t.len() - 1) =~= gs.subrange(0, i as int));
        }
        type_tokens(&ty.generics[i], out);
        assert(out@ =~= o1 + types_sem(gs.subrange(0, i + 1)));
        i = i + 1;
    }
    assert(gs.subrange(0, gs.len() as int) =~= gs);
    assert(out@ =~= o0 + type_sem(*ty));
}

/// Appends each macro invocation (`#[name(args)]`) as one decorator.
fn macros_tokens(ms: &Vec<Macro>, out: &mut Vec<SemToken>)
    ensures
        final(out)@ == old(out)@ + macros_sem(ms@),
{
    let ghost o0 = out@;
    let mut i: usize = 0;
    assert(o0 + macros_sem(ms@.take(0)) =~= o0);
    while i < ms.len()
        invariant
            i <= ms@.len(),
            out@ == o0 + macros_sem(ms@.take(i as int)),
        decreases ms@.len() - i,
    {
        push(out, ms[i].span, SemKind::Decorator, false);
        assert(macros_sem(ms@.take(i + 1)) =~= macros_sem(ms@.take(i as int)).push(
            tok(ms@[i as int].span, SemKind::Decorator, false),
        ));
        assert(out@ =~= o0 + macros_sem(ms@.take(i + 1)));
        i = i + 1;
    }
    assert(ms@.take(ms@.len() as int) =~= ms@);
}

/// Colours each expression of `es`.
fn exprs_tokens(es: &Vec<Expr>, out: &mut Vec<SemToken>)
    ensures
        final(out)@ == old(out)@ + exprs_sem(es@),
    decreases es, 0nat,
{
    let ghost o0 = out@;
    let mut i: usize = 0;
    assert(es@.subrange(0, 0) =~= seq![]);
    assert(o0 + seq![] =~= o0);
    while i < es.len()
        invariant
            i <= es@.len(),
            out@ == o0 + exprs_sem(es@.subrange(0, i as int)),
        decreases es@.len() - i,
    {
        proof {
            assert(decreases_to!(*es => es@));
            assert(decreases_to!(es@ => es@[i as int]));
            let t = es@.subrange(0, i + 1);
            assert(t.subrange(0, t.len() - 1) =~= es@.subrange(0, i as int));
        }
        expr_tokens(&es[i], out);
        assert(out@ =~= o0 + exprs_sem(es@.subrange(0, i + 1)));
        i = i + 1;
    }
    assert(es@.subrange(0, es@.len() as int) =~= es@);
}

/// Colours postfix segments: a called step as a method, an accessed one as a
/// property, then the call arguments.
fn segments_tokens(segs: &Vec<PostfixSeg>, out: &mut Vec<SemToken>)
    ensures
        final(out)@ == old(out)@ + segs_sem(segs@),
    decreases segs, 0nat,
{
    let ghost o0 = out@;
    let mut i: usize = 0;
    assert(segs@.subrange(0, 0) =~= seq![]);
    assert(o0 + seq![] =~= o0);
    while i < segs.len()
        invariant
            i <= segs@.len(),
            out@ == o0 + segs_sem(segs@.subrange(0, i as int)),
        decreases segs@.len() - i,
    {
        let seg = &segs[i];
        let ghost t = segs@.subrange(0, i + 1);
        assert(t.subrange(0, t.len() - 1) =~= segs@.subrange(0, i as int));
        let kind = if seg.call_args.is_some() { SemKind::Method } else { SemKind::Property };
        push(out, seg.name.span, kind, false);
        match &seg.call_args {
            Some(args) => {
                proof {
                    assert(decreases_to!(*segs => segs@));
                    assert(decreases_to!(segs@ => segs@[i as int]));
                    assert(decreases_to!(segs@[i as int] => segs@[i as int].call_args));
                    assert(decreases_to!(segs@[i as int].call_args => segs@[i as int].call_args->0));
                }
                exprs_tokens(args, out);
            },
            None => {},
        }
        assert(out@ =~= o0 + segs_sem(segs@.subrange(0, i + 1)));
        i = i + 1;
    }
    assert(segs@.subrange(0, segs@.len() as int) =~= segs@);
}

/// Colours an expression: references, calls, field access, and `from`
/// types. Literals and `self` are left to the token pass.
fn expr_tokens(expr: &Expr, out: &mut Vec<SemToken>)
    ensures
        final(out)@ == old(out)@ + expr_sem(*expr),
    decreases expr, 1nat,
{
    let ghost o0 = out@;
    match &expr.kind {
        ExprKind::Marker { payload, .. } => {
            match payload {
                Some(p) => expr_tokens(p, out),
                None => {},
            }
        },
        ExprKind::From { ty, source } => {
            type_tokens(ty, out);
            match source {
                FromSource::Compose(v) => exprs_tokens(v, out),
                FromSource::Convert(b) => expr_tokens(b, out),
            }
        },
        ExprKind::Postfix { base, segments } => {
            expr_tokens(base, out);
            segments_tokens(segments, out);
        },
        ExprKind::OwnCall { name, args } => {
            push(out, name.span, SemKind::Method, false);
            exprs_tokens(args, out);
        },
        ExprKind::Ref(Ref::Path(path)) => split_path(path, SemKind::Variable, out),
        ExprKind::Ref(Ref::SelfNode(_)) => {},
        ExprKind::Literal(_) => {},
        ExprKind::Unary { expr: inner, .. } => expr_tokens(inner, out),
        ExprKind::Binary { left, right, .. } => {
            expr_tokens(left, out);
            expr_tokens(right, out);
        },
        ExprKind::Paren(inner) => expr_tokens(inner, out),
    }
    assert(out@ =~= o0 + expr_sem(*expr));
}

/// Colours every statement in a block.
fn block_tokens(block: &Block, out: &mut Vec<SemToken>)
    ensures
        final(out)@ == old(out)@ + stmts_sem(block.stmts@),
    decreases block,
{
    let ghost o0 = out@;
    let ghost ss = block.stmts@;
    let mut i: usize = 0;
    assert(ss.subrange(0, 0) =~= seq![]);
    assert(o0 + seq![] =~= o0);
    while i < block.stmts.len()
        invariant
            i <= ss.len(),
            ss == block.stmts@,
            out@ == o0 + stmts_sem(ss.subrange(0, i as int)),
        decreases block.stmts@.len() - i,
    {
        proof {
            assert(decreases_to!(*block => block.stmts));
            assert(decreases_to!(block.stmts => block.stmts@));
            assert(decreases_to!(block.stmts@ => block.stmts@[i as int]));
            let t = ss.subrange(0, i + 1);
            assert(t.subrange(0, t.len() - 1) =~= ss.subrange(0, i as int));
        }
        stmt_tokens(&block.stmts[i], out);
        assert(out@ =~= o0 + stmts_sem(ss.subrange(0, i + 1)));
        i = i + 1;
    }
    assert(ss.subrange(0, ss.len() as int) =~= ss);
}

/// Colours one statement and its sub-expressions.
fn stmt_tokens(stmt: &Stmt, out: &mut Vec<SemToken>)
    ensures
        final(out)@ == old(out)@ + stmt_sem(*stmt),
    decreases stmt,
{
    let ghost o0 = out@;
    match &stmt.kind {
        StmtKind::Assign { name, value } => {
            push(out, name.span, SemKind::Variable, true);
            expr_tokens(value, out);
        },
        StmtKind::Return(value) => {
            match value {
                Some(v) => expr_tokens(v, out),
                None => {},
            }
        },
        StmtKind::If { cond, then_block, else_block } => {
            expr_tokens(cond, out);
            block_tokens(then_block, out);
            match else_block {
                Some(b) => block_tokens(b, out),
                None => {},
            }
        },
        StmtKind::For { binding, iter, body } => {
            push(out, binding.span, SemKind::Variable, true);
            expr_tokens(iter, out);
            block_tokens(body, out);
        },
        StmtKind::While { cond, body } => {
            expr_tokens(cond, out);
            block_tokens(body, out);
        },
        StmtKind::Expr(e) => expr_tokens(e, out),
    }
    assert(out@ =~= o0 + stmt_sem(*stmt));
}

/// Colours record fields: each name (property, declared) and its type.
fn fields_tokens(fields: &Vec<Field>, out: &mut Vec<SemToken>)
    ensures
        final(out)@ == old(out)@ + fields_sem(fields@),
{
    let ghost o0 = out@;
    let mut i: usize = 0;
    assert(fields@.take(0) =~= seq![]);
    assert(o0 + seq![] =~= o0);
    while i < fields.len()
        invariant
            i <= fields@.len(),
            out@ == o0 + fields_sem(fields@.take(i as int)),
        decreases fields@.len() - i,
    {
        assert(fields@.take(i + 1).drop_last() =~= fields@.take(i as int));
        push(out, fields[i].name.span, SemKind::Property, true);
        type_tokens(&fields[i].ty, out);
        assert(out@ =~= o0 + fields_sem(fields@.take(i + 1)));
        i = i + 1;
    }
    assert(fields@.take(fields@.len() as int) =~= fields@);
}

/// Colours a `data` declaration: its name (class, declared) and its fields
/// or variants.
fn data_tokens(data: &Data, out: &mut Vec<SemToken>)
    ensures
        final(out)@ == old(out)@ + data_sem(*data),
{
    let ghost o0 = out@;
    push(out, data.name.span, SemKind::Class, true);
    let ghost o1 = out@;
    match &data.body {
        DataBody::Record(fields) => fields_tokens(fields, out),
        DataBody::Union(variants) => {
            let mut i: usize = 0;
            assert(variants@.take(0) =~= seq![]);
            assert(o1 + seq![] =~= o1);
            while i < variants.len()
                invariant
                    i <= variants@.len(),
                    out@ == o1 + variants_sem(variants@.take(i as int)),
                decreases variants@.len() - i,
            {
                assert(variants@.take(i + 1).drop_last() =~= variants@.take(i as int));
                push(out, variants[i].name.span, SemKind::EnumMember, true);
                match &variants[i].record {
                    Some(fields) => fields_tokens(fields, out),
                    None => {},
                }
                assert(out@ =~= o1 + variants_sem(variants@.take(i + 1)));
                i = i + 1;
            }
            assert(variants@.take(variants@.len() as int) =~= variants@);
        },
        DataBody::BlackBox => {},
    }
    assert(out@ =~= o0 + data_sem(*data));
}

/// Colours a callable: macros, name (method, declared), parameters, return
/// type, and body.
fn callable_tokens(callable: &Callable, out: &mut Vec<SemToken>)
    ensures
        final(out)@ == old(out)@ + callable_sem(*callable),
{
    let ghost o0 = out@;
    macros_tokens(&callable.macros, out);
    push(out, callable.name.span, SemKind::Method, true);
    let ghost o1 = out@;
    let ghost ps = callable.params@;
    let mut j: usize = 0;
    assert(ps.take(0) =~= seq![]);
    assert(o1 + seq![] =~= o1);
    while j < callable.params.len()
        invariant
            j <= ps.len(),
            ps == callable.params@,
            out@ == o1 + params_sem(ps.take(j as int)),
        decreases callable.params@.len() - j,
    {
        assert(ps.take(j + 1).drop_last() =~= ps.take(j as int));
        push(out, callable.params[j].name.span, SemKind::Parameter, true);
        type_tokens(&callable.params[j].ty, out);
        assert(out@ =~= o1 + params_sem(ps.take(j + 1)));
        j = j + 1;
    }
    assert(ps.take(ps.len() as int) =~= ps);
    match &callable.return_ty {
        Some(ret) => type_tokens(ret, out),
        None => {},
    }
    match &callable.body {
        Some(block) => block_tokens(block, out),
        None => {},
    }
    assert(out@ =~= o0 + callable_sem(*callable));
}

/// Colours a node's disclosed body members.
fn members_tokens(members: &Vec<BodyMember>, out: &mut Vec<SemToken>)
    ensures
        final(out)@ == old(out)@ + members_sem(members@),
    decreases members,
{
    let ghost o0 = out@;
    let ghost ms = members@;
    let mut i: usize = 0;
    assert(ms.subrange(0, 0) =~= seq![]);
    assert(o0 + seq![] =~= o0);
    while i < members.len()
        invariant
            i <= ms.len(),
            ms == members@,
            out@ == o0 + members_sem(ms.subrange(0, i as int)),
        decreases members@.len() - i,
    {
        proof {
            let t = ms.subrange(0, i + 1);
            assert(t.subrange(0, t.len() - 1) =~= ms.subrange(0, i as int));
        }
        match &members[i] {
            BodyMember::Callable(callable) => callable_tokens(callable, out),
            BodyMember::Decl(decl) => {
                proof {
                    assert(decreases_to!(*members => members@));
                    assert(decreases_to!(members@ => members@[i as int]));
                }
                decl_tokens(decl, out);
            },
        }
        assert(out@ =~= o0 + members_sem(ms.subrange(0, i + 1)));
        i = i + 1;
    }
    assert(ms.subrange(0, ms.len() as int) =~= ms);
}

/// Colours a node: its name (namespace, declared), its `for` parent path,
/// and its disclosed body members.
fn node_tokens(node: &Node, out: &mut Vec<SemToken>)
    ensures
        final(out)@ == old(out)@ + node_sem(*node),
    decreases node,
{
    let ghost o0 = out@;
    push(out, node.name.span, SemKind::Namespace, true);
    match &node.parent {
        Some(parent) => namespace_path(parent, out),
        None => {},
    }
    match &node.body {
        Some(members) => members_tokens(members, out),
        None => {},
    }
    assert(out@ =~= o0 + node_sem(*node));
}

/// Colours a declaration: its macros, then its structural payload.
fn decl_tokens(decl: &Decl, out: &mut Vec<SemToken>)
    ensures
        final(out)@ == old(out)@ + decl_sem(*decl),
    decreases decl,
{
    let ghost o0 = out@;
    macros_tokens(&decl.macros, out);
    match &decl.kind {
        DeclKind::Person(node) => node_tokens(node, out),
        DeclKind::System(node) => node_tokens(node, out),
        DeclKind::Container(node) => node_tokens(node, out),
        DeclKind::Component(node) => node_tokens(node, out),
        DeclKind::Data(data) => data_tokens(data, out),
        // The constant name is a value name; its literal is coloured by the
        // token pass.
        DeclKind::Constant(constant) => push(out, constant.name.span, SemKind::Variable, true),
    }
    assert(out@ =~= o0 + decl_sem(*decl));
}

/// The AST pass: identifiers coloured by their declared role across the
/// whole module.
fn ast_pass(module: &Module, out: &mut Vec<SemToken>)
    ensures
        final(out)@ == old(out)@ + ast_pass_spec(module.items@),
{
    let ghost o0 = out@;
    let mut i: usize = 0;
    assert(module.items@.take(0) =~= seq![]);
    assert(o0 + seq![] =~= o0);
    while i < module.items.len()
        invariant
            i <= module.items@.len(),
            out@ == o0 + ast_pass_spec(module.items@.take(i as int)),
        decreases module.items@.len() - i,
    {
        assert(module.items@.take(i + 1).drop_last() =~= module.items@.take(i as int));
        match &module.items[i] {
            Item::Decl(decl) => decl_tokens(decl, out),
            Item::Feature(feature) => {
                push(out, feature.name.span, SemKind::Namespace, true);
                namespace_path(&feature.target, out);
            },
        }
        assert(out@ =~= o0 + ast_pass_spec(module.items@.take(i + 1)));
        i = i + 1;
    }
    assert(module.items@.take(module.items@.len() as int) =~= module.items@);
}

/// Where [`insert_by_start`] places `t`: after the last token of `sorted`
/// starting at or before it.
pub open spec fn insert_pos(sorted: Seq<SemToken>, t: SemToken) -> int
    decreases sorted.len(),
{
    if sorted.len() == 0 {
        0
    } else if sorted.last().start <= t.start {
        sorted.len() as int
    } else {
        insert_pos(sorted.drop_last(), t)
    }
}

/// Inserting places `t` at [`insert_pos`], keeping the rest in order.
pub proof fn lemma_insert_at(sorted: Seq<SemToken>, t: SemToken)
    ensures
        0 <= insert_pos(sorted, t) <= sorted.len(),
        insert_by_start(sorted, t) == sorted.insert(insert_pos(sorted, t), t),
    decreases sorted.len(),
{
    if sorted.len() > 0 && sorted.last().start > t.start {
        lemma_insert_at(sorted.drop_last(), t);
        let p = insert_pos(sorted.drop_last(), t);
        assert(sorted.drop_last().insert(p, t).push(sorted.last()) =~= sorted.insert(p, t));
    } else if sorted.len() > 0 {
        assert(sorted.push(t) =~= sorted.insert(sorted.len() as int, t));
    } else {
        assert(seq![t] =~= sorted.insert(0, t));
    }
}

/// Inserts `t` into `sorted` as [`insert_by_start`] does.
fn insert_token(sorted: &mut Vec<SemToken>, t: SemToken)
    ensures
        final(sorted)@ == insert_by_start(old(sorted)@, t),
{
    let ghost s = sorted@;
    let mut j = sorted.len();
    assert(s.take(j as int) =~= s);
    while j > 0 && sorted[j - 1].start > t.start
        invariant
            j <= s.len(),
            sorted@ == s,
            insert_pos(s, t) == insert_pos(s.take(j as int), t),
        decreases j,
    {
        assert(s.take(j as int).drop_last() =~= s.take(j - 1));
        j = j - 1;
    }
    proof {
        lemma_insert_at(s, t);
    }
    sorted.insert(j, t);
}

/// `raws` stably sorted by start offset.
fn sort_tokens(raws: &Vec<SemToken>) -> (sorted: Vec<SemToken>)
    ensures
        sorted@ == sort_by_start(raws@),
{
    let mut sorted: Vec<SemToken> = Vec::new();
    let mut i: usize = 0;
    assert(raws@.take(0) =~= seq![]);
    while i < raws.len()
        invariant
            i <= raws@.len(),
            sorted@ == sort_by_start(raws@.take(i as int)),
        decreases raws@.len() - i,
    {
        assert(raws@.take(i + 1).drop_last() =~= raws@.take(i as int));
        insert_token(&mut sorted, raws[i]);
        i = i + 1;
    }
    assert(raws@.take(raws@.len() as int) =~= raws@);
    sorted
}

/// The greedy selection keeps a sorted, non-empty, non-overlapping list,
/// every kept token starting at or after `last_end`.
pub proof fn lemma_select_disjoint(ts: Seq<SemToken>, last_end: u32)
    ensures
        sorted_disjoint(select_from(ts, last_end)),
        forall|i: int|
            0 <= i < select_from(ts, last_end).len() ==> #[trigger] select_from(ts, last_end)[i].start
                >= last_end,
    decreases ts.len(),
{
    if ts.len() > 0 {
        if ts[0].start < last_end || ts[0].end <= ts[0].start {
            lemma_select_disjoint(ts.drop_first(), last_end);
        } else {
            lemma_select_disjoint(ts.drop_first(), ts[0].end);
            let rest = select_from(ts.drop_first(), ts[0].end);
            let all = select_from(ts, last_end);
            assert(all == seq![ts[0]] + rest);
            assert forall|i: int, j: int| 0 <= i < j < all.len() implies (#[trigger] all[i]).end
                <= (#[trigger] all[j]).start by {
                if i > 0 {
                    assert(all[i] == rest[i - 1] && all[j] == rest[j - 1]);
                } else {
                    assert(all[j] == rest[j - 1]);
                }
            }
            assert forall|i: int| 0 <= i < all.len() implies (#[trigger] all[i]).start < all[i].end by {
                if i > 0 {
                    assert(all[i] == rest[i - 1]);
                }
            }
            assert forall|i: int| 0 <= i < all.len() implies #[trigger] all[i].start >= last_end by {
                if i > 0 {
                    assert(all[i] == rest[i - 1]);
                }
            }
        }
    }
}

/// The greedy selection of [`select_from`] over `ts` from offset zero.
fn select_tokens(ts: &Vec<SemToken>) -> (out: Vec<SemToken>)
    ensures
        out@ == select_from(ts@, 0),
{
    let mut out: Vec<SemToken> = Vec::new();
    let mut last_end: u32 = 0;
    let mut i: usize = 0;
    assert(ts@.skip(0) =~= ts@);
    assert(seq![] + ts@ =~= ts@);
    while i < ts.len()
        invariant
            i <= ts@.len(),
            select_from(ts@, 0) == out@ + select_from(ts@.skip(i as int), last_end),
        decreases ts@.len() - i,
    {
        let raw = ts[i];
        let ghost rest = ts@.skip(i as int);
        assert(rest[0] == raw);
        assert(rest.drop_first() =~= ts@.skip(i + 1));
        if !(raw.start < last_end || raw.end <= raw.start) {
            let ghost before = out@;
            last_end = raw.end;
            out.push(raw);
            assert(before + (seq![raw] + select_from(ts@.skip(i + 1), last_end)) =~= out@ + select_from(
                ts@.skip(i + 1),
                last_end,
            ));
        }
        i = i + 1;
    }
    assert(ts@.skip(i as int) =~= seq![]);
    assert(out@ + seq![] =~= out@);
    out
}

/// Every token in `ts` starts and ends within the first `n` bytes.
pub open spec fn toks_within(ts: Seq<SemToken>, n: int) -> bool {
    forall|k: int| 0 <= k < ts.len() ==> (#[trigger] ts[k]).start <= n && ts[k].end <= n
}

proof fn lemma_cat_within(a: Seq<SemToken>, b: Seq<SemToken>, n: int)
    requires
        toks_within(a, n),
        toks_within(b, n),
    ensures
        toks_within(a + b, n),
{
    assert forall|k: int| 0 <= k < (a + b).len() implies (#[trigger] (a + b)[k]).start <= n && (a + b)[k].end
        <= n by {
        if k < a.len() {
            assert((a + b)[k] == a[k]);
        } else {
            assert((a + b)[k] == b[k - a.len()]);
        }
    }
}

proof fn lemma_ns_within(ids: Seq<Ident>, n: int)
    requires
        forall|i: int| 0 <= i < ids.len() ==> span_within(#[trigger] ids[i].span, n),
    ensures
        toks_within(ns_spans(ids), n),
{
    assert forall|k: int| 0 <= k < ns_spans(ids).len() implies (#[trigger] ns_spans(ids)[k]).start <= n
        && ns_spans(ids)[k].end <= n by {
        assert(ns_spans(ids)[k] == tok(ids[k].span, SemKind::Namespace, false));
        assert(span_within(ids[k].span, n));
    }
}

proof fn lemma_split_within(p: Path, last: SemKind, n: int)
    requires
        path_within(p, n),
    ensures
        toks_within(split_path_spec(p, last), n),
{
    let s = p.segments@;
    if s.len() > 0 {
        let init = s.take(s.len() - 1);
        assert forall|i: int| 0 <= i < init.len() implies span_within(#[trigger] init[i].span, n) by {
            assert(init[i] == s[i]);
        }
        assert(span_within(s[s.len() - 1].span, n));
        lemma_ns_within(init, n);
        lemma_cat_within(ns_spans(init), seq![tok(s[s.len() - 1].span, last, false)], n);
    }
}

proof fn lemma_type_within(t: Type, n: int)
    requires
        type_within(t, n),
    ensures
        toks_within(type_sem(t), n),
    decreases t, 1nat,
{
    lemma_split_within(t.name, SemKind::Type, n);
    lemma_types_within(t.generics@, n);
    lemma_cat_within(split_path_spec(t.name, SemKind::Type), types_sem(t.generics@), n);
}

proof fn lemma_types_within(ts: Seq<Type>, n: int)
    requires
        forall|i: int| 0 <= i < ts.len() ==> type_within(#[trigger] ts[i], n),
    ensures
        toks_within(types_sem(ts), n),
    decreases ts, 0nat,
{
    if ts.len() > 0 {
        let init = ts.subrange(0, ts.len() - 1);
        assert forall|i: int| 0 <= i < init.len() implies type_within(#[trigger] init[i], n) by {
            assert(init[i] == ts[i]);
        }
        assert(type_within(ts[ts.len() - 1], n));
        lemma_types_within(init, n);
        lemma_type_within(ts[ts.len() - 1], n);
        lemma_cat_within(types_sem(init), type_sem(ts[ts.len() - 1]), n);
    }
}

proof fn lemma_expr_within(e: Expr, n: int)
    requires
        expr_within(e, n),
    ensures
        toks_within(expr_sem(e), n),
    decreases e, 1nat,
{
    match e.kind {
        ExprKind::Marker { payload, .. } => match payload {
            Some(p) => lemma_expr_within(*p, n),
            None => {},
        },
        ExprKind::From { ty, source } => {
            lemma_type_within(ty, n);
            match source {
                FromSource::Compose(v) => {
                    lemma_exprs_within(v@, n);
                    lemma_cat_within(type_sem(ty), exprs_sem(v@), n);
                },
                FromSource::Convert(b) => {
                    lemma_expr_within(*b, n);
                    lemma_cat_within(type_sem(ty), expr_sem(*b), n);
                },
            }
        },
        ExprKind::Postfix { base, segments } => {
            lemma_expr_within(*base, n);
            lemma_segs_within(segments@, n);
            lemma_cat_within(expr_sem(*base), segs_sem(segments@), n);
        },
        ExprKind::OwnCall { name, args } => {
            lemma_exprs_within(args@, n);
            lemma_cat_within(seq![tok(name.span, SemKind::Method, false)], exprs_sem(args@), n);
        },
        ExprKind::Ref(Ref::Path(path)) => lemma_split_within(path, SemKind::Variable, n),
        ExprKind::Unary { expr, .. } => lemma_expr_within(*expr, n),
        ExprKind::Binary { left, right, .. } => {
            lemma_expr_within(*left, n);
            lemma_expr_within(*right, n);
            lemma_cat_within(expr_sem(*left), expr_sem(*right), n);
        },
        ExprKind::Paren(inner) => lemma_expr_within(*inner, n),
        _ => {},
    }
}

proof fn lemma_exprs_within(es: Seq<Expr>, n: int)
    requires
        forall|i: int| 0 <= i < es.len() ==> expr_within(#[trigger] es[i], n),
    ensures
        toks_within(exprs_sem(es), n),
    decreases es, 0nat,
{
    if es.len() > 0 {
        let init = es.subrange(0, es.len() - 1);
        assert forall|i: int| 0 <= i < init.len() implies expr_within(#[trigger] init[i], n) by {
            assert(init[i] == es[i]);
        }
        assert(expr_within(es[es.len() - 1], n));
        lemma_exprs_within(init, n);
        lemma_expr_within(es[es.len() - 1], n);
        lemma_cat_within(exprs_sem(init), expr_sem(es[es.len() - 1]), n);
    }
}

proof fn lemma_segs_within(segs: Seq<PostfixSeg>, n: int)
    requires
        forall|i: int| 0 <= i < segs.len() ==> seg_within(#[trigger] segs[i], n),
    ensures
        toks_within(segs_sem(segs), n),
    decreases segs, 0nat,
{
    if segs.len() > 0 {
        let init = segs.subrange(0, segs.len() - 1);
        assert forall|i: int| 0 <= i < init.len() implies seg_within(#[trigger] init[i], n) by {
            assert(init[i] == segs[i]);
        }
        let g = segs[segs.len() - 1];
        assert(seg_within(g, n));
        lemma_segs_within(init, n);
        let head = seq![
            tok(g.name.span, if g.call_args is Some { SemKind::Method } else { SemKind::Property }, false),
        ];
        lemma_cat_within(segs_sem(init), head, n);
        match g.call_args {
            Some(args) => {
                lemma_exprs_within(args@, n);
                lemma_cat_within(segs_sem(init) + head, exprs_sem(args@), n);
            },
            None => {
                lemma_cat_within(segs_sem(init) + head, seq![], n);
            },
        }
    }
}

proof fn lemma_stmt_within(st: Stmt, n: int)
    requires
        stmt_kind_within(st.kind, n),
    ensures
        toks_within(stmt_sem(st), n),
    decreases st,
{
    match st.kind {
        StmtKind::Assign { name, value } => {
            lemma_expr_within(value, n);
            lemma_cat_within(seq![tok(name.span, SemKind::Variable, true)], expr_sem(value), n);
        },
        StmtKind::Return(v) => match v {
            Some(e) => lemma_expr_within(e, n),
            None => {},
        },
        StmtKind::If { cond, then_block, else_block } => {
            lemma_expr_within(cond, n);
            lemma_stmts_within(then_block.stmts@, n);
            lemma_cat_within(expr_sem(cond), stmts_sem(then_block.stmts@), n);
            match else_block {
                Some(b) => {
                    lemma_stmts_within(b.stmts@, n);
                    lemma_cat_within(expr_sem(cond) + stmts_sem(then_block.stmts@), stmts_sem(b.stmts@), n);
                },
                None => {
                    lemma_cat_within(expr_sem(cond) + stmts_sem(then_block.stmts@), seq![], n);
                },
            }
        },
        StmtKind::For { binding, iter, body } => {
            lemma_expr_within(iter, n);
            lemma_stmts_within(body.stmts@, n);
            let head = seq![tok(binding.span, SemKind::Variable, true)];
            lemma_cat_within(head, expr_sem(iter), n);
            lemma_cat_within(head + expr_sem(iter), stmts_sem(body.stmts@), n);
        },
        StmtKind::While { cond, body } => {
            lemma_expr_within(cond, n);
            lemma_stmts_within(body.stmts@, n);
            lemma_cat_within(expr_sem(cond), stmts_sem(body.stmts@), n);
        },
        StmtKind::Expr(e) => lemma_expr_within(e, n),
    }
}

proof fn lemma_stmts_within(ss: Seq<Stmt>, n: int)
    requires
        forall|i: int| 0 <= i < ss.len() ==> stmt_kind_within(#[trigger] ss[i].kind, n),
    ensures
        toks_within(stmts_sem(ss), n),
    decreases ss,
{
    if ss.len() > 0 {
        let init = ss.subrange(0, ss.len() - 1);
        assert forall|i: int| 0 <= i < init.len() implies stmt_kind_within(#[trigger] init[i].kind, n) by {
            assert(init[i] == ss[i]);
        }
        assert(stmt_kind_within(ss[ss.len() - 1].kind, n));
        lemma_stmts_within(init, n);
        lemma_stmt_within(ss[ss.len() - 1], n);
        lemma_cat_within(stmts_sem(init), stmt_sem(ss[ss.len() - 1]), n);
    }
}

proof fn lemma_fields_within(fs: Seq<Field>, n: int)
    requires
        fields_within(fs, n),
    ensures
        toks_within(fields_sem(fs), n),
    decreases fs.len(),
{
    if fs.len() > 0 {
        let init = fs.drop_last();
        assert forall|i: int| 0 <= i < init.len() implies span_within((#[trigger] init[i]).name.span, n)
            && type_within(init[i].ty, n) by {
            assert(init[i] == fs[i]);
        }
        assert(span_within(fs[fs.len() - 1].name.span, n) && type_within(fs[fs.len() - 1].ty, n));
        lemma_fields_within(init, n);
        lemma_type_within(fs.last().ty, n);
        let head = seq![tok(fs.last().name.span, SemKind::Property, true)];
        lemma_cat_within(fields_sem(init), head, n);
        lemma_cat_within(fields_sem(init) + head, type_sem(fs.last().ty), n);
    }
}

proof fn lemma_variants_within(vs: Seq<Variant>, n: int)
    requires
        variants_within(vs, n),
    ensures
        toks_within(variants_sem(vs), n),
    decreases vs.len(),
{
    if vs.len() > 0 {
        let init = vs.drop_last();
        assert forall|i: int| 0 <= i < init.len() implies span_within((#[trigger] init[i]).name.span, n)
            && match init[i].record {
            Some(fs) => fields_within(fs@, n),
            None => true,
        } by {
            assert(init[i] == vs[i]);
        }
        let v = vs.last();
        assert(span_within(vs[vs.len() - 1].name.span, n));
        lemma_variants_within(init, n);
        let head = seq![tok(v.name.span, SemKind::EnumMember, true)];
        lemma_cat_within(variants_sem(init), head, n);
        match v.record {
            Some(fs) => {
                lemma_fields_within(fs@, n);
                lemma_cat_within(variants_sem(init) + head, fields_sem(fs@), n);
            },
            None => {
                lemma_cat_within(variants_sem(init) + head, seq![], n);
            },
        }
    }
}

proof fn lemma_params_within(ps: Seq<Param>, n: int)
    requires
        forall|i: int| 0 <= i < ps.len() ==> span_within((#[trigger] ps[i]).name.span, n) && type_within(ps[i].ty, n),
    ensures
        toks_within(params_sem(ps), n),
    decreases ps.len(),
{
    if ps.len() > 0 {
        let init = ps.drop_last();
        assert forall|i: int| 0 <= i < init.len() implies span_within((#[trigger] init[i]).name.span, n)
            && type_within(init[i].ty, n) by {
            assert(init[i] == ps[i]);
        }
        assert(span_within(ps[ps.len() - 1].name.span, n) && type_within(ps[ps.len() - 1].ty, n));
        lemma_params_within(init, n);
        lemma_type_within(ps.last().ty, n);
        let head = seq![tok(ps.last().name.span, SemKind::Parameter, true)];
        lemma_cat_within(params_sem(init), head, n);
        lemma_cat_within(params_sem(init) + head, type_sem(ps.last().ty), n);
    }
}

proof fn lemma_macros_within(ms: Seq<Macro>, n: int)
    requires
        macros_within(ms, n),
    ensures
        toks_within(macros_sem(ms), n),
{
    assert forall|k: int| 0 <= k < macros_sem(ms).len() implies (#[trigger] macros_sem(ms)[k]).start <= n
        && macros_sem(ms)[k].end <= n by {
        assert(macros_sem(ms)[k] == tok(ms[k].span, SemKind::Decorator, false));
        assert(span_within(ms[k].span, n));
    }
}

proof fn lemma_callable_within(c: Callable, n: int)
    requires
        callable_within(c, n),
    ensures
        toks_within(callable_sem(c), n),
{
    lemma_macros_within(c.macros@, n);
    lemma_params_within(c.params@, n);
    let a = macros_sem(c.macros@) + seq![tok(c.name.span, SemKind::Method, true)];
    lemma_cat_within(macros_sem(c.macros@), seq![tok(c.name.span, SemKind::Method, true)], n);
    lemma_cat_within(a, params_sem(c.params@), n);
    let r = match c.return_ty {
        Some(t) => type_sem(t),
        None => seq![],
    };
    match c.return_ty {
        Some(t) => lemma_type_within(t, n),
        None => {},
    }
    lemma_cat_within(a + params_sem(c.params@), r, n);
    let b = match c.body {
        Some(blk) => stmts_sem(blk.stmts@),
        None => seq![],
    };
    match c.body {
        Some(blk) => lemma_stmts_within(blk.stmts@, n),
        None => {},
    }
    lemma_cat_within(a + params_sem(c.params@) + r, b, n);
}

proof fn lemma_decl_sem_within(d: Decl, n: int)
    requires
        decl_within(d, n),
    ensures
        toks_within(decl_sem(d), n),
    decreases d,
{
    lemma_macros_within(d.macros@, n);
    match d.kind {
        DeclKind::Person(nd) => {
            lemma_node_sem_within(nd, n);
            lemma_cat_within(macros_sem(d.macros@), node_sem(nd), n);
        },
        DeclKind::System(nd) => {
            lemma_node_sem_within(nd, n);
            lemma_cat_within(macros_sem(d.macros@), node_sem(nd), n);
        },
        DeclKind::Container(nd) => {
            lemma_node_sem_within(nd, n);
            lemma_cat_within(macros_sem(d.macros@), node_sem(nd), n);
        },
        DeclKind::Component(nd) => {
            lemma_node_sem_within(nd, n);
            lemma_cat_within(macros_sem(d.macros@), node_sem(nd), n);
        },
        DeclKind::Data(data) => {
            let head = seq![tok(data.name.span, SemKind::Class, true)];
            match data.body {
                DataBody::Record(fs) => {
                    lemma_fields_within(fs@, n);
                    lemma_cat_within(head, fields_sem(fs@), n);
                },
                DataBody::Union(vs) => {
                    lemma_variants_within(vs@, n);
                    lemma_cat_within(head, variants_sem(vs@), n);
                },
                DataBody::BlackBox => {
                    lemma_cat_within(head, seq![], n);
                },
            }
            lemma_cat_within(macros_sem(d.macros@), data_sem(data), n);
        },
        DeclKind::Constant(c) => {
            lemma_cat_within(macros_sem(d.macros@), seq![tok(c.name.span, SemKind::Variable, true)], n);
        },
    }
}

proof fn lemma_node_sem_within(nd: Node, n: int)
    requires
        node_within(nd, n),
    ensures
        toks_within(node_sem(nd), n),
    decreases nd,
{
    let head = seq![tok(nd.name.span, SemKind::Namespace, true)];
    let p = match nd.parent {
        Some(p) => ns_spans(p.segments@),
        None => seq![],
    };
    match nd.parent {
        Some(pp) => {
            assert forall|i: int| 0 <= i < pp.segments@.len() implies span_within(
                #[trigger] pp.segments@[i].span,
                n,
            ) by {}
            lemma_ns_within(pp.segments@, n);
        },
        None => {},
    }
    lemma_cat_within(head, p, n);
    match nd.body {
        Some(ms) => {
            lemma_members_sem_within(ms@, n);
            lemma_cat_within(head + p, members_sem(ms@), n);
        },
        None => {
            lemma_cat_within(head + p, seq![], n);
        },
    }
}

proof fn lemma_members_sem_within(ms: Seq<BodyMember>, n: int)
    requires
        forall|i: int| 0 <= i < ms.len() ==> member_within(#[trigger] ms[i], n),
    ensures
        toks_within(members_sem(ms), n),
    decreases ms,
{
    if ms.len() > 0 {
        let init = ms.subrange(0, ms.len() - 1);
        assert forall|i: int| 0 <= i < init.len() implies member_within(#[trigger] init[i], n) by {
            assert(init[i] == ms[i]);
        }
        assert(member_within(ms[ms.len() - 1], n));
        lemma_members_sem_within(init, n);
        match ms[ms.len() - 1] {
            BodyMember::Callable(c) => {
                lemma_callable_within(c, n);
                lemma_cat_within(members_sem(init), callable_sem(c), n);
            },
            BodyMember::Decl(d) => {
                lemma_decl_sem_within(d, n);
                lemma_cat_within(members_sem(init), decl_sem(d), n);
            },
        }
    }
}

/// The AST pass over items lying within `n` bytes colours only spans there.
pub proof fn lemma_ast_pass_within(items: Seq<Item>, n: int)
    requires
        forall|i: int| 0 <= i < items.len() ==> item_within(#[trigger] items[i], n),
    ensures
        toks_within(ast_pass_spec(items), n),
    decreases items.len(),
{
    if items.len() > 0 {
        let init = items.drop_last();
        assert forall|i: int| 0 <= i < init.len() implies item_within(#[trigger] init[i], n) by {
            assert(init[i] == items[i]);
        }
        assert(item_within(items[items.len() - 1], n));
        lemma_ast_pass_within(init, n);
        match items.last() {
            Item::Decl(d) => {
                lemma_decl_sem_within(d, n);
                lemma_cat_within(ast_pass_spec(init), decl_sem(d), n);
            },
            Item::Feature(f) => {
                let head = seq![tok(f.name.span, SemKind::Namespace, true)];
                lemma_ns_within(f.target.segments@, n);
                lemma_cat_within(head, ns_spans(f.target.segments@), n);
                lemma_cat_within(ast_pass_spec(init), head + ns_spans(f.target.segments@), n);
            },
        }
    }
}

proof fn lemma_token_pass_within(ts: Seq<Token>, n: int)
    requires
        forall|i: int| 0 <= i < ts.len() ==> (#[trigger] ts[i]).span.start <= n && ts[i].span.end <= n,
    ensures
        toks_within(token_pass_spec(ts), n),
    decreases ts.len(),
{
    if ts.len() > 0 {
        let init = ts.drop_last();
        assert forall|i: int| 0 <= i < init.len() implies (#[trigger] init[i]).span.start <= n
            && init[i].span.end <= n by {
            assert(init[i] == ts[i]);
        }
        assert(ts[ts.len() - 1].span.end <= n);
        lemma_token_pass_within(init, n);
        lemma_cat_within(token_pass_spec(init), token_sem(ts.last()), n);
    }
}

proof fn lemma_comment_pass_within(tv: Seq<SpannedTrivia>, n: int)
    requires
        forall|i: int| 0 <= i < tv.len() ==> (#[trigger] tv[i]).span.start <= n && tv[i].span.end <= n,
    ensures
        toks_within(comment_pass_spec(tv), n),
    decreases tv.len(),
{
    if tv.len() > 0 {
        let init = tv.drop_last();
        assert forall|i: int| 0 <= i < init.len() implies (#[trigger] init[i]).span.start <= n
            && init[i].span.end <= n by {
            assert(init[i] == tv[i]);
        }
        assert(tv[tv.len() - 1].span.end <= n);
        lemma_comment_pass_within(init, n);
        let last = match tv.last().trivia {
            Trivia::BlankLines(_) => seq![],
            _ => seq![tok(tv.last().span, SemKind::Comment, false)],
        };
        lemma_cat_within(comment_pass_spec(init), last, n);
    }
}

proof fn lemma_insert_within(sorted: Seq<SemToken>, t: SemToken, n: int)
    requires
        toks_within(sorted, n),
        t.start <= n && t.end <= n,
    ensures
        toks_within(insert_by_start(sorted, t), n),
    decreases sorted.len(),
{
    if sorted.len() == 0 {
    } else if sorted.last().start <= t.start {
        lemma_cat_within(sorted, seq![t], n);
        assert(sorted.push(t) == sorted + seq![t]);
    } else {
        let init = sorted.drop_last();
        assert forall|k: int| 0 <= k < init.len() implies (#[trigger] init[k]).start <= n && init[k].end <= n by {
            assert(init[k] == sorted[k]);
        }
        lemma_insert_within(init, t, n);
        let r = insert_by_start(init, t);
        assert(sorted[sorted.len() - 1].end <= n);
        lemma_cat_within(r, seq![sorted.last()], n);
        assert(r.push(sorted.last()) == r + seq![sorted.last()]);
    }
}

proof fn lemma_sort_within(ts: Seq<SemToken>, n: int)
    requires
        toks_within(ts, n),
    ensures
        toks_within(sort_by_start(ts), n),
    decreases ts.len(),
{
    if ts.len() > 0 {
        let init = ts.drop_last();
        assert forall|k: int| 0 <= k < init.len() implies (#[trigger] init[k]).start <= n && init[k].end <= n by {
            assert(init[k] == ts[k]);
        }
        assert(ts[ts.len() - 1].end <= n);
        lemma_sort_within(init, n);
        lemma_insert_within(sort_by_start(init), ts.last(), n);
    }
}

proof fn lemma_select_within(ts: Seq<SemToken>, last_end: u32, n: int)
    requires
        toks_within(ts, n),
    ensures
        toks_within(select_from(ts, last_end), n),
    decreases ts.len(),
{
    if ts.len() > 0 {
        let rest = ts.drop_first();
        assert forall|k: int| 0 <= k < rest.len() implies (#[trigger] rest[k]).start <= n && rest[k].end <= n by {
            assert(rest[k] == ts[k + 1]);
        }
        assert(ts[0].end <= n);
        if ts[0].start < last_end || ts[0].end <= ts[0].start {
            lemma_select_within(rest, last_end, n);
        } else {
            lemma_select_within(rest, ts[0].end, n);
            lemma_cat_within(seq![ts[0]], select_from(rest, ts[0].end), n);
        }
    }
}

/// Computes the semantic tokens for `src`: every pass's tokens, stably
/// sorted by start offset, with each token that is empty or overlaps the
/// previously kept one dropped. The result is sorted, free of overlaps and
/// zero-width spans, and every token lies within the source.
pub fn semantic_tokens(src: &str) -> (out: Vec<SemToken>)
    requires
        src.spec_bytes().len() < u32::MAX,
    ensures
        sorted_disjoint(out@),
        toks_within(out@, src.spec_bytes().len() as int),
        exists|ts: Seq<Token>, tv: Seq<SpannedTrivia>, m: Module|
            #![trigger tokens_wf(ts, src.spec_bytes()), ast_pass_spec(m.items@), comment_pass_spec(tv)]
            tokens_wf(ts, src.spec_bytes()) && trivia_wf(tv, src.spec_bytes()) && parsed_from(src.spec_bytes(), m) && tok_fours(ts) == lex_tokens(
                src.spec_bytes(),
            ) && triv_views(tv) == lex_trivia(src.spec_bytes()) && out@ == select_from(
                sort_by_start(token_pass_spec(ts) + comment_pass_spec(tv) + ast_pass_spec(m.items@)),
                0,
            ),
{
    let lexed = lex(src);
    let mut raws: Vec<SemToken> = Vec::new();
    token_pass(&lexed.tokens, &mut raws);
    comment_pass(&lexed.trivia, &mut raws);
    let parsed = parse(src);
    ast_pass(&parsed.ast, &mut raws);
    let sorted = sort_tokens(&raws);
    let out = select_tokens(&sorted);
    proof {
        lemma_select_disjoint(sorted@, 0);
        assert(raws@ =~= token_pass_spec(lexed.tokens@) + comment_pass_spec(lexed.trivia@) + ast_pass_spec(
            parsed.ast.items@,
        ));
        assert(tokens_wf(lexed.tokens@, src.spec_bytes()));
        assert(trivia_wf(lexed.trivia@, src.spec_bytes()));
        assert(tok_fours(lexed.tokens@) == lex_tokens(src.spec_bytes()));
        assert(triv_views(lexed.trivia@) == lex_trivia(src.spec_bytes()));
        let n = src.spec_bytes().len() as int;
        lemma_token_pass_within(lexed.tokens@, n);
        lemma_comment_pass_within(lexed.trivia@, n);
        lemma_ast_pass_within(parsed.ast.items@, n);
        lemma_cat_within(token_pass_spec(lexed.tokens@), comment_pass_spec(lexed.trivia@), n);
        lemma_cat_within(
            token_pass_spec(lexed.tokens@) + comment_pass_spec(lexed.trivia@),
            ast_pass_spec(parsed.ast.items@),
            n,
        );
        lemma_sort_within(raws@, n);
        lemma_select_within(sorted@, 0, n);
    }
    out
}

} // verus!
