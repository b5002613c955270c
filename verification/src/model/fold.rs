//! Foldable source regions.
//!
//! Every brace-delimited declaration (a node or `data` record) and every
//! statement block is foldable; brace-less `data = | …` unions, constants and
//! black-box `;` declarations are not. Ranges run from the construct's
//! name/header through its closing brace, never over the leading doc
//! comments, in absolute byte offsets.

use crate::ast::{Block, BodyMember, Callable, DataBody, Decl, DeclKind, Item, Module, Stmt, StmtKind};
use crate::parser::{
    decl_within, item_within, member_within, parse, parsed_from, stmt_kind_within,
};
use crate::span::Span;
use vstd::prelude::*;
use vstd::string::StringSliceAdditionalSpecFns;

verus! {

/// What kind of construct a fold covers.
#[derive(Debug, Clone, Copy, PartialEq, Eq, Structural)]
pub enum FoldKind {
    /// A structural node body (`person`/`system`/`container`/`component`).
    Node,
    /// A callable's implementation block.
    Member,
    /// A `data` record body.
    Data,
    /// A nested control-flow scope (`if`/`for`/`while`) inside a member.
    Block,
}

/// A foldable region in absolute byte offsets, with the kind of construct it
/// covers.
#[derive(Debug, Clone, Copy, PartialEq, Eq, Structural)]
pub struct FoldRange {
    /// Start byte offset of the construct.
    pub start: u32,
    /// End byte offset of the construct.
    pub end: u32,
    /// The kind of construct this fold covers.
    pub kind: FoldKind,
}

/// The fold of `span` with `kind`.
pub open spec fn fold_of(span: Span, kind: FoldKind) -> FoldRange {
    FoldRange { start: span.start, end: span.end, kind }
}

/// The folds of the control-flow blocks nested inside the statements `ss`,
/// each scope followed by the folds nested in it.
pub open spec fn stmts_folds(ss: Seq<Stmt>) -> Seq<FoldRange>
    decreases ss,
{
    if ss.len() == 0 {
        seq![]
    } else {
        stmts_folds(ss.subrange(0, ss.len() - 1)) + stmt_folds(ss[ss.len() - 1])
    }
}

/// The folds of one statement's control-flow scopes.
pub open spec fn stmt_folds(s: Stmt) -> Seq<FoldRange>
    decreases s,
{
    match s.kind {
        StmtKind::If { then_block, else_block, .. } => seq![fold_of(then_block.span, FoldKind::Block)]
            + stmts_folds(then_block.stmts@) + match else_block {
            Some(b) => seq![fold_of(b.span, FoldKind::Block)] + stmts_folds(b.stmts@),
            None => seq![],
        },
        StmtKind::For { body, .. } => seq![fold_of(body.span, FoldKind::Block)] + stmts_folds(
            body.stmts@,
        ),
        StmtKind::While { body, .. } => seq![fold_of(body.span, FoldKind::Block)] + stmts_folds(
            body.stmts@,
        ),
        _ => seq![],
    }
}

/// The folds of a declaration: a disclosed node body from its name to its
/// end, then its members' folds; a record from its name to its end; nothing
/// for black boxes, unions and constants.
pub open spec fn decl_folds(d: Decl) -> Seq<FoldRange>
    decreases d,
{
    match d.kind {
        DeclKind::Person(n) => node_folds(n.body, n.name.span.start, d.span.end),
        DeclKind::System(n) => node_folds(n.body, n.name.span.start, d.span.end),
        DeclKind::Container(n) => node_folds(n.body, n.name.span.start, d.span.end),
        DeclKind::Component(n) => node_folds(n.body, n.name.span.start, d.span.end),
        DeclKind::Data(data) => if data.body is Record {
            seq![fold_of(Span { start: data.name.span.start, end: d.span.end }, FoldKind::Data)]
        } else {
            seq![]
        },
        DeclKind::Constant(_) => seq![],
    }
}

/// The folds of a node body spanning `start..end`.
pub open spec fn node_folds(body: Option<Vec<BodyMember>>, start: u32, end: u32) -> Seq<FoldRange>
    decreases body,
{
    match body {
        None => seq![],
        Some(members) => seq![fold_of(Span { start, end }, FoldKind::Node)] + members_folds(members@),
    }
}

/// The folds of body members, in order.
pub open spec fn members_folds(ms: Seq<BodyMember>) -> Seq<FoldRange>
    decreases ms,
{
    if ms.len() == 0 {
        seq![]
    } else {
        members_folds(ms.subrange(0, ms.len() - 1)) + member_folds(ms[ms.len() - 1])
    }
}

/// The folds of a body member: a nested declaration's, or a callable's
/// implementation block and the scopes inside it.
pub open spec fn member_folds(m: BodyMember) -> Seq<FoldRange>
    decreases m,
{
    match m {
        BodyMember::Decl(d) => decl_folds(d),
        BodyMember::Callable(c) => match c.body {
            Some(b) => seq![fold_of(b.span, FoldKind::Member)] + stmts_folds(b.stmts@),
            None => seq![],
        },
    }
}

/// The folds of a module's declarations, in order; features do not fold.
pub open spec fn items_folds(items: Seq<Item>) -> Seq<FoldRange>
    decreases items.len(),
{
    if items.len() == 0 {
        seq![]
    } else {
        items_folds(items.drop_last()) + match items.last() {
            Item::Decl(d) => decl_folds(d),
            Item::Feature(_) => seq![],
        }
    }
}

/// The statements up to `n` fold as those up to `n - 1`, then statement
/// `n - 1`.
proof fn lemma_stmts_step(ss: Seq<Stmt>, n: int)
    requires
        1 <= n <= ss.len(),
    ensures
        stmts_folds(ss.subrange(0, n)) == stmts_folds(ss.subrange(0, n - 1)) + stmt_folds(ss[n - 1]),
{
    let s = ss.subrange(0, n);
    assert(s.subrange(0, s.len() - 1) =~= ss.subrange(0, n - 1));
}

/// The members up to `n` fold as those up to `n - 1`, then member `n - 1`.
proof fn lemma_members_step(ms: Seq<BodyMember>, n: int)
    requires
        1 <= n <= ms.len(),
    ensures
        members_folds(ms.subrange(0, n)) == members_folds(ms.subrange(0, n - 1)) + member_folds(ms[n - 1]),
{
    let s = ms.subrange(0, n);
    assert(s.subrange(0, s.len() - 1) =~= ms.subrange(0, n - 1));
}

/// Appends the fold of `span` with `kind`.
fn push_fold(out: &mut Vec<FoldRange>, span: Span, kind: FoldKind)
    ensures
        final(out)@ == old(out)@.push(fold_of(span, kind)),
{
    out.push(FoldRange { start: span.start, end: span.end, kind });
}

/// Appends the folds of the control-flow blocks nested inside `block` (not
/// `block` itself, which its caller folds).
fn collect_nested_blocks(block: &Block, out: &mut Vec<FoldRange>)
    ensures
        final(out)@ == old(out)@ + stmts_folds(block.stmts@),
    decreases block,
{
    let ghost o0 = out@;
    let ghost ss = block.stmts@;
    let mut i: usize = 0;
    assert(ss.subrange(0, 0) =~= seq![]);
    assert(o0 + seq![] =~= o0);
    while i < block.stmts.len()
        invariant
            i <= ss.len(),
            ss == block.stmts@,
            out@ == o0 + stmts_folds(ss.subrange(0, i as int)),
        decreases ss.len() - i,
    {
        proof {
            lemma_stmts_step(ss, i + 1);
        }
        let ghost before = out@;
        let stmt = &block.stmts[i];
        proof {
            assert(decreases_to!(*block => block.stmts));
            assert(decreases_to!(block.stmts => block.stmts@));
            assert(decreases_to!(block.stmts@ => block.stmts@[i as int]));
            assert(decreases_to!(block.stmts@[i as int] => block.stmts@[i as int].kind));
        }
        match &stmt.kind {
            StmtKind::If { then_block, else_block, .. } => {
                push_fold(out, then_block.span, FoldKind::Block);
                collect_nested_blocks(then_block, out);
                match else_block {
                    Some(b) => {
                        push_fold(out, b.span, FoldKind::Block);
                        collect_nested_blocks(b, out);
                    },
                    None => {},
                }
            },
            StmtKind::For { body, .. } => {
                push_fold(out, body.span, FoldKind::Block);
                collect_nested_blocks(body, out);
            },
            StmtKind::While { body, .. } => {
                push_fold(out, body.span, FoldKind::Block);
                collect_nested_blocks(body, out);
            },
            _ => {},
        }
        assert(out@ =~= before + stmt_folds(ss[i as int]));
        assert(o0 + stmts_folds(ss.subrange(0, i + 1)) =~= before + stmt_folds(ss[i as int]));
        i = i + 1;
    }
    assert(ss.subrange(0, ss.len() as int) =~= ss);
}

/// Appends the folds of a declaration and the constructs nested in it.
fn collect_decl_spans(decl: &Decl, out: &mut Vec<FoldRange>)
    ensures
        final(out)@ == old(out)@ + decl_folds(*decl),
    decreases decl,
{
    let ghost o0 = out@;
    match &decl.kind {
        DeclKind::Person(node) | DeclKind::System(node) | DeclKind::Container(node)
        | DeclKind::Component(node) => {
            let body = match &node.body {
                Some(b) => b,
                None => {
                    assert(o0 + seq![] =~= o0);
                    return;
                },
            };
            proof {
                if decl.kind is Person {
                    assert(decreases_to!(decl.kind => decl.kind->Person_0));
                } else if decl.kind is System {
                    assert(decreases_to!(decl.kind => decl.kind->System_0));
                } else if decl.kind is Container {
                    assert(decreases_to!(decl.kind => decl.kind->Container_0));
                } else {
                    assert(decreases_to!(decl.kind => decl.kind->Component_0));
                }
                assert(decreases_to!(*node => node.body));
                assert(decreases_to!(node.body => node.body->0));
                assert(decreases_to!(*decl => *body));
            }
            push_fold(out, Span { start: node.name.span.start, end: decl.span.end }, FoldKind::Node);
            let ghost ms = body@;
            let ghost o1 = out@;
            let mut i: usize = 0;
            assert(ms.subrange(0, 0) =~= seq![]);
            assert(o1 + seq![] =~= o1);
            while i < body.len()
                invariant
                    i <= ms.len(),
                    ms == body@,
                    node.body == Some(*body),
                    decreases_to!(*decl => *body),
                    out@ == o1 + members_folds(ms.subrange(0, i as int)),
                decreases ms.len() - i,
            {
                proof {
                    lemma_members_step(ms, i + 1);
                }
                let ghost before = out@;
                match &body[i] {
                    BodyMember::Decl(inner) => {
                        proof {
                            assert(decreases_to!(*body => body@));
                            assert(decreases_to!(body@ => body@[i as int]));
                            assert(decreases_to!(body@[i as int] => *inner));
                        }
                        collect_decl_spans(inner, out);
                    },
                    BodyMember::Callable(callable) => {
                        match &callable.body {
                            Some(block) => {
                                push_fold(out, block.span, FoldKind::Member);
                                collect_nested_blocks(block, out);
                            },
                            None => {},
                        }
                    },
                }
                assert(out@ =~= before + member_folds(ms[i as int]));
                assert(o1 + members_folds(ms.subrange(0, i + 1)) =~= before + member_folds(ms[i as int]));
                i = i + 1;
            }
            assert(ms.subrange(0, ms.len() as int) =~= ms);
            assert(o0 + decl_folds(*decl) =~= o1 + members_folds(ms));
        },
        DeclKind::Data(data) => {
            if let DataBody::Record(_) = &data.body {
                push_fold(out, Span { start: data.name.span.start, end: decl.span.end }, FoldKind::Data);
            } else {
                assert(o0 + seq![] =~= o0);
            }
        },
        DeclKind::Constant(_) => {
            assert(o0 + seq![] =~= o0);
        },
    }
}

/// Every fold in `fs` starts and ends within the first `n` bytes.
pub open spec fn folds_within(fs: Seq<FoldRange>, n: int) -> bool {
    forall|k: int| 0 <= k < fs.len() ==> (#[trigger] fs[k]).start <= n && fs[k].end <= n
}

proof fn lemma_concat_within(a: Seq<FoldRange>, b: Seq<FoldRange>, n: int)
    requires
        folds_within(a, n),
        folds_within(b, n),
    ensures
        folds_within(a + b, n),
{
    assert forall|k: int| 0 <= k < (a + b).len() implies (#[trigger] (a + b)[k]).start <= n && (a + b)[k].end
        <= n by {
        if k < a.len() {
            assert((a + b)[k] == a[k]);
        } else {
            assert((a + b)[k] == b[k - a.len()]);
        }
    }
}

/// The folds of statements whose blocks lie within `n` bytes lie there too.
proof fn lemma_stmts_within(ss: Seq<Stmt>, n: int)
    requires
        forall|i: int| 0 <= i < ss.len() ==> stmt_kind_within(#[trigger] ss[i].kind, n),
    ensures
        folds_within(stmts_folds(ss), n),
    decreases ss,
{
    if ss.len() > 0 {
        let init = ss.subrange(0, ss.len() - 1);
        assert forall|i: int| 0 <= i < init.len() implies stmt_kind_within(#[trigger] init[i].kind, n) by {
            assert(init[i] == ss[i]);
        }
        lemma_stmts_within(init, n);
        lemma_stmt_within(ss[ss.len() - 1], n);
        lemma_concat_within(stmts_folds(init), stmt_folds(ss[ss.len() - 1]), n);
    }
}

proof fn lemma_stmt_within(s: Stmt, n: int)
    requires
        stmt_kind_within(s.kind, n),
    ensures
        folds_within(stmt_folds(s), n),
    decreases s,
{
    match s.kind {
        StmtKind::If { then_block, else_block, .. } => {
            lemma_stmts_within(then_block.stmts@, n);
            let head = seq![fold_of(then_block.span, FoldKind::Block)];
            lemma_concat_within(head, stmts_folds(then_block.stmts@), n);
            match else_block {
                Some(e) => {
                    lemma_stmts_within(e.stmts@, n);
                    lemma_concat_within(seq![fold_of(e.span, FoldKind::Block)], stmts_folds(e.stmts@), n);
                    lemma_concat_within(
                        head + stmts_folds(then_block.stmts@),
                        seq![fold_of(e.span, FoldKind::Block)] + stmts_folds(e.stmts@),
                        n,
                    );
                },
                None => {
                    lemma_concat_within(head + stmts_folds(then_block.stmts@), seq![], n);
                },
            }
        },
        StmtKind::For { body, .. } => {
            lemma_stmts_within(body.stmts@, n);
            lemma_concat_within(seq![fold_of(body.span, FoldKind::Block)], stmts_folds(body.stmts@), n);
        },
        StmtKind::While { body, .. } => {
            lemma_stmts_within(body.stmts@, n);
            lemma_concat_within(seq![fold_of(body.span, FoldKind::Block)], stmts_folds(body.stmts@), n);
        },
        _ => {},
    }
}

/// The folds of a declaration lying within `n` bytes lie there too.
proof fn lemma_decl_within(d: Decl, n: int)
    requires
        decl_within(d, n),
    ensures
        folds_within(decl_folds(d), n),
    decreases d,
{
    match d.kind {
        DeclKind::Person(nd) => lemma_node_within(nd.body, nd.name.span.start, d.span.end, n),
        DeclKind::System(nd) => lemma_node_within(nd.body, nd.name.span.start, d.span.end, n),
        DeclKind::Container(nd) => lemma_node_within(nd.body, nd.name.span.start, d.span.end, n),
        DeclKind::Component(nd) => lemma_node_within(nd.body, nd.name.span.start, d.span.end, n),
        _ => {},
    }
}

proof fn lemma_node_within(body: Option<Vec<BodyMember>>, start: u32, end: u32, n: int)
    requires
        start <= n,
        end <= n,
        body matches Some(ms) ==> forall|i: int| 0 <= i < ms@.len() ==> member_within(#[trigger] ms@[i], n),
    ensures
        folds_within(node_folds(body, start, end), n),
    decreases body,
{
    match body {
        Some(ms) => {
            lemma_members_within(ms@, n);
            lemma_concat_within(seq![fold_of(Span { start, end }, FoldKind::Node)], members_folds(ms@), n);
        },
        None => {},
    }
}

proof fn lemma_members_within(ms: Seq<BodyMember>, n: int)
    requires
        forall|i: int| 0 <= i < ms.len() ==> member_within(#[trigger] ms[i], n),
    ensures
        folds_within(members_folds(ms), n),
    decreases ms,
{
    if ms.len() > 0 {
        let init = ms.subrange(0, ms.len() - 1);
        assert forall|i: int| 0 <= i < init.len() implies member_within(#[trigger] init[i], n) by {
            assert(init[i] == ms[i]);
        }
        lemma_members_within(init, n);
        let last = ms[ms.len() - 1];
        match last {
            BodyMember::Decl(d) => lemma_decl_within(d, n),
            BodyMember::Callable(c) => match c.body {
                Some(b) => {
                    lemma_stmts_within(b.stmts@, n);
                    lemma_concat_within(seq![fold_of(b.span, FoldKind::Member)], stmts_folds(b.stmts@), n);
                },
                None => {},
            },
        }
        lemma_concat_within(members_folds(init), member_folds(last), n);
    }
}

/// The folds of items lying within `n` bytes lie there too.
pub proof fn lemma_items_within(items: Seq<Item>, n: int)
    requires
        forall|i: int| 0 <= i < items.len() ==> item_within(#[trigger] items[i], n),
    ensures
        folds_within(items_folds(items), n),
    decreases items.len(),
{
    if items.len() > 0 {
        let init = items.drop_last();
        assert forall|i: int| 0 <= i < init.len() implies item_within(#[trigger] init[i], n) by {
            assert(init[i] == items[i]);
        }
        lemma_items_within(init, n);
        let last = items.last();
        assert(item_within(items[items.len() - 1], n));
        match last {
            Item::Decl(d) => {
                lemma_decl_within(d, n);
                lemma_concat_within(items_folds(init), decl_folds(d), n);
            },
            Item::Feature(_) => {
                lemma_concat_within(items_folds(init), seq![], n);
            },
        }
    }
}

/// The foldable regions of a parsed module: every disclosed declaration
/// and statement block, in source order of the walk.
pub fn folds_of_module(module: &Module) -> (out: Vec<FoldRange>)
    ensures
        out@ == items_folds(module.items@),
{
    let mut out: Vec<FoldRange> = Vec::new();
    let ghost items = module.items@;
    let mut i: usize = 0;
    assert(items.subrange(0, 0) =~= seq![]);
    while i < module.items.len()
        invariant
            i <= items.len(),
            items == module.items@,
            out@ == items_folds(items.subrange(0, i as int)),
        decreases items.len() - i,
    {
        let ghost pre = items.subrange(0, i + 1);
        assert(pre.drop_last() =~= items.subrange(0, i as int));
        match &module.items[i] {
            Item::Decl(decl) => collect_decl_spans(decl, &mut out),
            Item::Feature(_) => {
                assert(out@ + seq![] =~= out@);
            },
        }
        i = i + 1;
    }
    assert(items.subrange(0, items.len() as int) =~= items);
    out
}

/// The foldable regions of `src`: every multi-line declaration and
/// statement block of the module it parses to, each lying within the source.
pub fn folding_ranges(src: &str) -> (out: Vec<FoldRange>)
    requires
        src.spec_bytes().len() < u32::MAX,
    ensures
        exists|m: Module| parsed_from(src.spec_bytes(), m) && out@ == items_folds(m.items@),
        folds_within(out@, src.spec_bytes().len() as int),
{
    let module = parse(src).ast;
    let out = folds_of_module(&module);
    proof {
        lemma_items_within(module.items@, src.spec_bytes().len() as int);
    }
    out
}

} // verus!
