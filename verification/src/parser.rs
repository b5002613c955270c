//! Recursive-descent parser for the PseudoScript grammar.
//!
//! The parser never panics and always terminates: on unexpected input it
//! records a diagnostic, resynchronises to the next statement or declaration
//! boundary, and continues. The result always carries a (possibly partial)
//! module.

use crate::ast::{
    BinOp, Block, BodyMember, Callable, Constant, Data, DataBody, Decl, DeclKind, DocBlock, Expr,
    ExprKind, Feature, FeatureStep, Field, FromSource, Ident, InnerDoc, Item, Literal, Macro,
    MacroArg, MacroArgs, MarkerKind, Module, Node, NodeKind, Param, Path, PostfixSeg, Ref,
    StepKind, Stmt, StmtKind, Tag, Type, UnaryOp, Variant, bin_op_spelling, item_span, step_kind_of,
};
use crate::diagnostic::{Diagnostic, Severity};
use crate::lexer::{
    Lexed, SpannedTrivia, TokFour, lex, lex_tokens, punct_one, punct_two, tok_fours, tokens_wf, trivia_wf,
};
use crate::span::Span;
use crate::token::{Token, TokenKind, is_keyword_kind};
use vstd::prelude::*;
use vstd::string::{StringExecFns, StringSliceAdditionalSpecFns};

verus! {

/// The output of [`parse`]: the syntax tree and any diagnostics.
#[derive(Debug)]
pub struct Parsed {
    /// The parsed module (partial if there were errors).
    pub ast: Module,
    /// Diagnostics produced while parsing.
    pub diagnostics: Vec<Diagnostic>,
}

/// A parser diagnostic: an error whose span lies within a source of `len`
/// bytes.
pub open spec fn parse_diag_ok(d: Diagnostic, len: int) -> bool {
    d.severity == Severity::Error && d.span.start <= len && d.span.end <= len
}

/// What is known of the syntax tree `ast` parsed from source bytes `src`:
/// the module span runs from the first lexeme (or the end of an empty
/// source) to within the source; every item, with each name, path, type,
/// macro, expression and statement block in it, lies within the source (see
/// [`item_within`]); each leading `//!` lexeme gives an inner
/// doc with its text; a declaration keyword or `feature` right after them
/// opens the first item, of the kind the keyword names; a first node's
/// name and body follow its head (see [`node_head_ok`]); and when the
/// lexemes after the `//!` lines are all plain declarations (nodes that
/// end in `;` or hold only black-box callables, plain `data` and
/// constants, each after optional `///` lines and `public`), the items are
/// exactly those declarations (see [`plain_items`]).
pub open spec fn parsed_from(src: Seq<u8>, ast: Module) -> bool {
    let t4 = lex_tokens(src);
    let q = inner_run_end(t4, 0);
    &&& ast.span.start <= ast.span.end <= src.len()
    &&& forall|i: int| 0 <= i < ast.items@.len() ==> item_within(#[trigger] ast.items@[i], src.len() as int)
    &&& ast.span.start == if t4.len() > 0 {
        t4[0].1
    } else {
        src.len() as int
    }
    &&& ast.inner_docs@.len() >= q
    &&& forall|i: int| 0 <= i < q ==> (#[trigger] ast.inner_docs@[i]).text@ == t4[i].3
    &&& q < t4.len() && decl_keyword(t4[q].0) ==> ast.items@.len() > 0 && (ast.items@[0] matches Item::Decl(d)
        && kind_for_keyword(d.kind, t4[q].0))
    &&& q < t4.len() && t4[q].0 == TokenKind::KwFeature ==> ast.items@.len() > 0 && ast.items@[0] is Feature
    &&& plain_run(t4, q) ==> plain_items(t4, q, ast.items@, t4.len() as int)
    &&& q < t4.len() && decl_keyword(t4[q].0) ==> (ast.items@[0] matches Item::Decl(d) && decl_head_ok(
        t4,
        q,
        d.kind,
        true,
    ))
}

/// A span lies within the first `n` bytes.
pub open spec fn span_within(s: Span, n: int) -> bool {
    s.start <= n && s.end <= n
}

/// Each segment of a path lies within the first `n` bytes.
pub open spec fn path_within(p: Path, n: int) -> bool {
    forall|i: int| 0 <= i < p.segments@.len() ==> span_within(#[trigger] p.segments@[i].span, n)
}

/// A type's path, and those of its generic arguments, lie within the first
/// `n` bytes.
pub open spec fn type_within(t: Type, n: int) -> bool
    decreases t,
{
    path_within(t.name, n) && forall|i: int|
        0 <= i < t.generics@.len() ==> type_within(#[trigger] t.generics@[i], n)
}

/// The names, paths and types of an expression and of its operands lie
/// within the first `n` bytes.
pub open spec fn expr_within(e: Expr, n: int) -> bool
    decreases e,
{
    match e.kind {
        ExprKind::Marker { payload, .. } => match payload {
            Some(p) => expr_within(*p, n),
            None => true,
        },
        ExprKind::From { ty, source } => type_within(ty, n) && match source {
            FromSource::Compose(v) => forall|i: int| 0 <= i < v@.len() ==> expr_within(#[trigger] v@[i], n),
            FromSource::Convert(b) => expr_within(*b, n),
        },
        ExprKind::Postfix { base, segments } => expr_within(*base, n) && forall|i: int|
            0 <= i < segments@.len() ==> seg_within(#[trigger] segments@[i], n),
        ExprKind::OwnCall { name, args } => span_within(name.span, n) && forall|i: int|
            0 <= i < args@.len() ==> expr_within(#[trigger] args@[i], n),
        ExprKind::Ref(Ref::Path(p)) => path_within(p, n),
        ExprKind::Unary { expr, .. } => expr_within(*expr, n),
        ExprKind::Binary { left, right, .. } => expr_within(*left, n) && expr_within(*right, n),
        ExprKind::Paren(inner) => expr_within(*inner, n),
        _ => true,
    }
}

/// A postfix segment's name and call arguments lie within the first `n`
/// bytes.
pub open spec fn seg_within(g: PostfixSeg, n: int) -> bool
    decreases g,
{
    span_within(g.name.span, n) && match g.call_args {
        Some(a) => forall|i: int| 0 <= i < a@.len() ==> expr_within(#[trigger] a@[i], n),
        None => true,
    }
}

/// A statement block's span, and the names, expressions and blocks of its
/// statements, lie within the first `n` bytes.
pub open spec fn block_within(b: Block, n: int) -> bool
    decreases b,
{
    &&& b.span.start <= n
    &&& b.span.end <= n
    &&& forall|i: int| 0 <= i < b.stmts@.len() ==> stmt_kind_within(#[trigger] b.stmts@[i].kind, n)
}

/// The names, expressions and blocks of a statement of kind `k` lie within
/// the first `n` bytes.
pub open spec fn stmt_kind_within(k: StmtKind, n: int) -> bool
    decreases k,
{
    match k {
        StmtKind::Assign { name, value } => span_within(name.span, n) && expr_within(value, n),
        StmtKind::Return(v) => match v {
            Some(e) => expr_within(e, n),
            None => true,
        },
        StmtKind::If { cond, then_block, else_block } => expr_within(cond, n) && block_within(then_block, n)
            && match else_block {
            Some(e) => block_within(e, n),
            None => true,
        },
        StmtKind::For { binding, iter, body } => span_within(binding.span, n) && expr_within(iter, n)
            && block_within(body, n),
        StmtKind::While { cond, body } => expr_within(cond, n) && block_within(body, n),
        StmtKind::Expr(e) => expr_within(e, n),
    }
}

/// Each field's name and type lie within the first `n` bytes.
pub open spec fn fields_within(fs: Seq<Field>, n: int) -> bool {
    forall|i: int| 0 <= i < fs.len() ==> span_within((#[trigger] fs[i]).name.span, n) && type_within(fs[i].ty, n)
}

/// Each variant's name and record fields lie within the first `n` bytes.
pub open spec fn variants_within(vs: Seq<Variant>, n: int) -> bool {
    forall|i: int|
        0 <= i < vs.len() ==> span_within((#[trigger] vs[i]).name.span, n) && match vs[i].record {
            Some(fs) => fields_within(fs@, n),
            None => true,
        }
}

/// Each macro invocation lies within the first `n` bytes.
pub open spec fn macros_within(ms: Seq<Macro>, n: int) -> bool {
    forall|i: int| 0 <= i < ms.len() ==> span_within((#[trigger] ms[i]).span, n)
}

/// A callable's macros, name, parameters, return type and block lie within
/// the first `n` bytes.
pub open spec fn callable_within(c: Callable, n: int) -> bool {
    &&& macros_within(c.macros@, n)
    &&& span_within(c.name.span, n)
    &&& forall|i: int|
        0 <= i < c.params@.len() ==> span_within((#[trigger] c.params@[i]).name.span, n) && type_within(
            c.params@[i].ty,
            n,
        )
    &&& match c.return_ty {
        Some(t) => type_within(t, n),
        None => true,
    }
    &&& match c.body {
        Some(b) => block_within(b, n),
        None => true,
    }
}

/// A declaration ends within the first `n` bytes, and so do its macros and
/// everything named or nested in it.
pub open spec fn decl_within(d: Decl, n: int) -> bool
    decreases d,
{
    d.span.end <= n && macros_within(d.macros@, n) && decl_kind_within(d.kind, n)
}

/// The names and nested members of a declaration payload lie within the
/// first `n` bytes.
pub open spec fn decl_kind_within(k: DeclKind, n: int) -> bool
    decreases k,
{
    match k {
        DeclKind::Person(nd) => node_within(nd, n),
        DeclKind::System(nd) => node_within(nd, n),
        DeclKind::Container(nd) => node_within(nd, n),
        DeclKind::Component(nd) => node_within(nd, n),
        DeclKind::Data(data) => span_within(data.name.span, n) && match data.body {
            DataBody::Record(fs) => fields_within(fs@, n),
            DataBody::Union(vs) => variants_within(vs@, n),
            DataBody::BlackBox => true,
        },
        DeclKind::Constant(c) => span_within(c.name.span, n),
    }
}

/// A node's name, parent path and body members lie within the first `n`
/// bytes.
pub open spec fn node_within(nd: Node, n: int) -> bool
    decreases nd,
{
    &&& span_within(nd.name.span, n)
    &&& match nd.parent {
        Some(p) => path_within(p, n),
        None => true,
    }
    &&& match nd.body {
        Some(ms) => forall|i: int| 0 <= i < ms@.len() ==> member_within(#[trigger] ms@[i], n),
        None => true,
    }
}

/// A body member lies within the first `n` bytes.
pub open spec fn member_within(m: BodyMember, n: int) -> bool
    decreases m,
{
    match m {
        BodyMember::Decl(d) => decl_within(d, n),
        BodyMember::Callable(c) => callable_within(c, n),
    }
}

/// A module item, with everything named or nested in it, lies within the
/// first `n` bytes.
pub open spec fn item_within(it: Item, n: int) -> bool {
    match it {
        Item::Decl(d) => decl_within(d, n),
        Item::Feature(f) => span_within(f.name.span, n) && path_within(f.target, n),
    }
}

/// Parses `src` into a module, recovering from errors. Parsing always
/// terminates without panicking; every diagnostic it reports is an error
/// located inside the source, and the module span lies inside the source.
pub fn parse(src: &str) -> (p: Parsed)
    requires
        src.spec_bytes().len() < u32::MAX,
    ensures
        forall|i: int|
            0 <= i < p.diagnostics@.len() ==> parse_diag_ok(
                #[trigger] p.diagnostics@[i],
                src.spec_bytes().len() as int,
            ),
        parsed_from(src.spec_bytes(), p.ast),
        diags_owed(src.spec_bytes(), p.ast, p.diagnostics@.len() as int),
{
    let lexed = lex(src);
    let mut parser = Parser::new(src, lexed);
    let ast = parser.parse_module();
    proof {
        let t4 = lex_tokens(src.spec_bytes());
        assert forall|i: int| 0 <= i < inner_run_end(t4, 0) implies (#[trigger] ast.inner_docs@[i]).text@ == t4[i].3 by {
            assert(ast.inner_docs@[i - 0] == ast.inner_docs@[i]);
        }
    }
    Parsed { ast, diagnostics: parser.diagnostics }
}

struct Parser {
    tokens: Vec<Token>,
    trivia: Vec<SpannedTrivia>,
    pos: usize,
    trivia_pos: usize,
    diagnostics: Vec<Diagnostic>,
    eof_span: Span,
}

/// The flow phase reached while parsing a feature body. `and`/`but`
/// continue the current phase without advancing it.
#[derive(Clone, Copy, PartialEq, Eq, Structural)]
enum FeaturePhase {
    Start,
    Given,
    When,
    Then,
}

/// The binary operator a token denotes at a precedence level (1 = `* / %`,
/// up to 6 = `||`).
/// The operator a token of `kind` spells at precedence `level` (6 for
/// `||` down to 1 for `*`, `/`, `%`), if any.
pub open spec fn level_op(level: u8, kind: TokenKind) -> Option<BinOp> {
    if level == 6 {
        if kind == TokenKind::PipePipe { Some(BinOp::Or) } else { None }
    } else if level == 5 {
        if kind == TokenKind::AmpAmp { Some(BinOp::And) } else { None }
    } else if level == 4 {
        if kind == TokenKind::EqEq {
            Some(BinOp::Eq)
        } else if kind == TokenKind::BangEq {
            Some(BinOp::Ne)
        } else {
            None
        }
    } else if level == 3 {
        if kind == TokenKind::LAngle {
            Some(BinOp::Lt)
        } else if kind == TokenKind::RAngle {
            Some(BinOp::Gt)
        } else if kind == TokenKind::LAngleEq {
            Some(BinOp::Le)
        } else if kind == TokenKind::RAngleEq {
            Some(BinOp::Ge)
        } else {
            None
        }
    } else if level == 2 {
        if kind == TokenKind::Plus {
            Some(BinOp::Add)
        } else if kind == TokenKind::Minus {
            Some(BinOp::Sub)
        } else {
            None
        }
    } else if kind == TokenKind::Star {
        Some(BinOp::Mul)
    } else if kind == TokenKind::Slash {
        Some(BinOp::Div)
    } else if kind == TokenKind::Percent {
        Some(BinOp::Rem)
    } else {
        None
    }
}

/// Every binary operator is the one its token spells: whenever a
/// one-byte punctuation `b`, a two-byte punctuation `b c`, or a lone `/`
/// (a `Slash`) is an operator at some precedence level, that operator's
/// spelling is exactly those bytes. So `-` gives subtraction and `+`
/// addition, and no token stands for another token's operator.
pub proof fn law_binary_op_spelled(level: u8, b: u8, c: u8)
    ensures
        punct_one(b) matches Some(k) ==> (level_op(level, k) matches Some(op) ==> bin_op_spelling(op)@ == seq![
            b as char,
        ]),
        punct_two(b, c) matches Some(k) ==> (level_op(level, k) matches Some(op) ==> bin_op_spelling(op)@ == seq![
            b as char,
            c as char,
        ]),
        level_op(level, TokenKind::Slash) matches Some(op) ==> bin_op_spelling(op)@ == seq![47u8 as char],
{
    reveal_strlit("+");
    reveal_strlit("-");
    reveal_strlit("*");
    reveal_strlit("/");
    reveal_strlit("%");
    reveal_strlit("==");
    reveal_strlit("!=");
    reveal_strlit("<");
    reveal_strlit(">");
    reveal_strlit("<=");
    reveal_strlit(">=");
    reveal_strlit("&&");
    reveal_strlit("||");
}

/// Each binary operator on the operator tree of `e` (through the operands
/// of its binary nodes) is the operator, at some precedence level, of the
/// token found at its operator span.
pub open spec fn ops_spelled(e: Expr, ts: Seq<Token>) -> bool
    decreases e,
{
    match e.kind {
        ExprKind::Binary { left, op, op_span, right } => (exists|i: int, lv: u8|
            #![trigger level_op(lv, ts[i].kind)]
            0 <= i < ts.len() && 1 <= lv <= 6 && ts[i].span == op_span && level_op(lv, ts[i].kind) == Some(op))
            && ops_spelled(*left, ts) && ops_spelled(*right, ts),
        _ => true,
    }
}

fn binary_op(level: u8, kind: TokenKind) -> (r: Option<BinOp>)
    ensures
        r == level_op(level, kind),
{
    if level == 6 {
        if kind == TokenKind::PipePipe { Some(BinOp::Or) } else { None }
    } else if level == 5 {
        if kind == TokenKind::AmpAmp { Some(BinOp::And) } else { None }
    } else if level == 4 {
        if kind == TokenKind::EqEq {
            Some(BinOp::Eq)
        } else if kind == TokenKind::BangEq {
            Some(BinOp::Ne)
        } else {
            None
        }
    } else if level == 3 {
        if kind == TokenKind::LAngle {
            Some(BinOp::Lt)
        } else if kind == TokenKind::RAngle {
            Some(BinOp::Gt)
        } else if kind == TokenKind::LAngleEq {
            Some(BinOp::Le)
        } else if kind == TokenKind::RAngleEq {
            Some(BinOp::Ge)
        } else {
            None
        }
    } else if level == 2 {
        if kind == TokenKind::Plus {
            Some(BinOp::Add)
        } else if kind == TokenKind::Minus {
            Some(BinOp::Sub)
        } else {
            None
        }
    } else if kind == TokenKind::Star {
        Some(BinOp::Mul)
    } else if kind == TokenKind::Slash {
        Some(BinOp::Div)
    } else if kind == TokenKind::Percent {
        Some(BinOp::Rem)
    } else {
        None
    }
}

/// Whether a token of kind `k` can begin an expression.
spec fn starts_expr_kind(k: TokenKind) -> bool {
    k == TokenKind::KwOk || k == TokenKind::KwErr || k == TokenKind::KwSome || k == TokenKind::KwNone || k
        == TokenKind::KwSelf || k == TokenKind::Ident || k == TokenKind::String || k == TokenKind::Number || k
        == TokenKind::KwTrue || k == TokenKind::KwFalse || k == TokenKind::Bang || k == TokenKind::Minus || k
        == TokenKind::LParen
}

/// The index after the `(:: Ident)*` run from `i`, or `-1` when a `::` is
/// not followed by an identifier.
spec fn path_tail_end(ts: Seq<Token>, i: int) -> int
    decreases ts.len() - i,
{
    if 0 <= i < ts.len() && ts[i].kind == TokenKind::ColonColon {
        if i + 1 < ts.len() && ts[i + 1].kind == TokenKind::Ident {
            path_tail_end(ts, i + 2)
        } else {
            -1
        }
    } else {
        i
    }
}

/// The index after the `>` that closes a `<…>` list at nesting `depth`,
/// scanning from `i`, or `-1` when input ends first or a token that cannot
/// appear in type arguments comes.
spec fn generics_end(ts: Seq<Token>, i: int, depth: int) -> int
    decreases ts.len() - i,
{
    if i < 0 || i >= ts.len() {
        -1
    } else {
        let k = ts[i].kind;
        if k == TokenKind::LAngle {
            generics_end(ts, i + 1, depth + 1)
        } else if k == TokenKind::RAngle {
            if depth <= 1 {
                i + 1
            } else {
                generics_end(ts, i + 1, depth - 1)
            }
        } else if k == TokenKind::Ident || k == TokenKind::ColonColon || k == TokenKind::Comma || k
            == TokenKind::LBracket || k == TokenKind::RBracket {
            generics_end(ts, i + 1, depth)
        } else {
            -1
        }
    }
}

/// Whether the tokens from `p` begin a `Type from …` head: a type path,
/// optional `<…>` generics and `[]` suffix, then `from`.
spec fn from_head_at(ts: Seq<Token>, p: int) -> bool {
    let a = path_tail_end(ts, p + 1);
    let b = if 0 <= a < ts.len() && ts[a].kind == TokenKind::LAngle {
        generics_end(ts, a + 1, 1)
    } else {
        a
    };
    let c = if 0 <= b && b + 1 < ts.len() && ts[b].kind == TokenKind::LBracket && ts[b + 1].kind == TokenKind::RBracket {
        b + 2
    } else {
        b
    };
    &&& 0 <= p < ts.len()
    &&& ts[p].kind == TokenKind::Ident
    &&& a >= 0
    &&& b >= 0
    &&& 0 <= c < ts.len()
    &&& ts[c].kind == TokenKind::KwFrom
}

/// The index of the first token from `i` on that is neither a `///` line
/// nor a tag.
spec fn doc_run_end(ts: Seq<Token>, i: int) -> int
    decreases ts.len() - i,
{
    if 0 <= i < ts.len() && (ts[i].kind == TokenKind::Doc || ts[i].kind == TokenKind::Tag) {
        doc_run_end(ts, i + 1)
    } else {
        i
    }
}

/// A doc block being read: summary lines, extended lines, tags, whether
/// the extended section has begun, whether a summary line was seen.
type DocState = (Seq<Seq<char>>, Seq<Seq<char>>, Seq<(Seq<char>, Span)>, bool, bool);

/// The doc block read from a run of `///` lines and tags: a blank line
/// after the first summary line starts the extended section.
spec fn doc_fold(ts: Seq<Token>) -> DocState
    decreases ts.len(),
{
    if ts.len() == 0 {
        (seq![], seq![], seq![], false, false)
    } else {
        let st = doc_fold(ts.drop_last());
        let t = ts.last();
        if t.kind == TokenKind::Doc {
            if t.text@.len() == 0 {
                (st.0, st.1, st.2, st.3 || st.4, st.4)
            } else if st.3 {
                (st.0, st.1.push(t.text@), st.2, st.3, st.4)
            } else {
                (st.0.push(t.text@), st.1, st.2, st.3, true)
            }
        } else {
            (st.0, st.1, st.2.push((t.text@, t.span)), st.3, st.4)
        }
    }
}

/// The plain views of tags.
spec fn tag_views(ts: Seq<Tag>) -> Seq<(Seq<char>, Span)> {
    ts.map_values(|t: Tag| (t.text@, t.span))
}

/// The texts of strings.
spec fn texts(ss: Seq<String>) -> Seq<Seq<char>> {
    ss.map_values(|s: String| s@)
}

/// Whether a token of kind `k` begins a top-level declaration.
spec fn item_boundary(k: TokenKind) -> bool {
    k == TokenKind::KwPublic || k == TokenKind::KwPerson || k == TokenKind::KwSystem || k == TokenKind::KwContainer
        || k == TokenKind::KwComponent || k == TokenKind::KwData || k == TokenKind::KwConstant || k
        == TokenKind::KwFeature || k == TokenKind::Doc || k == TokenKind::HashLBracket
}

/// The index of the first token from `i` on that begins a top-level
/// declaration, or the end of input.
spec fn next_item_at(ts: Seq<Token>, i: int) -> int
    decreases ts.len() - i,
{
    if 0 <= i < ts.len() && !item_boundary(ts[i].kind) {
        next_item_at(ts, i + 1)
    } else {
        i
    }
}

/// The index of the `}` closing the brace set open at nesting `depth`
/// (counting `{` and `}` from `i`), or the end of input.
spec fn set_close_at(ts: Seq<Token>, i: int, depth: int) -> int
    decreases ts.len() - i,
{
    if i < 0 || i >= ts.len() {
        i
    } else if ts[i].kind == TokenKind::LBrace {
        set_close_at(ts, i + 1, depth + 1)
    } else if ts[i].kind == TokenKind::RBrace {
        if depth == 0 {
            i
        } else {
            set_close_at(ts, i + 1, depth - 1)
        }
    } else {
        set_close_at(ts, i + 1, depth)
    }
}

/// The scan stops at the end of input or at a `}`.
proof fn lemma_set_close(ts: Seq<Token>, i: int, depth: int)
    requires
        0 <= i,
    ensures
        set_close_at(ts, i, depth) >= ts.len() || ts[set_close_at(ts, i, depth)].kind == TokenKind::RBrace,
        set_close_at(ts, i, depth) >= i,
    decreases ts.len() - i,
{
    if i < ts.len() {
        if ts[i].kind == TokenKind::LBrace {
            lemma_set_close(ts, i + 1, depth + 1);
        } else if ts[i].kind == TokenKind::RBrace {
            if depth != 0 {
                lemma_set_close(ts, i + 1, depth - 1);
            }
        } else {
            lemma_set_close(ts, i + 1, depth);
        }
    }
}

/// The precedence level of a binary operator: `*` `/` `%` bind tightest
/// (1), `||` loosest (6).
spec fn op_level(op: BinOp) -> int {
    match op {
        BinOp::Mul | BinOp::Div | BinOp::Rem => 1,
        BinOp::Add | BinOp::Sub => 2,
        BinOp::Lt | BinOp::Gt | BinOp::Le | BinOp::Ge => 3,
        BinOp::Eq | BinOp::Ne => 4,
        BinOp::And => 5,
        BinOp::Or => 6,
    }
}

/// The expression's top node is a binary operator of level at most `level`
/// if it is a binary operator at all.
spec fn binds_within(e: Expr, level: int) -> bool {
    e.kind matches ExprKind::Binary { op, .. } ==> op_level(op) <= level
}

/// Whether a token of kind `k` is a binary operator.
spec fn is_binary_op_kind(k: TokenKind) -> bool {
    k == TokenKind::PipePipe || k == TokenKind::AmpAmp || k == TokenKind::EqEq || k == TokenKind::BangEq || k
        == TokenKind::LAngle || k == TokenKind::RAngle || k == TokenKind::LAngleEq || k == TokenKind::RAngleEq || k
        == TokenKind::Plus || k == TokenKind::Minus || k == TokenKind::Star || k == TokenKind::Slash || k
        == TokenKind::Percent
}

/// The literal a token spells, if it is one.
spec fn literal_of_token(t: Token) -> Option<Literal> {
    if t.kind == TokenKind::String {
        Some(Literal::String { raw: t.text, span: t.span })
    } else if t.kind == TokenKind::Number {
        Some(Literal::Number { raw: t.text, span: t.span })
    } else if t.kind == TokenKind::KwTrue {
        Some(Literal::Bool { value: true, span: t.span })
    } else if t.kind == TokenKind::KwFalse {
        Some(Literal::Bool { value: false, span: t.span })
    } else {
        None
    }
}

/// Whether `l` is the empty string literal at `span`.
spec fn is_empty_string_lit(l: Literal, span: Span) -> bool {
    match l {
        Literal::String { raw, span: sp } => raw@.len() == 0 && sp == span,
        _ => false,
    }
}

/// The error for a node declaration with neither a body nor a `;`.
spec fn missing_body_message(kind: NodeKind) -> Seq<char> {
    match kind {
        NodeKind::Person => "person declaration with neither a `{ }` block nor a terminating `;`"@,
        NodeKind::System => "system declaration with neither a `{ }` block nor a terminating `;`"@,
        NodeKind::Container => "container declaration with neither a `{ }` block nor a terminating `;`"@,
        NodeKind::Component => "component declaration with neither a `{ }` block nor a terminating `;`"@,
    }
}

/// The index of the first token from `i` on that is not a `//!` line.
pub open spec fn inner_run_end(ts: Seq<TokFour>, i: int) -> int
    decreases ts.len() - i,
{
    if 0 <= i < ts.len() && ts[i].0 == TokenKind::InnerDoc {
        inner_run_end(ts, i + 1)
    } else {
        i
    }
}

/// Whether a token of kind `k` begins a declaration.
pub open spec fn decl_keyword(k: TokenKind) -> bool {
    k == TokenKind::KwPerson || k == TokenKind::KwSystem || k == TokenKind::KwContainer || k == TokenKind::KwComponent
        || k == TokenKind::KwData || k == TokenKind::KwConstant
}

/// The run of `//!` lexemes from `i` ends at a lexeme that is not one.
proof fn lemma_inner_run_end(ts: Seq<TokFour>, i: int)
    requires
        0 <= i,
    ensures
        i <= inner_run_end(ts, i),
        inner_run_end(ts, i) < ts.len() ==> ts[inner_run_end(ts, i)].0 != TokenKind::InnerDoc,
    decreases ts.len() - i,
{
    if 0 <= i < ts.len() && ts[i].0 == TokenKind::InnerDoc {
        lemma_inner_run_end(ts, i + 1);
    }
}

/// Whether a token of kind `k` can open a top-level item: a doc line or
/// tag, a macro, `public`, `feature`, or a declaration keyword.
pub open spec fn item_start(k: TokenKind) -> bool {
    k == TokenKind::Doc || k == TokenKind::Tag || k == TokenKind::HashLBracket || k == TokenKind::KwPublic
        || k == TokenKind::KwFeature || decl_keyword(k)
}

/// Whether the parse of a source with lexemes `t4` owes a diagnostic: the
/// first lexeme after the leading `//!` lines cannot open an item.
pub open spec fn owes_diagnostic(t4: Seq<TokFour>) -> bool {
    let q = inner_run_end(t4, 0);
    q < t4.len() && !item_start(t4[q].0)
}

/// The diagnostics a parse of `src` into `ast` owes, given that it reports
/// `n`: at least one when the first lexeme after the `//!` lines cannot
/// open an item, when lexemes follow those lines but no item was parsed,
/// and when the head of a first node declaration is malformed (see
/// [`node_head_ok`]); none when the lexemes after the `//!` lines are all
/// plain declarations (see [`plain_run`]).
pub open spec fn diags_owed(src: Seq<u8>, ast: Module, n: int) -> bool {
    let t4 = lex_tokens(src);
    &&& owes_diagnostic(t4) ==> n > 0
    &&& plain_run(t4, inner_run_end(t4, 0)) ==> n == 0
    &&& inner_run_end(t4, 0) < t4.len() && ast.items@.len() == 0 ==> n > 0
    &&& inner_run_end(t4, 0) < t4.len() && decl_keyword(t4[inner_run_end(t4, 0)].0) ==> (ast.items@[0] matches Item::Decl(
        d,
    ) && decl_head_ok(t4, inner_run_end(t4, 0), d.kind, n > 0))
}

/// The index just past a path whose first segment is the identifier at
/// `i`: each `::` followed by an identifier extends it.
pub open spec fn path_end(t: Seq<TokFour>, i: int) -> int
    decreases t.len() - i,
{
    if 0 <= i && i + 2 < t.len() && t[i + 1].0 == TokenKind::ColonColon && t[i + 2].0 == TokenKind::Ident {
        path_end(t, i + 2)
    } else {
        i + 1
    }
}

/// The segments `segs` and span `span` are those of the path whose first
/// identifier is at `i`: one segment per identifier, each with its text and
/// span.
pub open spec fn path_segs_ok(t: Seq<TokFour>, i: int, segs: Seq<Ident>, span: Span) -> bool {
    let e = path_end(t, i);
    &&& 2 * segs.len() == e - i + 1
    &&& span.start == t[i].1 && span.end == t[e - 1].2
    &&& forall|j: int|
        0 <= j < segs.len() ==> (#[trigger] segs[j]).name@ == t[i + 2 * j].3 && segs[j].span.start == t[i
            + 2 * j].1 && segs[j].span.end == t[i + 2 * j].2
}

/// The index past a plain type whose path starts at `i`: a path with no
/// generic arguments, `[]` or `?` after it; `None` otherwise.
pub open spec fn plain_type_end(t: Seq<TokFour>, i: int) -> Option<int> {
    if 0 <= i < t.len() && t[i].0 == TokenKind::Ident {
        let e = path_end(t, i);
        if e >= t.len() || (t[e].0 != TokenKind::ColonColon && t[e].0 != TokenKind::LAngle && t[e].0
            != TokenKind::LBracket && t[e].0 != TokenKind::Question) {
            Some(e)
        } else {
            None
        }
    } else {
        None
    }
}

/// The type parsed from the plain type at `i`: its path, without generic
/// arguments or array suffix.
pub open spec fn plain_type_ok(t: Seq<TokFour>, i: int, ty: Type) -> bool {
    &&& path_segs_ok(t, i, ty.name.segments@, ty.name.span)
    &&& ty.generics@.len() == 0
    &&& !ty.is_array
}

/// The index after the record field `name: Type` at `j` (and its `,`),
/// for a plain type; `None` otherwise.
pub open spec fn field_next(t: Seq<TokFour>, j: int) -> Option<int> {
    if 0 <= j && j + 1 < t.len() && t[j].0 == TokenKind::Ident && t[j + 1].0 == TokenKind::Colon {
        match plain_type_end(t, j + 2) {
            Some(e) => Some(if e < t.len() && t[e].0 == TokenKind::Comma { e + 1 } else { e }),
            None => None,
        }
    } else {
        None
    }
}

/// The field parsed from the record field at `j`.
pub open spec fn field_ok(t: Seq<TokFour>, j: int, f: Field) -> bool {
    &&& f.name.name@ == t[j].3 && f.name.span.start == t[j].1 && f.name.span.end == t[j].2
    &&& plain_type_ok(t, j + 2, f.ty)
}

/// The index past the `}` closing a record body whose fields start at
/// `j`, each `name: Type` with a plain type; `None` otherwise.
pub open spec fn record_end(t: Seq<TokFour>, j: int) -> Option<int>
    decreases t.len() - j,
{
    if 0 <= j < t.len() && t[j].0 == TokenKind::RBrace {
        Some(j + 1)
    } else {
        match field_next(t, j) {
            Some(n) => if j < n <= t.len() {
                record_end(t, n)
            } else {
                None
            },
            None => None,
        }
    }
}

/// The fields `fs` are those of the record fields from `j` to `end`.
pub open spec fn fields_from(t: Seq<TokFour>, j: int, fs: Seq<Field>, end: int) -> bool
    decreases fs.len(),
{
    if fs.len() == 0 {
        j == end
    } else {
        &&& field_next(t, j) matches Some(n)
        &&& field_ok(t, j, fs[0])
        &&& fields_from(t, n, fs.drop_first(), end)
    }
}

/// One more field extends a run of parsed fields.
proof fn lemma_fields_push(t: Seq<TokFour>, j: int, fs: Seq<Field>, pos: int, f: Field, n: int)
    requires
        fields_from(t, j, fs, pos),
        field_next(t, pos) == Some(n),
        field_ok(t, pos, f),
    ensures
        fields_from(t, j, fs.push(f), n),
    decreases fs.len(),
{
    let s = fs.push(f);
    if fs.len() == 0 {
        assert(s.drop_first() =~= seq![]);
        assert(s[0] == f);
        assert(fields_from(t, n, s.drop_first(), n));
    } else {
        let n0 = field_next(t, j)->0;
        lemma_fields_push(t, n0, fs.drop_first(), pos, f, n);
        assert(s.drop_first() =~= fs.drop_first().push(f));
        assert(s[0] == fs[0]);
    }
}

/// The index where a run of bare union variants `| Name` from `j` stops.
pub open spec fn union_end(t: Seq<TokFour>, j: int) -> int
    decreases t.len() - j,
{
    if 0 <= j && j + 1 < t.len() && t[j].0 == TokenKind::Pipe && t[j + 1].0 == TokenKind::Ident && !(j + 2
        < t.len() && t[j + 2].0 == TokenKind::LBrace) {
        union_end(t, j + 2)
    } else {
        j
    }
}

/// The variants `vs` are those of the bare union variants from `j` to
/// `end`: each the name after a `|`, without a record.
pub open spec fn variants_from(t: Seq<TokFour>, j: int, vs: Seq<Variant>, end: int) -> bool
    decreases vs.len(),
{
    if vs.len() == 0 {
        j == end
    } else {
        &&& vs[0].name.name@ == t[j + 1].3 && vs[0].name.span.start == t[j + 1].1 && vs[0].name.span.end
            == t[j + 1].2
        &&& vs[0].record is None
        &&& variants_from(t, j + 2, vs.drop_first(), end)
    }
}

/// One more variant extends a run of parsed variants.
proof fn lemma_variants_push(t: Seq<TokFour>, j: int, vs: Seq<Variant>, pos: int, v: Variant)
    requires
        variants_from(t, j, vs, pos),
        v.name.name@ == t[pos + 1].3 && v.name.span.start == t[pos + 1].1 && v.name.span.end == t[pos + 1].2,
        v.record is None,
    ensures
        variants_from(t, j, vs.push(v), pos + 2),
    decreases vs.len(),
{
    let s = vs.push(v);
    if vs.len() == 0 {
        assert(s.drop_first() =~= seq![]);
        assert(s[0] == v);
        assert(variants_from(t, pos + 2, s.drop_first(), pos + 2));
    } else {
        lemma_variants_push(t, j + 2, vs.drop_first(), pos, v);
        assert(s.drop_first() =~= vs.drop_first().push(v));
        assert(s[0] == vs[0]);
    }
}

/// Where the `data` declaration whose keyword is at `k` ends, when it is
/// `data Name ;`, a record of plain-typed fields, or a union of bare
/// variants; `None` otherwise.
pub open spec fn data_end(t: Seq<TokFour>, k: int) -> Option<int> {
    if 0 <= k && k + 2 < t.len() && t[k].0 == TokenKind::KwData && t[k + 1].0 == TokenKind::Ident {
        if t[k + 2].0 == TokenKind::Semi {
            Some(k + 3)
        } else if t[k + 2].0 == TokenKind::LBrace {
            record_end(t, k + 3)
        } else if t[k + 2].0 == TokenKind::Eq {
            let u = union_end(t, k + 3);
            if u >= t.len() || t[u].0 != TokenKind::Pipe {
                Some(u)
            } else {
                None
            }
        } else {
            None
        }
    } else {
        None
    }
}

/// The `data` declaration parsed from the one whose keyword is at `k`: its
/// name, span and body are the lexemes'.
pub open spec fn data_ok(t: Seq<TokFour>, k: int, d: Data) -> bool {
    &&& data_end(t, k) matches Some(q) && d.span.start == t[k].1 && d.span.end == t[q - 1].2
    &&& d.name.name@ == t[k + 1].3 && d.name.span.start == t[k + 1].1 && d.name.span.end == t[k + 1].2
    &&& t[k + 2].0 == TokenKind::Semi ==> d.body is BlackBox
    &&& t[k + 2].0 == TokenKind::LBrace ==> (d.body matches DataBody::Record(fs) && fields_from(
        t,
        k + 3,
        fs@,
        data_end(t, k)->0 - 1,
    ))
    &&& t[k + 2].0 == TokenKind::Eq ==> (d.body matches DataBody::Union(vs) && variants_from(
        t,
        k + 3,
        vs@,
        data_end(t, k)->0,
    ))
}

/// Where the `constant` declaration whose keyword is at `k` ends, when it
/// is `constant NAME = literal`; `None` otherwise.
pub open spec fn constant_end(t: Seq<TokFour>, k: int) -> Option<int> {
    if 0 <= k && k + 3 < t.len() && t[k].0 == TokenKind::KwConstant && t[k + 1].0 == TokenKind::Ident && t[k
        + 2].0 == TokenKind::Eq && (t[k + 3].0 == TokenKind::String || t[k + 3].0 == TokenKind::Number || t[k
        + 3].0 == TokenKind::KwTrue || t[k + 3].0 == TokenKind::KwFalse) {
        Some(k + 4)
    } else {
        None
    }
}

/// The literal read from the lexeme at `i`: its text and span, or the
/// truth value of `true`/`false`.
pub open spec fn literal_ok(t: Seq<TokFour>, i: int, l: Literal) -> bool {
    match l {
        Literal::String { raw, span } => t[i].0 == TokenKind::String && raw@ == t[i].3 && span.start == t[i].1
            && span.end == t[i].2,
        Literal::Number { raw, span } => t[i].0 == TokenKind::Number && raw@ == t[i].3 && span.start == t[i].1
            && span.end == t[i].2,
        Literal::Bool { value, span } => (t[i].0 == TokenKind::KwTrue || t[i].0 == TokenKind::KwFalse) && value
            == (t[i].0 == TokenKind::KwTrue) && span.start == t[i].1 && span.end == t[i].2,
    }
}

/// The constant parsed from the `constant` declaration whose keyword is at
/// `k`: its name, value and span are the lexemes'.
pub open spec fn constant_ok(t: Seq<TokFour>, k: int, c: Constant) -> bool {
    &&& c.name.name@ == t[k + 1].3 && c.name.span.start == t[k + 1].1 && c.name.span.end == t[k + 1].2
    &&& literal_ok(t, k + 3, c.value)
    &&& c.span.start == t[k].1 && c.span.end == t[k + 3].2
}

/// The index past a run of `///` lines and tags from `i`.
pub open spec fn doc_end(t: Seq<TokFour>, i: int) -> int
    decreases t.len() - i,
{
    if 0 <= i < t.len() && (t[i].0 == TokenKind::Doc || t[i].0 == TokenKind::Tag) {
        doc_end(t, i + 1)
    } else {
        i
    }
}

/// The index where the parameter list starting at `j` stops: at its `)`,
/// after parameters `name: Type` of plain types separated by `,`; `None`
/// otherwise.
pub open spec fn params_end(t: Seq<TokFour>, j: int) -> Option<int>
    decreases t.len() - j,
{
    if 0 <= j < t.len() && t[j].0 == TokenKind::RParen {
        Some(j)
    } else if 0 <= j && j + 1 < t.len() && t[j].0 == TokenKind::Ident && t[j + 1].0 == TokenKind::Colon {
        match plain_type_end(t, j + 2) {
            Some(e) => if e < t.len() && t[e].0 == TokenKind::Comma && j < e + 1 <= t.len() {
                params_end(t, e + 1)
            } else {
                Some(e)
            },
            None => None,
        }
    } else {
        None
    }
}

/// The parameter parsed from `name: Type` at `j`.
pub open spec fn param_ok(t: Seq<TokFour>, j: int, p: Param) -> bool {
    &&& p.name.name@ == t[j].3 && p.name.span.start == t[j].1 && p.name.span.end == t[j].2
    &&& plain_type_ok(t, j + 2, p.ty)
}

/// The parameters `ps` are those from `j` to `end`.
pub open spec fn params_from(t: Seq<TokFour>, j: int, ps: Seq<Param>, end: int) -> bool
    decreases ps.len(),
{
    if ps.len() == 0 {
        j == end
    } else {
        &&& field_next(t, j) matches Some(n)
        &&& param_ok(t, j, ps[0])
        &&& params_from(t, n, ps.drop_first(), end)
    }
}

/// One more parameter extends a run of parsed parameters.
proof fn lemma_params_push(t: Seq<TokFour>, j: int, ps: Seq<Param>, pos: int, p: Param, n: int)
    requires
        params_from(t, j, ps, pos),
        field_next(t, pos) == Some(n),
        param_ok(t, pos, p),
    ensures
        params_from(t, j, ps.push(p), n),
    decreases ps.len(),
{
    let s = ps.push(p);
    if ps.len() == 0 {
        assert(s.drop_first() =~= seq![]);
        assert(s[0] == p);
        assert(params_from(t, n, s.drop_first(), n));
    } else {
        let n0 = field_next(t, j)->0;
        lemma_params_push(t, n0, ps.drop_first(), pos, p, n);
        assert(s.drop_first() =~= ps.drop_first().push(p));
        assert(s[0] == ps[0]);
    }
}

/// Where the black-box callable `name(params): Type;` whose name is at `a`
/// ends, for plain types; `None` otherwise.
pub open spec fn callable_end(t: Seq<TokFour>, a: int) -> Option<int> {
    if 0 <= a && a + 1 < t.len() && t[a].0 == TokenKind::Ident && t[a + 1].0 == TokenKind::LParen {
        match params_end(t, a + 2) {
            Some(r) => if r + 1 < t.len() && t[r].0 == TokenKind::RParen && t[r + 1].0 == TokenKind::Colon {
                match plain_type_end(t, r + 2) {
                    Some(e) => if e < t.len() && t[e].0 == TokenKind::Semi {
                        Some(e + 1)
                    } else {
                        None
                    },
                    None => None,
                }
            } else {
                None
            },
            None => None,
        }
    } else {
        None
    }
}

/// The callable parsed from the black-box callable whose name is at `a`:
/// its name, parameters and return type are the lexemes', with no body.
pub open spec fn callable_ok(t: Seq<TokFour>, a: int, c: Callable) -> bool {
    let r = params_end(t, a + 2)->0;
    &&& c.name.name@ == t[a].3 && c.name.span.start == t[a].1 && c.name.span.end == t[a].2
    &&& params_from(t, a + 2, c.params@, r)
    &&& c.return_ty matches Some(ty) && plain_type_ok(t, r + 2, ty)
    &&& c.body is None
}

/// The member parsed from the black-box callable starting at `j` (after
/// its `///` lines and an optional `public`).
pub open spec fn member_ok(t: Seq<TokFour>, j: int, m: BodyMember) -> bool {
    &&& m matches BodyMember::Callable(c)
    &&& c.is_public == (t[doc_end(t, j)].0 == TokenKind::KwPublic)
    &&& c.macros@.len() == 0
    &&& callable_ok(t, keyword_at(t, j), c)
}

/// The index past the `}` closing a node body whose members start at `j`,
/// each a black-box callable; `None` otherwise.
pub open spec fn body_end(t: Seq<TokFour>, j: int) -> Option<int>
    decreases t.len() - j,
{
    if 0 <= j < t.len() && t[j].0 == TokenKind::RBrace {
        Some(j + 1)
    } else {
        match callable_end(t, keyword_at(t, j)) {
            Some(n) => if j < n <= t.len() {
                body_end(t, n)
            } else {
                None
            },
            None => None,
        }
    }
}

/// The members `ms` are those of the black-box callables from `j` to `end`.
pub open spec fn members_from(t: Seq<TokFour>, j: int, ms: Seq<BodyMember>, end: int) -> bool
    decreases ms.len(),
{
    if ms.len() == 0 {
        j == end
    } else {
        &&& callable_end(t, keyword_at(t, j)) matches Some(n)
        &&& member_ok(t, j, ms[0])
        &&& members_from(t, n, ms.drop_first(), end)
    }
}

/// One more member extends a run of parsed members.
proof fn lemma_members_push(t: Seq<TokFour>, j: int, ms: Seq<BodyMember>, pos: int, m: BodyMember, n: int)
    requires
        members_from(t, j, ms, pos),
        callable_end(t, keyword_at(t, pos)) == Some(n),
        member_ok(t, pos, m),
    ensures
        members_from(t, j, ms.push(m), n),
    decreases ms.len(),
{
    let s = ms.push(m);
    if ms.len() == 0 {
        assert(s.drop_first() =~= seq![]);
        assert(s[0] == m);
        assert(members_from(t, n, s.drop_first(), n));
    } else {
        let n0 = callable_end(t, keyword_at(t, j))->0;
        lemma_members_push(t, n0, ms.drop_first(), pos, m, n);
        assert(s.drop_first() =~= ms.drop_first().push(m));
        assert(s[0] == ms[0]);
    }
}

/// Where the head of the node declaration whose keyword is at `k` ends (at
/// its `;` or `{`): after the name, and for a `container` or `component`
/// after `for` and a path.
pub open spec fn node_head_end(t: Seq<TokFour>, k: int) -> Option<int> {
    if 0 <= k && k + 1 < t.len() && t[k + 1].0 == TokenKind::Ident {
        if t[k].0 == TokenKind::KwPerson || t[k].0 == TokenKind::KwSystem {
            Some(k + 2)
        } else if (t[k].0 == TokenKind::KwContainer || t[k].0 == TokenKind::KwComponent) && k + 3 < t.len() && t[k
            + 2].0 == TokenKind::KwFor && t[k + 3].0 == TokenKind::Ident {
            Some(path_end(t, k + 3))
        } else {
            None
        }
    } else {
        None
    }
}

/// The run of `///` lines read from the tokens is the one over their
/// lexemes.
proof fn lemma_doc_end(ts: Seq<Token>, i: int)
    requires
        0 <= i,
    ensures
        doc_run_end(ts, i) == doc_end(tok_fours(ts), i),
        doc_run_end(ts, i) >= i,
    decreases ts.len() - i,
{
    if i < ts.len() {
        assert(tok_fours(ts)[i].0 == ts[i].kind);
        if ts[i].kind == TokenKind::Doc || ts[i].kind == TokenKind::Tag {
            lemma_doc_end(ts, i + 1);
        }
    }
}

/// Where the plain declaration whose keyword is at `k` ends: a `data`
/// declaration (see [`data_end`]), a `constant` (see [`constant_end`]), or
/// a node whose head (see [`node_head_end`]) is followed by `;` or by a
/// body of black-box callables (see [`body_end`]). `None` when the lexemes
/// from `k` are not such a declaration.
pub open spec fn plain_decl_end(t: Seq<TokFour>, k: int) -> Option<int> {
    if 0 <= k < t.len() && t[k].0 == TokenKind::KwData {
        data_end(t, k)
    } else if 0 <= k < t.len() && t[k].0 == TokenKind::KwConstant {
        constant_end(t, k)
    } else {
        match node_head_end(t, k) {
            Some(h) => if h < t.len() && t[h].0 == TokenKind::Semi {
                Some(h + 1)
            } else if h < t.len() && t[h].0 == TokenKind::LBrace {
                body_end(t, h + 1)
            } else {
                None
            },
            None => None,
        }
    }
}

/// The node parsed from the plain node declaration whose keyword is at
/// `k`: its name, span and parent path are those lexemes', and its body is
/// none after `;`, or the callables of its `{ }` block.
pub open spec fn plain_node_ok(t: Seq<TokFour>, k: int, n: Node) -> bool {
    let plain = t[k].0 == TokenKind::KwPerson || t[k].0 == TokenKind::KwSystem;
    &&& plain_decl_end(t, k) matches Some(q) && n.span.start == t[k].1 && n.span.end == t[q - 1].2
    &&& n.name.name@ == t[k + 1].3 && n.name.span.start == t[k + 1].1 && n.name.span.end == t[k + 1].2
    &&& node_head_end(t, k) matches Some(h) && (t[h].0 == TokenKind::Semi ==> n.body is None) && (t[h].0
        == TokenKind::LBrace ==> (n.body matches Some(ms) && members_from(t, h + 1, ms@, plain_decl_end(t, k)->0
        - 1)))
    &&& plain ==> n.parent is None
    &&& !plain ==> (n.parent matches Some(pp) && path_segs_ok(t, k + 3, pp.segments@, pp.span))
}

/// The keyword of a declaration starting at `p`, after its `///` lines
/// and an optional `public`.
pub open spec fn keyword_at(t: Seq<TokFour>, p: int) -> int {
    let a = doc_end(t, p);
    if 0 <= a < t.len() && t[a].0 == TokenKind::KwPublic {
        a + 1
    } else {
        a
    }
}

/// The item parsed from the plain declaration starting at `p`: its
/// visibility, kind, payload and end are the lexemes', with no macros.
pub open spec fn plain_item_ok(t: Seq<TokFour>, p: int, it: Item) -> bool {
    let k = keyword_at(t, p);
    &&& it matches Item::Decl(d)
    &&& d.is_public == (t[doc_end(t, p)].0 == TokenKind::KwPublic)
    &&& d.macros@.len() == 0
    &&& plain_decl_end(t, k) matches Some(q) && d.span.end == t[q - 1].2
    &&& plain_kind_ok(t, k, d.kind)
}

/// The declaration payload parsed from the plain declaration whose keyword
/// is at `k`: the node or `data` of that keyword's kind.
pub open spec fn plain_kind_ok(t: Seq<TokFour>, k: int, dk: DeclKind) -> bool {
    match dk {
        DeclKind::Person(n) => t[k].0 == TokenKind::KwPerson && plain_node_ok(t, k, n),
        DeclKind::System(n) => t[k].0 == TokenKind::KwSystem && plain_node_ok(t, k, n),
        DeclKind::Container(n) => t[k].0 == TokenKind::KwContainer && plain_node_ok(t, k, n),
        DeclKind::Component(n) => t[k].0 == TokenKind::KwComponent && plain_node_ok(t, k, n),
        DeclKind::Data(d) => t[k].0 == TokenKind::KwData && data_ok(t, k, d),
        DeclKind::Constant(c) => t[k].0 == TokenKind::KwConstant && constant_ok(t, k, c),
    }
}

/// The keyword that introduces a node of kind `k`.
pub open spec fn node_keyword(k: NodeKind) -> TokenKind {
    match k {
        NodeKind::Person => TokenKind::KwPerson,
        NodeKind::System => TokenKind::KwSystem,
        NodeKind::Container => TokenKind::KwContainer,
        NodeKind::Component => TokenKind::KwComponent,
    }
}

/// Whether the lexemes from `p` are a run of plain declarations (see
/// [`plain_decl_end`]), each optionally `public`.
pub open spec fn plain_run(t: Seq<TokFour>, p: int) -> bool
    decreases t.len() - p,
{
    if p >= t.len() {
        true
    } else {
        match plain_decl_end(t, keyword_at(t, p)) {
            Some(q) => p < q <= t.len() && plain_run(t, q),
            None => false,
        }
    }
}

/// The items `items` are those parsed from the plain declarations that
/// run from `p` to `end`, in order.
pub open spec fn plain_items(t: Seq<TokFour>, p: int, items: Seq<Item>, end: int) -> bool
    decreases items.len(),
{
    if items.len() == 0 {
        p == end
    } else {
        &&& plain_decl_end(t, keyword_at(t, p)) matches Some(q)
        &&& plain_item_ok(t, p, items[0])
        &&& plain_items(t, q, items.drop_first(), end)
    }
}

/// One more declaration extends a run of parsed plain items.
proof fn lemma_plain_push(t: Seq<TokFour>, p: int, items: Seq<Item>, pos: int, it: Item, q: int)
    requires
        plain_items(t, p, items, pos),
        plain_decl_end(t, keyword_at(t, pos)) == Some(q),
        plain_item_ok(t, pos, it),
    ensures
        plain_items(t, p, items.push(it), q),
    decreases items.len(),
{
    let s = items.push(it);
    if items.len() == 0 {
        assert(s.drop_first() =~= seq![]);
        assert(s[0] == it);
        assert(plain_items(t, q, s.drop_first(), q));
    } else {
        let q0 = plain_decl_end(t, keyword_at(t, p))->0;
        lemma_plain_push(t, q0, items.drop_first(), pos, it, q);
        assert(s.drop_first() =~= items.drop_first().push(it));
        assert(s[0] == items[0]);
    }
}

/// What the head of a node declaration at token `p` of `t` fixes: the
/// name is the identifier after the keyword (a diagnostic, `reported`,
/// when there is none); a container or component without `for` after its
/// name is reported; a person or system whose name is followed by `{` has a
/// body, by `;` has none, and by anything else is reported.
pub open spec fn node_head_ok(t: Seq<TokFour>, p: int, kind: NodeKind, n: Node, reported: bool) -> bool {
    let named = p + 1 < t.len() && t[p + 1].0 == TokenKind::Ident;
    let plain = kind == NodeKind::Person || kind == NodeKind::System;
    &&& named ==> n.name.name@ == t[p + 1].3
    &&& !named ==> reported
    &&& !plain && !(named && p + 2 < t.len() && t[p + 2].0 == TokenKind::KwFor) ==> reported
    &&& plain && named && p + 2 < t.len() && t[p + 2].0 == TokenKind::LBrace ==> n.body is Some
    &&& plain && named && p + 2 < t.len() && t[p + 2].0 == TokenKind::Semi ==> n.body is None
    &&& plain && named && !(p + 2 < t.len() && (t[p + 2].0 == TokenKind::LBrace || t[p + 2].0
        == TokenKind::Semi)) ==> reported
}

/// What the head of a `data` declaration at token `p` of `t` fixes: the
/// name is the identifier after the keyword (`reported` when there is
/// none); after the name, `{` opens a record, `=` a union, `;` makes a
/// black box, and anything else is reported.
pub open spec fn data_head_ok(t: Seq<TokFour>, p: int, d: Data, reported: bool) -> bool {
    let named = p + 1 < t.len() && t[p + 1].0 == TokenKind::Ident;
    let next = if p + 2 < t.len() { Some(t[p + 2].0) } else { None };
    &&& named ==> d.name.name@ == t[p + 1].3
    &&& !named ==> reported
    &&& named && next == Some(TokenKind::LBrace) ==> d.body is Record
    &&& named && next == Some(TokenKind::Eq) ==> d.body is Union
    &&& named && next == Some(TokenKind::Semi) ==> d.body is BlackBox
    &&& named && next != Some(TokenKind::LBrace) && next != Some(TokenKind::Eq) && next != Some(TokenKind::Semi)
        ==> reported
}

/// What a `constant` declaration at token `p` of `t` fixes: its name is
/// the identifier after the keyword, `=` follows, and the value is the
/// literal after it, of the lexeme's kind; each missing part is reported.
pub open spec fn constant_head_ok(t: Seq<TokFour>, p: int, c: Constant, reported: bool) -> bool {
    let named = p + 1 < t.len() && t[p + 1].0 == TokenKind::Ident;
    let eq = named && p + 2 < t.len() && t[p + 2].0 == TokenKind::Eq;
    let v = if eq && p + 3 < t.len() { Some(t[p + 3].0) } else { None };
    &&& named ==> c.name.name@ == t[p + 1].3
    &&& !named ==> reported
    &&& named && !eq ==> reported
    &&& eq && v == Some(TokenKind::String) ==> c.value is String
    &&& eq && v == Some(TokenKind::Number) ==> c.value is Number
    &&& eq && (v == Some(TokenKind::KwTrue) || v == Some(TokenKind::KwFalse)) ==> c.value is Bool
    &&& eq && !(v == Some(TokenKind::String) || v == Some(TokenKind::Number) || v == Some(TokenKind::KwTrue) || v
        == Some(TokenKind::KwFalse)) ==> reported
}

/// [`node_head_ok`] for the node a declaration kind introduces, and
/// [`data_head_ok`] for a `data` and [`constant_head_ok`] for a
/// `constant`.
pub open spec fn decl_head_ok(t: Seq<TokFour>, p: int, d: DeclKind, reported: bool) -> bool {
    match d {
        DeclKind::Person(n) => node_head_ok(t, p, NodeKind::Person, n, reported),
        DeclKind::System(n) => node_head_ok(t, p, NodeKind::System, n, reported),
        DeclKind::Container(n) => node_head_ok(t, p, NodeKind::Container, n, reported),
        DeclKind::Component(n) => node_head_ok(t, p, NodeKind::Component, n, reported),
        DeclKind::Data(d) => data_head_ok(t, p, d, reported),
        DeclKind::Constant(c) => constant_head_ok(t, p, c, reported),
    }
}

/// Whether a declaration kind is the one keyword `k` introduces.
pub open spec fn kind_for_keyword(d: DeclKind, k: TokenKind) -> bool {
    match d {
        DeclKind::Person(_) => k == TokenKind::KwPerson,
        DeclKind::System(_) => k == TokenKind::KwSystem,
        DeclKind::Container(_) => k == TokenKind::KwContainer,
        DeclKind::Component(_) => k == TokenKind::KwComponent,
        DeclKind::Data(_) => k == TokenKind::KwData,
        DeclKind::Constant(_) => k == TokenKind::KwConstant,
    }
}

/// `a` followed by `b`.
fn concat2(a: &str, b: &str) -> (s: String)
    ensures
        s@ == a@ + b@,
{
    let mut s = String::from_str(a);
    s.append(b);
    s
}

/// `a`, `b` and `c` in sequence.
fn concat3(a: &str, b: &str, c: &str) -> (s: String)
    ensures
        s@ == a@ + b@ + c@,
{
    let mut s = String::from_str(a);
    s.append(b);
    s.append(c);
    s
}

impl Parser {
    spec fn inv(&self) -> bool {
        &&& self.pos <= self.tokens@.len()
        &&& self.trivia_pos <= self.trivia@.len()
        &&& self.eof_span.start == self.eof_span.end
        &&& forall|i: int|
            0 <= i < self.tokens@.len() ==> (#[trigger] self.tokens@[i]).span.start
                < self.tokens@[i].span.end <= self.eof_span.end
        &&& forall|i: int|
            0 <= i < self.trivia@.len() ==> (#[trigger] self.trivia@[i]).span.start
                < self.trivia@[i].span.end <= self.eof_span.end
        &&& forall|i: int|
            0 <= i < self.diagnostics@.len() ==> parse_diag_ok(
                #[trigger] self.diagnostics@[i],
                self.eof_span.end as int,
            )
    }

    /// `self` is a valid state reached from `o` without going backwards.
    spec fn advanced(&self, o: Parser) -> bool {
        &&& self.inv()
        &&& self.tokens@ == o.tokens@
        &&& self.trivia@ == o.trivia@
        &&& self.eof_span == o.eof_span
        &&& o.pos <= self.pos
        &&& o.diagnostics@.len() <= self.diagnostics@.len()
    }

    spec fn kind_at(&self, i: int) -> Option<TokenKind> {
        if 0 <= i < self.tokens@.len() {
            Some(self.tokens@[i].kind)
        } else {
            None
        }
    }

    spec fn cur_kind(&self) -> Option<TokenKind> {
        self.kind_at(self.pos as int)
    }

    spec fn cur_span_spec(&self) -> Span {
        if self.pos < self.tokens@.len() {
            self.tokens@[self.pos as int].span
        } else {
            self.eof_span
        }
    }

    spec fn span_ok(&self, s: Span) -> bool {
        s.start <= self.eof_span.end && s.end <= self.eof_span.end
    }

    spec fn tokens_left(&self) -> int {
        self.tokens@.len() - self.pos
    }

    fn new(src: &str, lexed: Lexed) -> (p: Parser)
        requires
            src.spec_bytes().len() < u32::MAX,
            tokens_wf(lexed.tokens@, src.spec_bytes()),
            trivia_wf(lexed.trivia@, src.spec_bytes()),
        ensures
            p.inv(),
            p.pos == 0,
            p.eof_span.end == src.spec_bytes().len(),
            p.tokens@ == lexed.tokens@,
            p.diagnostics@.len() == 0,
    {
        let end = src.len() as u32;
        let p = Parser {
            tokens: lexed.tokens,
            trivia: lexed.trivia,
            pos: 0,
            trivia_pos: 0,
            diagnostics: Vec::new(),
            eof_span: Span::new(end, end),
        };
        assert(forall|i: int|
            0 <= i < p.tokens@.len() ==> crate::lexer::token_wf(#[trigger] p.tokens@[i], src.spec_bytes()));
        p
    }

    // --- token cursor -----------------------------------------------------
    fn peek_kind(&self) -> (r: Option<TokenKind>)
        requires
            self.inv(),
        ensures
            r == self.cur_kind(),
    {
        if self.pos < self.tokens.len() {
            Some(self.tokens[self.pos].kind)
        } else {
            None
        }
    }

    fn peek2_kind(&self) -> (r: Option<TokenKind>)
        requires
            self.inv(),
        ensures
            r == self.kind_at(self.pos + 1),
    {
        if self.pos < self.tokens.len() && self.pos + 1 < self.tokens.len() {
            Some(self.tokens[self.pos + 1].kind)
        } else {
            None
        }
    }

    fn at(&self, kind: TokenKind) -> (r: bool)
        requires
            self.inv(),
        ensures
            r == (self.cur_kind() == Some(kind)),
    {
        match self.peek_kind() {
            Some(k) => k == kind,
            None => false,
        }
    }

    fn is_eof(&self) -> (r: bool)
        ensures
            r == (self.pos >= self.tokens@.len()),
    {
        self.pos >= self.tokens.len()
    }

    fn bump(&mut self) -> (r: Option<Token>)
        requires
            old(self).inv(),
        ensures
            final(self).advanced(*old(self)),
            final(self).diagnostics@ == old(self).diagnostics@,
            final(self).trivia_pos == old(self).trivia_pos,
            old(self).pos < old(self).tokens@.len() ==> r == Some(old(self).tokens@[old(self).pos as int])
                && final(self).pos == old(self).pos + 1,
            old(self).pos >= old(self).tokens@.len() ==> r.is_none() && final(self).pos
                == old(self).pos,
    {
        if self.pos < self.tokens.len() {
            let t = self.tokens[self.pos].clone();
            self.pos = self.pos + 1;
            Some(t)
        } else {
            None
        }
    }

    /// Consumes `kind` if present, returning its token.
    fn eat(&mut self, kind: TokenKind) -> (r: Option<Token>)
        requires
            old(self).inv(),
        ensures
            final(self).advanced(*old(self)),
            final(self).diagnostics@ == old(self).diagnostics@,
            final(self).trivia_pos == old(self).trivia_pos,
            old(self).cur_kind() == Some(kind) ==> r == Some(old(self).tokens@[old(self).pos as int])
                && final(self).pos == old(self).pos + 1,
            old(self).cur_kind() != Some(kind) ==> r.is_none() && final(self).pos == old(self).pos,
    {
        if self.at(kind) {
            self.bump()
        } else {
            None
        }
    }

    /// The span of the current token, or end-of-input.
    fn cur_span(&self) -> (s: Span)
        requires
            self.inv(),
        ensures
            self.span_ok(s),
            self.pos < self.tokens@.len() ==> s == self.tokens@[self.pos as int].span,
            s == self.cur_span_spec(),
    {
        if self.pos < self.tokens.len() {
            self.tokens[self.pos].span
        } else {
            self.eof_span
        }
    }

    fn error(&mut self, span: Span, message: &str)
        requires
            old(self).inv(),
            old(self).span_ok(span),
        ensures
            final(self).advanced(*old(self)),
            final(self).pos == old(self).pos,
            final(self).trivia_pos == old(self).trivia_pos,
            final(self).diagnostics@.len() == old(self).diagnostics@.len() + 1,
            final(self).diagnostics@.take(old(self).diagnostics@.len() as int) == old(self).diagnostics@,
            final(self).diagnostics@.last().severity == Severity::Error,
            final(self).diagnostics@.last().span == span,
            final(self).diagnostics@.last().message@ == message@,
            final(self).diagnostics@.last().code.is_none(),
            final(self).diagnostics@.last().code_description.is_none(),
    {
        self.diagnostics.push(Diagnostic::error(span, message));
        assert(self.diagnostics@.take(old(self).diagnostics@.len() as int) =~= old(self).diagnostics@);
        assert(forall|i: int|
            0 <= i < old(self).diagnostics@.len() ==> self.diagnostics@[i] == old(self).diagnostics@[i]);
    }

    /// Drains trivia whose end is at or before `offset`, so the next
    /// declaration or statement owns the comments that preceded it.
    fn take_trivia_before(&mut self, offset: u32) -> (out: Vec<SpannedTrivia>)
        requires
            old(self).inv(),
        ensures
            final(self).advanced(*old(self)),
            final(self).pos == old(self).pos,
            final(self).diagnostics@ == old(self).diagnostics@,
            old(self).trivia_pos <= final(self).trivia_pos <= final(self).trivia@.len(),
            out@ == old(self).trivia@.subrange(old(self).trivia_pos as int, final(self).trivia_pos as int),
            forall|i: int| 0 <= i < out@.len() ==> (#[trigger] out@[i]).span.end <= offset,
            final(self).trivia_pos < final(self).trivia@.len() ==> final(self).trivia@[final(self).trivia_pos as int].span.end
                > offset,
            forall|i: int|
                0 <= i < out@.len() ==> #[trigger] out@[i].span.start <= old(self).eof_span.end,
    {
        let mut out: Vec<SpannedTrivia> = Vec::new();
        let mut done = false;
        while !done && self.trivia_pos < self.trivia.len()
            invariant
                self.advanced(*old(self)),
                self.pos == old(self).pos,
                self.diagnostics@ == old(self).diagnostics@,
                old(self).trivia_pos <= self.trivia_pos <= self.trivia@.len(),
                out@ == old(self).trivia@.subrange(old(self).trivia_pos as int, self.trivia_pos as int),
                forall|i: int| 0 <= i < out@.len() ==> (#[trigger] out@[i]).span.end <= offset,
                done ==> self.trivia_pos < self.trivia@.len() && self.trivia@[self.trivia_pos as int].span.end > offset,
                forall|i: int|
                    0 <= i < out@.len() ==> #[trigger] out@[i].span.start <= old(self).eof_span.end,
            decreases self.trivia@.len() - self.trivia_pos, if done { 0int } else { 1int },
        {
            let t = self.trivia[self.trivia_pos].clone();
            if t.span.end <= offset {
                out.push(t);
                self.trivia_pos = self.trivia_pos + 1;
                assert(out@ =~= old(self).trivia@.subrange(old(self).trivia_pos as int, self.trivia_pos as int));
            } else {
                done = true;
            }
        }
        out
    }

    /// End offset of the most recently consumed token.
    fn prev_end(&self) -> (e: u32)
        requires
            self.inv(),
        ensures
            e <= self.eof_span.end,
            e == (if self.pos == 0 {
                0
            } else if self.pos - 1 < self.tokens@.len() {
                self.tokens@[self.pos - 1].span.end
            } else {
                self.eof_span.end
            }),
    {
        if self.pos == 0 {
            return 0;
        }
        if self.pos - 1 < self.tokens.len() {
            self.tokens[self.pos - 1].span.end
        } else {
            self.eof_span.end
        }
    }

    // --- module -----------------------------------------------------------
    fn parse_module(&mut self) -> (m: Module)
        requires
            old(self).inv(),
        ensures
            final(self).advanced(*old(self)),
            m.span.start <= m.span.end <= final(self).eof_span.end,
            forall|i: int| 0 <= i < m.items@.len() ==> item_within(#[trigger] m.items@[i], final(self).eof_span.end as int),
            final(self).pos == final(self).tokens@.len(),
            ({
                let t4 = tok_fours(old(self).tokens@);
                let q = inner_run_end(t4, old(self).pos as int);
                plain_run(t4, q) ==> final(self).diagnostics@ == old(self).diagnostics@ && plain_items(
                    t4,
                    q,
                    m.items@,
                    t4.len() as int,
                )
            }),
            m.span.start == old(self).cur_span_spec().start,
            ({
                let t4 = tok_fours(old(self).tokens@);
                let q = inner_run_end(t4, old(self).pos as int);
                &&& m.inner_docs@.len() >= q - old(self).pos
                &&& forall|i: int|
                    old(self).pos <= i < q ==> (#[trigger] m.inner_docs@[i - old(self).pos]).text@ == t4[i].3
                &&& q < t4.len() && decl_keyword(t4[q].0) ==> m.items@.len() > 0 && (m.items@[0] matches Item::Decl(
                    d,
                ) && kind_for_keyword(d.kind, t4[q].0))
                &&& q < t4.len() && t4[q].0 == TokenKind::KwFeature ==> m.items@.len() > 0 && m.items@[0] is Feature
                &&& q < t4.len() && !item_start(t4[q].0) ==> final(self).diagnostics@.len() > 0
                &&& q < t4.len() && decl_keyword(t4[q].0) ==> (m.items@[0] matches Item::Decl(d) && decl_head_ok(
                    t4,
                    q,
                    d.kind,
                    final(self).diagnostics@.len() > 0,
                ))
                &&& q < t4.len() && m.items@.len() == 0 ==> final(self).diagnostics@.len() > 0
            }),
    {
        let start = self.cur_span().start;
        let ghost t4 = tok_fours(old(self).tokens@);
        let ghost p0 = old(self).pos as int;
        let mut inner_docs: Vec<InnerDoc> = Vec::new();
        while self.at(TokenKind::InnerDoc)
            invariant
                self.advanced(*old(self)),
                t4 == tok_fours(self.tokens@),
                p0 == old(self).pos,
                inner_run_end(t4, p0) == inner_run_end(t4, self.pos as int),
                inner_docs@.len() == self.pos - p0,
                forall|i: int| p0 <= i < self.pos ==> (#[trigger] inner_docs@[i - p0]).text@ == t4[i].3,
                self.diagnostics@ == old(self).diagnostics@,
            decreases self.tokens_left(),
        {
            let ghost q = self.pos as int;
            let token = self.bump().unwrap();
            inner_docs.push(InnerDoc { text: token.text, span: token.span });
            assert(inner_docs@[q - p0].text@ == t4[q].3);
        }
        let ghost q = self.pos as int;
        assert(inner_run_end(t4, p0) == q);
        proof {
            lemma_inner_run_end(t4, p0);
        }
        let mut items: Vec<Item> = Vec::new();
        while !self.is_eof()
            invariant
                self.advanced(*old(self)),
                start <= self.eof_span.end,
                forall|i: int|
                    0 <= i < items@.len() ==> #[trigger] item_span(items@[i]).end
                        <= self.eof_span.end,
                forall|i: int| 0 <= i < items@.len() ==> item_within(#[trigger] items@[i], self.eof_span.end as int),
                plain_run(t4, q) ==> self.diagnostics@ == old(self).diagnostics@ && plain_items(
                    t4,
                    q,
                    items@,
                    self.pos as int,
                ) && plain_run(t4, self.pos as int),
                t4 == tok_fours(self.tokens@),
                p0 == old(self).pos,
                q == inner_run_end(t4, p0),
                q < t4.len() ==> t4[q].0 != TokenKind::InnerDoc,
                q <= self.pos,
                inner_docs@.len() >= q - p0,
                forall|i: int| p0 <= i < q ==> (#[trigger] inner_docs@[i - p0]).text@ == t4[i].3,
                items@.len() == 0 && self.pos != q ==> !(q < t4.len() && (decl_keyword(t4[q].0) || t4[q].0
                    == TokenKind::KwFeature)),
                q < t4.len() && decl_keyword(t4[q].0) && items@.len() > 0 ==> (items@[0] matches Item::Decl(d)
                    && kind_for_keyword(d.kind, t4[q].0)),
                q < t4.len() && t4[q].0 == TokenKind::KwFeature && items@.len() > 0 ==> items@[0] is Feature,
                q < t4.len() && !item_start(t4[q].0) && self.pos > q ==> self.diagnostics@.len() > 0,
                self.pos > q ==> items@.len() > 0 || self.diagnostics@.len() > 0,
                q < t4.len() && decl_keyword(t4[q].0) && items@.len() > 0 ==> (items@[0] matches Item::Decl(d)
                    && decl_head_ok(t4, q, d.kind, self.diagnostics@.len() > 0)),
            decreases self.tokens_left(),
        {
            proof {
                if plain_run(t4, q) {
                    assert(plain_decl_end(t4, keyword_at(t4, self.pos as int)) is Some);
                }
            }
            // Inner docs may appear after blank lines; absorb stray ones.
            if self.at(TokenKind::InnerDoc) {
                let token = self.bump().unwrap();
                inner_docs.push(InnerDoc { text: token.text, span: token.span });
                continue;
            }
            let before = self.pos;
            let ghost items0 = items@;
            let ghost flat = plain_run(t4, q);
            proof {
                if flat {
                    let k = keyword_at(t4, before as int);
                    assert(plain_decl_end(t4, k) is Some);
                }
            }
            match self.parse_item() {
                Some(item) => {
                    items.push(item);
                    assert(items0.len() > 0 ==> items@[0] == items0[0]);
                    proof {
                        if flat {
                            let k = keyword_at(t4, before as int);
                            let qn = plain_decl_end(t4, k)->0;
                            lemma_plain_push(t4, q, items0, before as int, item, qn);
                        }
                    }
                },
                None => {
                    // No progress possible at this token: skip it after
                    // recording the gap once.
                    let span = self.cur_span();
                    self.error(span, "unexpected token at top level");
                    self.bump();
                    self.recover_to_item();
                },
            }
            assert(self.pos > before) by {
                assert(before < self.tokens@.len());
            }
        }
        let end = if items.len() > 0 {
            items[items.len() - 1].span().end
        } else {
            start
        };
        let end = if end >= start { end } else { start };
        Module { inner_docs, items, span: Span::new(start, end) }
    }

    fn parse_item(&mut self) -> (r: Option<Item>)
        requires
            old(self).inv(),
        ensures
            final(self).advanced(*old(self)),
            r matches Some(item) ==> final(self).pos > old(self).pos && item_span(item).end
                <= final(self).eof_span.end && item_span(item).start <= final(self).eof_span.end,
            r matches Some(item) ==> item_within(item, final(self).eof_span.end as int),
            plain_decl_end(tok_fours(old(self).tokens@), keyword_at(tok_fours(old(self).tokens@), old(self).pos as int))
                matches Some(q) ==> (r matches Some(item) && final(self).pos == q && final(self).diagnostics@ == old(
                self,
            ).diagnostics@ && plain_item_ok(tok_fours(old(self).tokens@), old(self).pos as int, item)),
            old(self).cur_kind() == Some(TokenKind::KwFeature) ==> r matches Some(Item::Feature(_)),
            (old(self).cur_kind() matches Some(k) && decl_keyword(k)) ==> (r matches Some(Item::Decl(d))
                && kind_for_keyword(d.kind, old(self).tokens@[old(self).pos as int].kind)),
            (old(self).cur_kind() matches Some(k) && !item_start(k)) ==> r is None && final(self).pos == old(
                self,
            ).pos,
            (old(self).cur_kind() matches Some(k) && decl_keyword(k)) ==> (r matches Some(Item::Decl(d))
                && decl_head_ok(
                tok_fours(old(self).tokens@),
                old(self).pos as int,
                d.kind,
                final(self).diagnostics@.len() > old(self).diagnostics@.len(),
            )),
    {
        let ghost t = tok_fours(old(self).tokens@);
        let ghost p0 = old(self).pos as int;
        let ghost flat = plain_decl_end(t, keyword_at(t, p0)) is Some;
        let cur = self.cur_span().start;
        let leading_trivia = self.take_trivia_before(cur);
        proof {
            if flat {
                lemma_doc_end(self.tokens@, p0);
                let a = doc_end(t, p0);
                assert(t[a].0 == TokenKind::KwPublic || t[a].0 == TokenKind::KwPerson || t[a].0
                    == TokenKind::KwSystem || t[a].0 == TokenKind::KwContainer || t[a].0 == TokenKind::KwComponent
                    || t[a].0 == TokenKind::KwData || t[a].0 == TokenKind::KwConstant);
                assert(self.tokens@[a].kind == t[a].0);
            }
        }
        let doc = self.parse_doc_block();
        let macros = self.parse_macros();
        let is_public = self.eat(TokenKind::KwPublic).is_some();
        proof {
            if flat {
                assert(self.pos == keyword_at(t, p0));
                assert(self.diagnostics@ == old(self).diagnostics@);
            }
        }
        let start = if leading_trivia.len() > 0 {
            leading_trivia[0].span.start
        } else if doc.tags.len() > 0 {
            doc.tags[0].span.start
        } else {
            self.cur_span().start
        };
        if self.at(TokenKind::KwFeature) {
            let feature = self.parse_feature(leading_trivia, doc, &macros, is_public, start);
            return Some(Item::Feature(feature));
        }
        let kind = match self.parse_decl_kind() {
            Some(k) => k,
            None => return None,
        };
        let span = Span::new(start, self.prev_end());
        Some(Item::Decl(Decl { doc, macros, is_public, kind, leading_trivia, span }))
    }

    // --- features ---------------------------------------------------------
    /// Parses `feature Name for Path { given* when+ then+ }`. A feature takes
    /// no macros and no modifier; any consumed before it are rejected.
    fn parse_feature(
        &mut self,
        leading_trivia: Vec<SpannedTrivia>,
        doc: DocBlock,
        macros: &Vec<Macro>,
        is_public: bool,
        start: u32,
    ) -> (f: Feature)
        requires
            old(self).inv(),
            old(self).cur_kind() == Some(TokenKind::KwFeature),
            start <= old(self).eof_span.end,
            forall|i: int| 0 <= i < macros@.len() ==> old(self).span_ok(#[trigger] macros@[i].span),
        ensures
            final(self).advanced(*old(self)),
            final(self).pos > old(self).pos,
            f.span.start <= final(self).eof_span.end,
            f.span.end <= final(self).eof_span.end,
            item_within(Item::Feature(f), final(self).eof_span.end as int),
    {
        let kw = self.bump().unwrap();
        let mut k: usize = 0;
        while k < macros.len()
            invariant
                self.advanced(*old(self)),
                self.pos == old(self).pos + 1,
                forall|i: int| 0 <= i < macros@.len() ==> self.span_ok(#[trigger] macros@[i].span),
            decreases macros@.len() - k,
        {
            self.error(macros[k].span, "macro on a `feature`: macros target callables");
            k = k + 1;
        }
        if is_public {
            self.error(kw.span, "`public` modifier on a `feature`");
        }
        let name = self.expect_ident("feature name");
        let target = if self.eat(TokenKind::KwFor).is_some() {
            self.parse_path()
        } else {
            self.error(name.span, "feature declaration missing `for <target>` clause");
            Path { segments: Vec::new(), span: name.span }
        };
        let steps = self.parse_feature_body(name.span);
        let span = Span::new(start, self.prev_end());
        Feature { doc, name, target, steps, leading_trivia, span }
    }

    /// Parses the `{ ... }` flow block, enforcing the strict given* when+
    /// then+ order: `and`/`but` continue the preceding step's kind; a `then`
    /// before any `when`, a `when` after a `then`, or a leading `and`/`but`
    /// are rejected.
    fn parse_feature_body(&mut self, name_span: Span) -> (steps: Vec<FeatureStep>)
        requires
            old(self).inv(),
            old(self).span_ok(name_span),
        ensures
            final(self).advanced(*old(self)),
            old(self).cur_kind() != Some(TokenKind::LBrace) ==> steps@.len() == 0 && final(self).pos == (if old(
                self,
            ).cur_kind() == Some(TokenKind::Semi) {
                old(self).pos + 1
            } else {
                old(self).pos as int
            }) && final(self).diagnostics@.len() == old(self).diagnostics@.len() + 1 && final(self).diagnostics@.take(
                old(self).diagnostics@.len() as int,
            ) == old(self).diagnostics@ && final(self).diagnostics@.last().span == name_span
                && final(self).diagnostics@.last().message@ == "feature declaration has no `{ }` flow block"@,
            old(self).cur_kind() == Some(TokenKind::LBrace) ==> final(self).pos > old(self).pos && (final(self).pos
                == final(self).tokens@.len() || final(self).tokens@[final(self).pos - 1].kind == TokenKind::RBrace),
    {
        if !self.at(TokenKind::LBrace) {
            self.eat(TokenKind::Semi);
            self.error(name_span, "feature declaration has no `{ }` flow block");
            return Vec::new();
        }
        self.bump();
        let mut steps: Vec<FeatureStep> = Vec::new();
        let mut phase = FeaturePhase::Start;
        while !self.is_eof() && !self.at(TokenKind::RBrace)
            invariant
                self.advanced(*old(self)),
                self.span_ok(name_span),
                self.pos > old(self).pos,
            decreases self.tokens_left(),
        {
            let before = self.pos;
            let step_kind = match self.peek_kind() {
                Some(k) => StepKind::from_token(k),
                None => None,
            };
            let step_kind = match step_kind {
                Some(s) => s,
                None => {
                    let span = self.cur_span();
                    self.error(span, "expected a `given`, `when`, or `then` step");
                    self.recover_in_block();
                    if self.pos == before {
                        self.bump();
                    }
                    continue;
                },
            };
            let kw = self.bump().unwrap();
            match step_kind {
                StepKind::Given => match phase {
                    FeaturePhase::Start | FeaturePhase::Given => phase = FeaturePhase::Given,
                    FeaturePhase::When => self.error(kw.span, "feature flow: `given` after `when`"),
                    FeaturePhase::Then => self.error(kw.span, "feature flow: `given` after `then`"),
                },
                StepKind::When => match phase {
                    FeaturePhase::Then => self.error(kw.span, "feature flow: `when` after `then`"),
                    _ => phase = FeaturePhase::When,
                },
                StepKind::Then => match phase {
                    FeaturePhase::Start | FeaturePhase::Given => {
                        self.error(kw.span, "feature flow: `then` before any `when`");
                        // Advance to the `then` phase so one mistake does not
                        // pile on further errors.
                        phase = FeaturePhase::Then;
                    },
                    _ => phase = FeaturePhase::Then,
                },
                StepKind::And | StepKind::But => {
                    if phase == FeaturePhase::Start {
                        let msg = concat3(
                            "feature flow: leading `",
                            kw.text.as_str(),
                            "` with no preceding step",
                        );
                        self.error(kw.span, msg.as_str());
                    }
                },
            }
            let text = self.parse_step_text();
            let span = Span::new(kw.span.start, self.prev_end());
            steps.push(FeatureStep { kind: step_kind, text, span });
        }
        self.eat(TokenKind::RBrace);
        // One or more `when` and one or more `then` are required.
        if !(phase == FeaturePhase::When || phase == FeaturePhase::Then) {
            self.error(name_span, "feature flow: missing `when` step");
        }
        if phase != FeaturePhase::Then {
            self.error(name_span, "feature flow: missing `then` step");
        }
        steps
    }

    /// Parses a step's prose: a string literal. A non-string step body is an
    /// error; an empty string is synthesised so recovery continues.
    fn parse_step_text(&mut self) -> (l: Literal)
        requires
            old(self).inv(),
        ensures
            final(self).advanced(*old(self)),
            final(self).trivia_pos == old(self).trivia_pos,
            old(self).cur_kind() == Some(TokenKind::String) ==> Some(l) == literal_of_token(
                old(self).tokens@[old(self).pos as int],
            ) && final(self).pos == old(self).pos + 1 && final(self).diagnostics@ == old(self).diagnostics@,
            old(self).cur_kind() != Some(TokenKind::String) ==> final(self).pos == old(self).pos && is_empty_string_lit(
                l,
                old(self).cur_span_spec(),
            ) && final(self).diagnostics@.len()
                == old(self).diagnostics@.len() + 1 && final(self).diagnostics@.take(
                old(self).diagnostics@.len() as int,
            ) == old(self).diagnostics@ && final(self).diagnostics@.last().span == old(self).cur_span_spec()
                && final(self).diagnostics@.last().message@ == "feature step expects a string literal"@,
    {
        if self.at(TokenKind::String) {
            self.parse_literal().unwrap()
        } else {
            let span = self.cur_span();
            self.error(span, "feature step expects a string literal");
            Literal::String { raw: String::new(), span }
        }
    }

    // --- declarations -----------------------------------------------------
    fn parse_decl_kind(&mut self) -> (r: Option<DeclKind>)
        requires
            old(self).inv(),
        ensures
            final(self).advanced(*old(self)),
            r is Some ==> final(self).pos > old(self).pos,
            (r is Some) == (old(self).cur_kind() matches Some(k) && decl_keyword(k)),
            r is None ==> final(self).pos == old(self).pos && final(self).diagnostics@ == old(self).diagnostics@,
            r matches Some(d) ==> kind_for_keyword(d, old(self).tokens@[old(self).pos as int].kind),
            r matches Some(d) ==> decl_kind_within(d, final(self).eof_span.end as int),
            plain_decl_end(tok_fours(old(self).tokens@), old(self).pos as int) matches Some(q) ==> (r matches Some(
                d,
            ) && final(self).pos == q && final(self).diagnostics@ == old(self).diagnostics@ && plain_kind_ok(
                tok_fours(old(self).tokens@),
                old(self).pos as int,
                d,
            )),
            r matches Some(d) ==> decl_head_ok(
                tok_fours(old(self).tokens@),
                old(self).pos as int,
                d,
                final(self).diagnostics@.len() > old(self).diagnostics@.len(),
            ),
        decreases old(self).tokens_left(), 7nat,
    {
        let k = match self.peek_kind() {
            Some(k) => k,
            None => return None,
        };
        match k {
            TokenKind::KwPerson => Some(DeclKind::Person(self.parse_node(NodeKind::Person))),
            TokenKind::KwSystem => Some(DeclKind::System(self.parse_node(NodeKind::System))),
            TokenKind::KwContainer => Some(DeclKind::Container(self.parse_node(NodeKind::Container))),
            TokenKind::KwComponent => Some(DeclKind::Component(self.parse_node(NodeKind::Component))),
            TokenKind::KwData => Some(DeclKind::Data(self.parse_data())),
            TokenKind::KwConstant => Some(DeclKind::Constant(self.parse_constant())),
            _ => None,
        }
    }

    /// Parses `constant Ident "=" Literal`. The value must be a primitive
    /// literal; otherwise it is rejected and a placeholder `0` substituted.
    fn parse_constant(&mut self) -> (c: Constant)
        requires
            old(self).inv(),
            old(self).cur_kind() == Some(TokenKind::KwConstant),
        ensures
            final(self).advanced(*old(self)),
            final(self).pos > old(self).pos,
            constant_head_ok(tok_fours(old(self).tokens@), old(self).pos as int, c, final(self).diagnostics@.len()
                > old(self).diagnostics@.len()),
            span_within(c.name.span, final(self).eof_span.end as int),
            constant_end(tok_fours(old(self).tokens@), old(self).pos as int) matches Some(q) ==> final(self).pos == q
                && final(self).diagnostics@ == old(self).diagnostics@ && constant_ok(
                tok_fours(old(self).tokens@),
                old(self).pos as int,
                c,
            ),
    {
        let ghost t = tok_fours(old(self).tokens@);
        let ghost p = old(self).pos as int;
        let ghost d0 = old(self).diagnostics@.len();
        let ghost flat = constant_end(t, p) is Some;
        let kw = self.bump().unwrap();
        let name = self.expect_ident("constant name");
        proof {
            if flat {
                assert(t[p + 1].0 == old(self).tokens@[p + 1].kind);
                assert(t[p + 2].0 == old(self).tokens@[p + 2].kind);
                assert(t[p + 3].0 == old(self).tokens@[p + 3].kind);
            }
        }
        if self.eat(TokenKind::Eq).is_none() {
            let span = self.cur_span();
            self.error(span, "expected `=` after the constant name");
        }
        let value = match self.parse_literal() {
            Some(l) => l,
            None => {
                let span = self.cur_span();
                self.error(
                    span,
                    "a constant value must be a primitive literal (number, string, or bool)",
                );
                Literal::Number { raw: String::from_str("0"), span }
            },
        };
        let span = Span::new(kw.span.start, self.prev_end());
        let c = Constant { name, value, span };
        assert(constant_head_ok(t, p, c, self.diagnostics@.len() > d0));
        c
    }

    fn parse_node(&mut self, kind: NodeKind) -> (n: Node)
        requires
            old(self).inv(),
            old(self).pos < old(self).tokens@.len(),
        ensures
            final(self).advanced(*old(self)),
            final(self).pos > old(self).pos,
            node_head_ok(tok_fours(old(self).tokens@), old(self).pos as int, kind, n, final(self).diagnostics@.len()
                > old(self).diagnostics@.len()),
            node_within(n, final(self).eof_span.end as int),
            plain_decl_end(tok_fours(old(self).tokens@), old(self).pos as int) matches Some(q) ==> (node_keyword(kind)
                == old(self).tokens@[old(self).pos as int].kind ==> final(self).pos == q && final(self).diagnostics@
                == old(self).diagnostics@ && plain_node_ok(tok_fours(old(self).tokens@), old(self).pos as int, n)),
        decreases old(self).tokens_left(), 6nat,
    {
        let ghost t = tok_fours(old(self).tokens@);
        let ghost p = old(self).pos as int;
        let ghost d0 = old(self).diagnostics@.len();
        let ghost flat = plain_decl_end(t, p) is Some && node_keyword(kind) == old(self).tokens@[p].kind;
        let kw = self.bump().unwrap();
        let name = self.expect_ident("node name");
        proof {
            if flat {
                assert(t[p].0 == old(self).tokens@[p].kind);
                assert(self.pos == p + 2);
                assert(self.diagnostics@ == old(self).diagnostics@);
            }
        }
        let mut parent = None;
        if kind == NodeKind::Container || kind == NodeKind::Component {
            if self.eat(TokenKind::KwFor).is_some() {
                proof {
                    if flat {
                        assert(self.pos == p + 3);
                        assert(self.tokens@[p + 3].kind == t[p + 3].0);
                        let e = path_end(t, p + 3);
                        assert(t[e].0 == TokenKind::Semi || t[e].0 == TokenKind::LBrace);
                    }
                }
                parent = Some(self.parse_path());
            } else {
                let msg = if kind == NodeKind::Container {
                    "container declaration missing `for <parent>` clause"
                } else {
                    "component declaration missing `for <parent>` clause"
                };
                self.error(name.span, msg);
            }
        }
        let body = self.parse_node_body(kind, name.span);
        let end = self.prev_end();
        let n = Node { kind, name, parent, body, span: Span::new(kw.span.start, end) };
        assert(node_head_ok(t, p, kind, n, self.diagnostics@.len() > d0));
        n
    }

    /// Parses a node body: a `{ members }` block, a `;` black box, or — if
    /// neither is present — records the missing-terminator error.
    fn parse_node_body(&mut self, kind: NodeKind, name_span: Span) -> (b: Option<Vec<BodyMember>>)
        requires
            old(self).inv(),
            old(self).span_ok(name_span),
        ensures
            final(self).advanced(*old(self)),
            (b is Some) == (old(self).cur_kind() == Some(TokenKind::LBrace)),
            b matches Some(ms) ==> forall|i: int|
                0 <= i < ms@.len() ==> member_within(#[trigger] ms@[i], final(self).eof_span.end as int),
            ({
                let t = tok_fours(old(self).tokens@);
                let d0 = old(self).diagnostics@;
                let j = old(self).pos + 1;
                old(self).cur_kind() == Some(TokenKind::LBrace) ==> (body_end(t, j) matches Some(e) ==> (b matches Some(
                    ms,
                ) && final(self).pos == e && final(self).diagnostics@ == d0 && members_from(t, j, ms@, e - 1)))
            }),
            old(self).cur_kind() == Some(TokenKind::Semi) ==> final(self).pos == old(self).pos + 1
                && final(self).diagnostics@ == old(self).diagnostics@,
            old(self).cur_kind() != Some(TokenKind::Semi) && old(self).cur_kind() != Some(TokenKind::LBrace)
                ==> final(self).pos == old(self).pos && final(self).diagnostics@.len() == old(self).diagnostics@.len()
                + 1 && final(self).diagnostics@.take(old(self).diagnostics@.len() as int) == old(self).diagnostics@
                && final(self).diagnostics@.last().span == name_span && final(self).diagnostics@.last().message@
                == missing_body_message(kind),
        decreases old(self).tokens_left(), 10nat,
    {
        if self.at(TokenKind::LBrace) {
            return Some(self.parse_body_block());
        }
        if self.eat(TokenKind::Semi).is_some() {
            return None;
        }
        let msg = match kind {
            NodeKind::Person => "person declaration with neither a `{ }` block nor a terminating `;`",
            NodeKind::System => "system declaration with neither a `{ }` block nor a terminating `;`",
            NodeKind::Container => "container declaration with neither a `{ }` block nor a terminating `;`",
            NodeKind::Component => "component declaration with neither a `{ }` block nor a terminating `;`",
        };
        self.error(name_span, msg);
        None
    }

    /// Parses a `{ ... }` body block of callables and nested declarations.
    fn parse_body_block(&mut self) -> (members: Vec<BodyMember>)
        requires
            old(self).inv(),
            old(self).cur_kind() == Some(TokenKind::LBrace),
        ensures
            final(self).advanced(*old(self)),
            final(self).pos > old(self).pos,
            final(self).pos == final(self).tokens@.len() || final(self).tokens@[final(self).pos - 1].kind
                == TokenKind::RBrace,
            forall|i: int|
                0 <= i < members@.len() ==> member_within(#[trigger] members@[i], final(self).eof_span.end as int),
            ({
                let t = tok_fours(old(self).tokens@);
                let d0 = old(self).diagnostics@;
                let j = old(self).pos + 1;
                body_end(t, j) matches Some(e) ==> final(self).pos == e && final(self).diagnostics@ == d0
                    && members_from(t, j, members@, e - 1)
            }),
        decreases old(self).tokens_left(), 9nat,
    {
        let ghost t = tok_fours(old(self).tokens@);
        let ghost j0 = old(self).pos + 1;
        let ghost flat = body_end(t, j0) is Some;
        self.bump();
        let mut members: Vec<BodyMember> = Vec::new();
        while !self.is_eof() && !self.at(TokenKind::RBrace)
            invariant
                self.advanced(*old(self)),
                self.pos > old(self).pos,
                forall|i: int|
                    0 <= i < members@.len() ==> member_within(#[trigger] members@[i], self.eof_span.end as int),
                t == tok_fours(self.tokens@),
                j0 == old(self).pos + 1,
                flat == (body_end(t, j0) is Some),
                flat ==> self.diagnostics@ == old(self).diagnostics@ && members_from(t, j0, members@, self.pos as int)
                    && body_end(t, self.pos as int) == body_end(t, j0),
            decreases self.tokens_left(),
        {
            let ghost ms0 = members@;
            proof {
                if flat {
                    assert(t[self.pos as int].0 == self.tokens@[self.pos as int].kind);
                    assert(callable_end(t, keyword_at(t, self.pos as int)) is Some);
                }
            }
            let before = self.pos;
            let member = self.parse_body_member();
            if self.pos == before {
                // Forward-progress guard: a token starting neither a callable
                // nor a nested declaration must not spin.
                let span = self.cur_span();
                self.error(span, "expected a callable or declaration");
                self.recover_in_block();
            } else if let Some(m) = member {
                members.push(m);
                proof {
                    if flat {
                        let n = callable_end(t, keyword_at(t, before as int))->0;
                        lemma_members_push(t, j0, ms0, before as int, m, n);
                    }
                }
            }
        }
        proof {
            if flat {
                assert(self.pos < self.tokens@.len());
                assert(t[self.pos as int].0 == self.tokens@[self.pos as int].kind);
            }
        }
        self.eat(TokenKind::RBrace);
        members
    }

    /// Parses one body member: the shared `doc → macros → public` prefix,
    /// then a nested structural declaration (rejected: a disclosed block holds
    /// callables only) or a callable.
    fn parse_body_member(&mut self) -> (m: Option<BodyMember>)
        requires
            old(self).inv(),
        ensures
            final(self).advanced(*old(self)),
            (old(self).cur_kind() matches Some(k) && decl_keyword(k)) ==> (m matches Some(BodyMember::Decl(d))
                && kind_for_keyword(d.kind, old(self).tokens@[old(self).pos as int].kind)),
            old(self).cur_kind() == Some(TokenKind::Ident) ==> (m matches Some(BodyMember::Callable(c)) && c.name.name
                == old(self).tokens@[old(self).pos as int].text && c.name.span == old(self).tokens@[old(
                self,
            ).pos as int].span),
            m matches Some(mm) ==> member_within(mm, final(self).eof_span.end as int),
            ({
                let t = tok_fours(old(self).tokens@);
                let d0 = old(self).diagnostics@;
                let j = old(self).pos as int;
                callable_end(t, keyword_at(t, j)) matches Some(n) ==> (m matches Some(mm) && final(self).pos == n
                    && final(self).diagnostics@ == d0 && member_ok(t, j, mm))
            }),
        decreases old(self).tokens_left(), 8nat,
    {
        let ghost t = tok_fours(old(self).tokens@);
        let ghost j0 = old(self).pos as int;
        let ghost flat = callable_end(t, keyword_at(t, j0)) is Some;
        let cur = self.cur_span().start;
        let leading_trivia = self.take_trivia_before(cur);
        proof {
            if flat {
                lemma_doc_end(self.tokens@, j0);
                let a = doc_end(t, j0);
                assert(self.tokens@[a].kind == t[a].0);
            }
        }
        let doc = self.parse_doc_block();
        let macros = self.parse_macros();
        let is_public = self.eat(TokenKind::KwPublic).is_some();
        proof {
            if flat {
                let k = keyword_at(t, j0);
                assert(self.pos == k);
                assert(self.tokens@[k].kind == t[k].0);
            }
        }
        let prefix_consumed = !doc.is_empty() || macros.len() > 0 || is_public;
        let start = if leading_trivia.len() > 0 {
            leading_trivia[0].span.start
        } else {
            self.cur_span().start
        };
        let structural = match self.peek_kind() {
            Some(TokenKind::KwPerson) | Some(TokenKind::KwSystem) | Some(TokenKind::KwContainer)
            | Some(TokenKind::KwComponent) | Some(TokenKind::KwData) | Some(
                TokenKind::KwConstant,
            ) => true,
            _ => false,
        };
        if structural {
            let kw_span = self.tokens[self.pos].span;
            let msg = concat3(
                "`",
                self.tokens[self.pos].text.as_str(),
                "` declaration inside a block: a disclosed block holds callables only",
            );
            self.error(kw_span, msg.as_str());
            let kind = match self.parse_decl_kind() {
                Some(k) => k,
                None => return None,
            };
            let span = Span::new(start, self.prev_end());
            return Some(BodyMember::Decl(Decl { doc, macros, is_public, kind, leading_trivia, span }));
        }
        match self.parse_callable(leading_trivia, doc, macros, is_public, prefix_consumed, start) {
            Some(c) => Some(BodyMember::Callable(c)),
            None => None,
        }
    }

    fn parse_callable(
        &mut self,
        leading_trivia: Vec<SpannedTrivia>,
        doc: DocBlock,
        macros: Vec<Macro>,
        is_public: bool,
        prefix_consumed: bool,
        start: u32,
    ) -> (c: Option<Callable>)
        requires
            old(self).inv(),
            macros_within(macros@, old(self).eof_span.end as int),
        ensures
            final(self).advanced(*old(self)),
            (c is Some) == (old(self).cur_kind() == Some(TokenKind::Ident)),
            c matches Some(cl) ==> cl.doc == doc && cl.macros == macros && cl.is_public == is_public && cl.leading_trivia
                == leading_trivia && cl.name.name == old(self).tokens@[old(self).pos as int].text && cl.name.span == old(
                self,
            ).tokens@[old(self).pos as int].span && cl.span.start == start,
            c matches Some(cl) ==> callable_within(cl, final(self).eof_span.end as int),
            ({
                let t = tok_fours(old(self).tokens@);
                let d0 = old(self).diagnostics@;
                let a = old(self).pos as int;
                callable_end(t, a) matches Some(q) ==> (c matches Some(cl) && final(self).pos == q
                    && final(self).diagnostics@ == d0 && callable_ok(t, a, cl))
            }),
            c is None && !prefix_consumed ==> final(self).pos == old(self).pos && final(self).diagnostics@ == old(
                self,
            ).diagnostics@,
            c is None && prefix_consumed ==> final(self).pos == old(self).pos && final(self).diagnostics@.len() == old(
                self,
            ).diagnostics@.len() + 1 && final(self).diagnostics@.take(old(self).diagnostics@.len() as int) == old(
                self,
            ).diagnostics@ && final(self).diagnostics@.last().message@ == "expected a callable name"@,
    {
        if !self.at(TokenKind::Ident) {
            // Nothing callable-shaped here. If docs or macros were consumed,
            // that is still progress; otherwise the caller recovers.
            if !prefix_consumed {
                return None;
            }
            let span = self.cur_span();
            self.error(span, "expected a callable name");
            return None;
        }
        let ghost t = tok_fours(old(self).tokens@);
        let ghost a = old(self).pos as int;
        let ghost flat = callable_end(t, a) is Some;
        let name = self.expect_ident("callable name");
        proof {
            if flat {
                assert(t[a + 1].0 == self.tokens@[a + 1].kind);
            }
        }
        self.eat(TokenKind::LParen);
        let params = self.parse_params();
        proof {
            if flat {
                let r = params_end(t, a + 2)->0;
                assert(t[r].0 == self.tokens@[r].kind);
                assert(t[r + 1].0 == self.tokens@[r + 1].kind);
                assert(self.pos == r);
            }
        }
        self.eat(TokenKind::RParen);
        // Every callable declares a return type; a missing one is reported
        // and recovered as `void`.
        let return_ty = if self.eat(TokenKind::Colon).is_some() {
            Some(self.parse_type())
        } else {
            self.error(name.span, "callable without a declared return type");
            None
        };
        proof {
            if flat {
                let r = params_end(t, a + 2)->0;
                let e = plain_type_end(t, r + 2)->0;
                assert(t[e].0 == self.tokens@[e].kind);
                assert(self.pos == e);
            }
        }
        let body = if self.at(TokenKind::LBrace) {
            Some(self.parse_block())
        } else if self.eat(TokenKind::Semi).is_some() {
            None
        } else {
            self.error(name.span, "callable with neither a `{ }` body block nor a terminating `;`");
            None
        };
        let span = Span::new(start, self.prev_end());
        Some(
            Callable {
                doc,
                macros,
                is_public,
                name,
                params,
                return_ty,
                body,
                leading_trivia,
                span,
            },
        )
    }

    fn parse_params(&mut self) -> (params: Vec<Param>)
        requires
            old(self).inv(),
        ensures
            final(self).advanced(*old(self)),
            !(old(self).cur_kind() matches Some(k) && k != TokenKind::RParen && (k == TokenKind::Ident
                || is_keyword_kind(k))) ==> params@.len() == 0 && final(self).pos == old(self).pos
                && final(self).diagnostics@ == old(self).diagnostics@,
            forall|i: int|
                0 <= i < params@.len() ==> span_within((#[trigger] params@[i]).name.span, final(self).eof_span.end as int)
                    && type_within(params@[i].ty, final(self).eof_span.end as int),
            ({
                let t = tok_fours(old(self).tokens@);
                let d0 = old(self).diagnostics@;
                let j = old(self).pos as int;
                params_end(t, j) matches Some(r) ==> (r < t.len() && t[r].0 == TokenKind::RParen ==> final(self).pos
                    == r && final(self).diagnostics@ == d0 && params_from(t, j, params@, r))
            }),
    {
        let ghost t = tok_fours(old(self).tokens@);
        let ghost j0 = old(self).pos as int;
        let ghost flat = params_end(t, j0) is Some && params_end(t, j0)->0 < t.len() && t[params_end(t, j0)->0].0
            == TokenKind::RParen;
        let ghost r = params_end(t, j0)->0;
        let mut params: Vec<Param> = Vec::new();
        while !self.is_eof() && !self.at(TokenKind::RParen)
            invariant
                self.advanced(*old(self)),
                t == tok_fours(self.tokens@),
                j0 == old(self).pos,
                r == params_end(t, j0)->0,
                flat == (params_end(t, j0) is Some && r < t.len() && t[r].0 == TokenKind::RParen),
                flat ==> self.diagnostics@ == old(self).diagnostics@ && params_from(t, j0, params@, self.pos as int)
                    && params_end(t, self.pos as int) == Some(r),
                !(old(self).cur_kind() matches Some(k) && k != TokenKind::RParen && (k == TokenKind::Ident
                    || is_keyword_kind(k))) ==> params@.len() == 0 && self.pos == old(self).pos
                    && self.diagnostics@ == old(self).diagnostics@,
                forall|i: int|
                    0 <= i < params@.len() ==> span_within((#[trigger] params@[i]).name.span, self.eof_span.end as int)
                        && type_within(params@[i].ty, self.eof_span.end as int),
            ensures
                self.advanced(*old(self)),
                !(old(self).cur_kind() matches Some(k) && k != TokenKind::RParen && (k == TokenKind::Ident
                    || is_keyword_kind(k))) ==> params@.len() == 0 && self.pos == old(self).pos
                    && self.diagnostics@ == old(self).diagnostics@,
                forall|i: int|
                    0 <= i < params@.len() ==> span_within((#[trigger] params@[i]).name.span, self.eof_span.end as int)
                        && type_within(params@[i].ty, self.eof_span.end as int),
                flat ==> self.diagnostics@ == old(self).diagnostics@ && params_from(t, j0, params@, r) && self.pos == r,
            decreases self.tokens_left(),
        {
            let ghost pos0 = self.pos as int;
            let ghost ps0 = params@;
            proof {
                if flat {
                    assert(t[pos0].0 == self.tokens@[pos0].kind);
                    assert(t[pos0 + 1].0 == self.tokens@[pos0 + 1].kind);
                }
            }
            if !self.at_name() {
                break;
            }
            let name = self.expect_name("parameter name");
            self.eat(TokenKind::Colon);
            let ty = self.parse_type();
            let span = name.span.to(ty.span);
            let ghost pm = Param { name, ty, span };
            params.push(Param { name, ty, span });
            proof {
                if flat {
                    let e = plain_type_end(t, pos0 + 2)->0;
                    if e < t.len() {
                        assert(t[e].0 == self.tokens@[e].kind);
                    }
                    let n = field_next(t, pos0)->0;
                    assert(param_ok(t, pos0, pm));
                    lemma_params_push(t, j0, ps0, pos0, pm, n);
                }
            }
            if self.eat(TokenKind::Comma).is_none() {
                proof {
                    if flat {
                        assert(self.pos == r);
                    }
                }
                break;
            }
        }
        proof {
            if flat && self.pos < self.tokens@.len() {
                assert(t[self.pos as int].0 == self.tokens@[self.pos as int].kind);
            }
        }
        params
    }

    // --- data -------------------------------------------------------------
    fn parse_data(&mut self) -> (d: Data)
        requires
            old(self).inv(),
            old(self).pos < old(self).tokens@.len(),
        ensures
            final(self).advanced(*old(self)),
            final(self).pos > old(self).pos,
            data_head_ok(tok_fours(old(self).tokens@), old(self).pos as int, d, final(self).diagnostics@.len() > old(
                self,
            ).diagnostics@.len()),
            decl_kind_within(DeclKind::Data(d), final(self).eof_span.end as int),
            data_end(tok_fours(old(self).tokens@), old(self).pos as int) matches Some(q) ==> final(self).pos == q
                && final(self).diagnostics@ == old(self).diagnostics@ && data_ok(
                tok_fours(old(self).tokens@),
                old(self).pos as int,
                d,
            ),
    {
        let ghost t = tok_fours(old(self).tokens@);
        let ghost p = old(self).pos as int;
        let ghost d0 = old(self).diagnostics@.len();
        let ghost flat = data_end(t, p) is Some;
        let kw = self.bump().unwrap();
        let name = self.expect_ident("data name");
        proof {
            if flat {
                assert(t[p + 1].0 == old(self).tokens@[p + 1].kind);
                assert(t[p + 2].0 == old(self).tokens@[p + 2].kind);
                assert(self.pos == p + 2);
            }
        }
        let body = if self.at(TokenKind::LBrace) {
            DataBody::Record(self.parse_record())
        } else if self.eat(TokenKind::Eq).is_some() {
            DataBody::Union(self.parse_union())
        } else if self.eat(TokenKind::Semi).is_some() {
            DataBody::BlackBox
        } else {
            self.error(
                name.span,
                "data declaration with neither a `{ }` block, `= union`, nor a terminating `;`",
            );
            DataBody::BlackBox
        };
        let span = Span::new(kw.span.start, self.prev_end());
        let d = Data { name, body, span };
        assert(data_head_ok(t, p, d, self.diagnostics@.len() > d0));
        d
    }

    fn parse_record(&mut self) -> (fields: Vec<Field>)
        requires
            old(self).inv(),
        ensures
            final(self).advanced(*old(self)),
            final(self).pos == final(self).tokens@.len() || (final(self).tokens@[final(self).pos - 1].kind
                == TokenKind::RBrace && final(self).pos > old(self).pos + 1),
            fields_within(fields@, final(self).eof_span.end as int),
            record_end(tok_fours(old(self).tokens@), old(self).pos + 1) matches Some(e) ==> final(self).pos == e
                && final(self).diagnostics@ == old(self).diagnostics@ && fields_from(
                tok_fours(old(self).tokens@),
                old(self).pos + 1,
                fields@,
                e - 1,
            ),
    {
        let ghost t = tok_fours(old(self).tokens@);
        let ghost j0 = old(self).pos + 1;
        let ghost flat = record_end(t, j0) is Some;
        self.bump();
        let mut fields: Vec<Field> = Vec::new();
        while !self.is_eof() && !self.at(TokenKind::RBrace)
            invariant
                self.advanced(*old(self)),
                self.pos > old(self).pos || self.pos == self.tokens@.len(),
                fields_within(fields@, self.eof_span.end as int),
                t == tok_fours(self.tokens@),
                j0 == old(self).pos + 1,
                flat == (record_end(t, j0) is Some),
                flat ==> self.diagnostics@ == old(self).diagnostics@ && fields_from(t, j0, fields@, self.pos as int)
                    && record_end(t, self.pos as int) == record_end(t, j0),
            ensures
                self.advanced(*old(self)),
                self.pos > old(self).pos || self.pos == self.tokens@.len(),
                self.pos >= self.tokens@.len() || self.cur_kind() == Some(TokenKind::RBrace),
                fields_within(fields@, self.eof_span.end as int),
                flat ==> self.diagnostics@ == old(self).diagnostics@ && fields_from(t, j0, fields@, self.pos as int)
                    && record_end(t, self.pos as int) == record_end(t, j0),
            decreases self.tokens_left(),
        {
            let ghost pos0 = self.pos as int;
            let ghost fields0 = fields@;
            proof {
                if flat {
                    assert(t[pos0].0 == self.tokens@[pos0].kind);
                    assert(field_next(t, pos0) is Some);
                    assert(t[pos0 + 1].0 == self.tokens@[pos0 + 1].kind);
                }
            }
            if !self.at_name() {
                let span = self.cur_span();
                self.error(span, "expected a field name");
                self.recover_in_block();
                if self.at(TokenKind::RBrace) {
                    break;
                }
                continue;
            }
            let name = self.expect_name("field name");
            self.eat(TokenKind::Colon);
            let ty = self.parse_type();
            let span = name.span.to(ty.span);
            let ghost f = Field { name, ty, span };
            fields.push(Field { name, ty, span });
            proof {
                if flat {
                    let e = plain_type_end(t, pos0 + 2)->0;
                    if e < t.len() {
                        assert(t[e].0 == self.tokens@[e].kind);
                    }
                }
            }
            self.eat(TokenKind::Comma);
            proof {
                if flat {
                    let n = field_next(t, pos0)->0;
                    assert(self.pos == n);
                    assert(field_ok(t, pos0, f));
                    lemma_fields_push(t, j0, fields0, pos0, f, n);
                }
            }
        }
        proof {
            if flat {
                assert(self.pos < self.tokens@.len());
                assert(t[self.pos as int].0 == self.tokens@[self.pos as int].kind);
            }
        }
        self.eat(TokenKind::RBrace);
        fields
    }

    fn parse_union(&mut self) -> (variants: Vec<Variant>)
        requires
            old(self).inv(),
        ensures
            final(self).advanced(*old(self)),
            old(self).cur_kind() != Some(TokenKind::Pipe) ==> variants@.len() == 0 && final(self).pos == old(
                self,
            ).pos && final(self).diagnostics@ == old(self).diagnostics@,
            variants_within(variants@, final(self).eof_span.end as int),
            ({
                let t = tok_fours(old(self).tokens@);
                let u = union_end(t, old(self).pos as int);
                u >= t.len() || t[u].0 != TokenKind::Pipe ==> final(self).pos == u && final(self).diagnostics@ == old(
                    self,
                ).diagnostics@ && variants_from(t, old(self).pos as int, variants@, u)
            }),
    {
        let ghost t = tok_fours(old(self).tokens@);
        let ghost j0 = old(self).pos as int;
        let ghost u = union_end(t, j0);
        let ghost clean = u >= t.len() || t[u].0 != TokenKind::Pipe;
        let mut variants: Vec<Variant> = Vec::new();
        while self.eat(TokenKind::Pipe).is_some()
            invariant
                t == tok_fours(self.tokens@),
                j0 == old(self).pos,
                u == union_end(t, j0),
                clean == (u >= t.len() || t[u].0 != TokenKind::Pipe),
                clean ==> self.diagnostics@ == old(self).diagnostics@ && union_end(t, self.pos as int) == u
                    && variants_from(t, j0, variants@, self.pos as int),
                self.advanced(*old(self)),
                old(self).cur_kind() != Some(TokenKind::Pipe) ==> variants@.len() == 0 && self.pos == old(self).pos
                    && self.diagnostics@ == old(self).diagnostics@,
                variants_within(variants@, self.eof_span.end as int),
            ensures
                self.advanced(*old(self)),
                old(self).cur_kind() != Some(TokenKind::Pipe) ==> variants@.len() == 0 && self.pos == old(self).pos
                    && self.diagnostics@ == old(self).diagnostics@,
                variants_within(variants@, self.eof_span.end as int),
                clean ==> self.pos == u && self.diagnostics@ == old(self).diagnostics@ && variants_from(
                    t,
                    j0,
                    variants@,
                    u,
                ),
            decreases self.tokens_left(),
        {
            let ghost pj = self.pos - 1;
            let ghost vs0 = variants@;
            proof {
                if clean {
                    assert(t[pj].0 == self.tokens@[pj].kind);
                    if !(pj + 1 < t.len() && t[pj + 1].0 == TokenKind::Ident && !(pj + 2 < t.len() && t[pj
                        + 2].0 == TokenKind::LBrace)) {
                        assert(union_end(t, pj) == pj);
                    }
                    assert(t[pj + 1].0 == self.tokens@[pj + 1].kind);
                }
            }
            if !self.at_name() {
                let span = self.cur_span();
                self.error(span, "expected a union variant name");
                break;
            }
            let name = self.expect_name("variant name");
            let record = if self.at(TokenKind::LBrace) {
                Some(self.parse_record())
            } else {
                None
            };
            let end = self.prev_end();
            let span = Span::new(name.span.start, end);
            let ghost v = Variant { name, record, span };
            variants.push(Variant { name, record, span });
            proof {
                if clean {
                    lemma_variants_push(t, j0, vs0, pj, v);
                    assert(variants@ == vs0.push(v));
                }
            }
        }
        variants
    }

    // --- types ------------------------------------------------------------
    fn parse_type(&mut self) -> (t: Type)
        requires
            old(self).inv(),
        ensures
            final(self).advanced(*old(self)),
            old(self).cur_kind() == Some(TokenKind::Ident) ==> final(self).pos > old(self).pos,
            type_within(t, final(self).eof_span.end as int),
            plain_type_end(tok_fours(old(self).tokens@), old(self).pos as int) matches Some(e) ==> final(self).pos
                == e && final(self).diagnostics@ == old(self).diagnostics@ && plain_type_ok(
                tok_fours(old(self).tokens@),
                old(self).pos as int,
                t,
            ),
        decreases old(self).tokens_left(), 2nat,
    {
        let ghost tt = tok_fours(old(self).tokens@);
        let ghost p0 = old(self).pos as int;
        let path = self.parse_path();
        proof {
            if plain_type_end(tt, p0) is Some {
                let e = path_end(tt, p0);
                if e < tt.len() {
                    assert(tt[e].0 == self.tokens@[e].kind);
                }
            }
        }
        self.finish_type(path)
    }

    /// Completes a type from an already-parsed base path: optional `<..>`
    /// generics and an optional `[]` array suffix.
    fn finish_type(&mut self, path: Path) -> (t: Type)
        requires
            old(self).inv(),
            path_within(path, old(self).eof_span.end as int),
        ensures
            type_within(t, final(self).eof_span.end as int),
            final(self).advanced(*old(self)),
            t.name == path,
            (t.generics@.len() == 0) == (old(self).cur_kind() != Some(TokenKind::LAngle)),
            old(self).cur_kind() != Some(TokenKind::LAngle) ==> t.is_array == (old(self).cur_kind() == Some(
                TokenKind::LBracket,
            ) && old(self).kind_at(old(self).pos + 1) == Some(TokenKind::RBracket)),
            old(self).cur_kind() != Some(TokenKind::LAngle) && old(self).cur_kind() != Some(TokenKind::LBracket)
                && old(self).cur_kind() != Some(TokenKind::Question) ==> final(self).pos == old(self).pos
                && final(self).diagnostics@ == old(self).diagnostics@,
        decreases old(self).tokens_left(), 1nat,
    {
        let mut span = path.span;
        let mut generics: Vec<Type> = Vec::new();
        if self.at(TokenKind::LAngle) {
            self.bump();
            loop
                invariant
                    self.advanced(*old(self)),
                    self.pos > old(self).pos,
                    forall|i: int|
                        0 <= i < generics@.len() ==> type_within(#[trigger] generics@[i], self.eof_span.end as int),
                ensures
                    generics@.len() > 0,
                    forall|i: int|
                        0 <= i < generics@.len() ==> type_within(#[trigger] generics@[i], self.eof_span.end as int),
                decreases self.tokens_left(),
            {
                generics.push(self.parse_type());
                if self.eat(TokenKind::Comma).is_none() {
                    break;
                }
            }
            match self.eat(TokenKind::RAngle) {
                Some(gt) => {
                    span = span.to(gt.span);
                },
                None => {
                    let s = self.cur_span();
                    self.error(s, "expected `>` to close generic arguments");
                },
            }
        }
        // `[]` array suffix: the only type suffix.
        if self.at(TokenKind::LBracket) && self.peek2_kind() == Some(TokenKind::RBracket) {
            self.bump();
            let rb = self.bump().unwrap();
            span = span.to(rb.span);
            return Type { name: path, generics, is_array: true, span };
        }
        // A `?` in type position is the removed optionality marker.
        if self.at(TokenKind::Question) {
            let q = self.cur_span();
            self.error(q, "unexpected `?` in type: no optionality marker");
            self.bump();
        }
        Type { name: path, generics, is_array: false, span }
    }

    // --- doc blocks, tags, macros -----------------------------------------
    /// Parses a run of `DOC`/`TAG` tokens into a doc block, splitting summary
    /// from extended description on the first blank `///` line.
    fn parse_doc_block(&mut self) -> (block: DocBlock)
        requires
            old(self).inv(),
        ensures
            final(self).advanced(*old(self)),
            final(self).diagnostics@ == old(self).diagnostics@,
            final(self).trivia_pos == old(self).trivia_pos,
            final(self).pos == doc_run_end(old(self).tokens@, old(self).pos as int),
            texts(block.summary@) == doc_fold(old(self).tokens@.subrange(old(self).pos as int, final(self).pos as int)).0,
            texts(block.extended@) == doc_fold(old(self).tokens@.subrange(old(self).pos as int, final(self).pos as int)).1,
            tag_views(block.tags@) == doc_fold(old(self).tokens@.subrange(old(self).pos as int, final(self).pos as int)).2,
            forall|i: int|
                0 <= i < block.tags@.len() ==> #[trigger] block.tags@[i].span.start
                    <= final(self).eof_span.end,
    {
        let mut block = DocBlock::default();
        let mut in_extended = false;
        let mut seen_summary = false;
        let ghost ts = self.tokens@;
        let ghost p0 = self.pos as int;
        assert(ts.subrange(p0, p0) =~= seq![]);
        assert(texts(block.summary@) =~= seq![]);
        assert(texts(block.extended@) =~= seq![]);
        assert(tag_views(block.tags@) =~= seq![]);
        while self.at(TokenKind::Doc) || self.at(TokenKind::Tag)
            invariant
                self.advanced(*old(self)),
                ts == self.tokens@,
                p0 == old(self).pos,
                p0 <= self.pos,
                self.diagnostics@ == old(self).diagnostics@,
                self.trivia_pos == old(self).trivia_pos,
                doc_run_end(ts, p0) == doc_run_end(ts, self.pos as int),
                (texts(block.summary@), texts(block.extended@), tag_views(block.tags@), in_extended, seen_summary)
                    == doc_fold(ts.subrange(p0, self.pos as int)),
                forall|i: int|
                    0 <= i < block.tags@.len() ==> #[trigger] block.tags@[i].span.start
                        <= self.eof_span.end,
            decreases self.tokens_left(),
        {
            let ghost q = self.pos as int;
            assert(ts.subrange(p0, q + 1).drop_last() =~= ts.subrange(p0, q));
            assert(ts.subrange(p0, q + 1).last() == ts[q]);
            let ghost tags_before = block.tags@;
            let token = self.bump().unwrap();
            assert(self.eof_span == old(self).eof_span);
            if token.kind == TokenKind::Doc {
                if token.text.as_str().is_empty() {
                    // A blank `///` line switches to the extended section once.
                    if seen_summary {
                        in_extended = true;
                    }
                } else if in_extended {
                    block.extended.push(token.text);
                    assert(texts(block.extended@) =~= doc_fold(ts.subrange(p0, self.pos as int)).1);
                } else {
                    block.summary.push(token.text);
                    seen_summary = true;
                    assert(texts(block.summary@) =~= doc_fold(ts.subrange(p0, self.pos as int)).0);
                }
                assert(block.tags@ == tags_before);
            } else {
                assert(token.span.start <= self.eof_span.end) by {
                    assert(token == self.tokens@[q]);
                }
                let ghost tags0 = block.tags@;
                block.tags.push(Tag { text: token.text, span: token.span });
                assert(forall|i: int| 0 <= i < tags0.len() ==> block.tags@[i] == tags0[i]);
                assert(tag_views(block.tags@) =~= doc_fold(ts.subrange(p0, self.pos as int)).2);
            }
            assert forall|i: int| 0 <= i < block.tags@.len() implies #[trigger] block.tags@[i].span.start
                <= self.eof_span.end by {
                if i < tags_before.len() {
                    assert(block.tags@[i] == tags_before[i]);
                }
            }
        }
        block
    }

    fn parse_macros(&mut self) -> (macros: Vec<Macro>)
        requires
            old(self).inv(),
        ensures
            final(self).advanced(*old(self)),
            forall|i: int| 0 <= i < macros@.len() ==> final(self).span_ok(#[trigger] macros@[i].span),
            final(self).cur_kind() != Some(TokenKind::HashLBracket),
            (macros@.len() == 0) == (old(self).cur_kind() != Some(TokenKind::HashLBracket)),
            macros@.len() == 0 ==> final(self).pos == old(self).pos && final(self).diagnostics@ == old(
                self,
            ).diagnostics@,
            macros@.len() > 0 ==> macros@[0].span.start == old(self).tokens@[old(self).pos as int].span.start,
    {
        let mut macros: Vec<Macro> = Vec::new();
        while self.at(TokenKind::HashLBracket)
            invariant
                self.advanced(*old(self)),
                (macros@.len() == 0) == (self.pos == old(self).pos),
                macros@.len() == 0 ==> self.cur_kind() == old(self).cur_kind() && self.diagnostics@ == old(
                    self,
                ).diagnostics@,
                macros@.len() > 0 ==> old(self).cur_kind() == Some(TokenKind::HashLBracket),
                macros@.len() > 0 ==> macros@[0].span.start == old(self).tokens@[old(self).pos as int].span.start,
                forall|i: int| 0 <= i < macros@.len() ==> self.span_ok(#[trigger] macros@[i].span),
            decreases self.tokens_left(),
        {
            macros.push(self.parse_macro());
        }
        macros
    }

    fn parse_macro(&mut self) -> (m: Macro)
        requires
            old(self).inv(),
            old(self).pos < old(self).tokens@.len(),
        ensures
            final(self).advanced(*old(self)),
            final(self).pos > old(self).pos,
            final(self).span_ok(m.span),
            m.span.start == old(self).tokens@[old(self).pos as int].span.start,
    {
        let open = self.bump().unwrap();
        let name = self.parse_path();
        let args = if self.at(TokenKind::LParen) {
            self.bump();
            let list = self.parse_macro_arg_list();
            self.eat(TokenKind::RParen);
            MacroArgs::List(list)
        } else if self.eat(TokenKind::Eq).is_some() {
            match self.parse_literal() {
                Some(lit) => MacroArgs::NameValue(lit),
                None => {
                    let s = self.cur_span();
                    self.error(s, "expected a literal after `=` in macro");
                    MacroArgs::Word
                },
            }
        } else {
            MacroArgs::Word
        };
        let end = match self.eat(TokenKind::RBracket) {
            Some(rb) => rb.span.end,
            None => {
                let s = self.cur_span();
                self.error(s, "expected `]` to close macro");
                self.prev_end()
            },
        };
        Macro { name, args, span: Span::new(open.span.start, end) }
    }

    /// Parses comma-separated macro arguments up to (not including) `)`.
    fn parse_macro_arg_list(&mut self) -> (list: Vec<MacroArg>)
        requires
            old(self).inv(),
        ensures
            final(self).advanced(*old(self)),
            (old(self).pos >= old(self).tokens@.len() || old(self).cur_kind() == Some(TokenKind::RParen)) ==> list@.len()
                == 0 && final(self).pos == old(self).pos && final(self).diagnostics@ == old(self).diagnostics@,
            (old(self).cur_kind() matches Some(k) && (k == TokenKind::String || k == TokenKind::Number || k
                == TokenKind::KwTrue || k == TokenKind::KwFalse || k == TokenKind::Ident)) ==> list@.len() > 0,
        decreases old(self).tokens_left(), 3nat,
    {
        let mut list: Vec<MacroArg> = Vec::new();
        while !self.is_eof() && !self.at(TokenKind::RParen)
            invariant
                self.advanced(*old(self)),
                (old(self).pos >= old(self).tokens@.len() || old(self).cur_kind() == Some(TokenKind::RParen)) ==> list@.len()
                    == 0 && self.pos == old(self).pos && self.diagnostics@ == old(self).diagnostics@,
                (old(self).cur_kind() matches Some(k) && (k == TokenKind::String || k == TokenKind::Number || k
                    == TokenKind::KwTrue || k == TokenKind::KwFalse || k == TokenKind::Ident)) ==> (list@.len() > 0
                    || self.pos == old(self).pos),
            ensures
                self.advanced(*old(self)),
                (old(self).pos >= old(self).tokens@.len() || old(self).cur_kind() == Some(TokenKind::RParen)) ==> list@.len()
                    == 0 && self.pos == old(self).pos && self.diagnostics@ == old(self).diagnostics@,
                (old(self).cur_kind() matches Some(k) && (k == TokenKind::String || k == TokenKind::Number || k
                    == TokenKind::KwTrue || k == TokenKind::KwFalse || k == TokenKind::Ident)) ==> list@.len() > 0,
            decreases self.tokens_left(),
        {
            match self.parse_macro_arg() {
                Some(arg) => list.push(arg),
                None => break,
            }
            if self.eat(TokenKind::Comma).is_none() {
                break;
            }
        }
        list
    }

    fn parse_macro_arg(&mut self) -> (a: Option<MacroArg>)
        requires
            old(self).inv(),
        ensures
            final(self).advanced(*old(self)),
            a is Some ==> final(self).pos > old(self).pos,
            (a is None) == !(old(self).cur_kind() matches Some(k) && (k == TokenKind::String || k == TokenKind::Number
                || k == TokenKind::KwTrue || k == TokenKind::KwFalse || k == TokenKind::Ident)),
            a is None ==> final(self).pos == old(self).pos && final(self).diagnostics@ == old(self).diagnostics@,
            old(self).cur_kind() matches Some(k) && (k == TokenKind::String || k == TokenKind::Number || k
                == TokenKind::KwTrue || k == TokenKind::KwFalse) ==> a == Some(
                MacroArg::Literal(literal_of_token(old(self).tokens@[old(self).pos as int])->0),
            ),
        decreases old(self).tokens_left(), 2nat,
    {
        let k = match self.peek_kind() {
            Some(k) => k,
            None => return None,
        };
        if k == TokenKind::String || k == TokenKind::Number || k == TokenKind::KwTrue || k
            == TokenKind::KwFalse {
            return match self.parse_literal() {
                Some(l) => Some(MacroArg::Literal(l)),
                None => None,
            };
        }
        if k != TokenKind::Ident {
            return None;
        }
        let path = self.parse_path();
        if self.at(TokenKind::LParen) || self.at(TokenKind::Eq) {
            // A nested meta item, e.g. `outer(inner(...))`.
            let args = if self.at(TokenKind::LParen) {
                self.bump();
                let list = self.parse_macro_arg_list();
                self.eat(TokenKind::RParen);
                MacroArgs::List(list)
            } else {
                self.bump();
                match self.parse_literal() {
                    Some(l) => MacroArgs::NameValue(l),
                    None => MacroArgs::Word,
                }
            };
            let span = path.span;
            Some(MacroArg::Nested(Box::new(Macro { name: path, args, span })))
        } else {
            Some(MacroArg::Path(path))
        }
    }

    // --- statements & blocks ----------------------------------------------
    fn parse_block(&mut self) -> (b: Block)
        requires
            old(self).inv(),
        ensures
            final(self).advanced(*old(self)),
            b.span.start == old(self).cur_span_spec().start,
            final(self).pos > old(self).pos || old(self).pos == old(self).tokens@.len(),
            final(self).pos == final(self).tokens@.len() || (final(self).tokens@[final(self).pos - 1].kind
                == TokenKind::RBrace && final(self).pos > old(self).pos + 1),
            block_within(b, final(self).eof_span.end as int),
        decreases old(self).tokens_left(), 5nat,
    {
        // The opening brace (at end of input there is none to consume).
        let open_start = match self.bump() {
            Some(t) => t.span.start,
            None => self.eof_span.start,
        };
        let mut stmts: Vec<Stmt> = Vec::new();
        while !self.is_eof() && !self.at(TokenKind::RBrace)
            invariant
                self.advanced(*old(self)),
                self.pos > old(self).pos || self.pos == self.tokens@.len(),
                open_start <= self.eof_span.end,
                forall|i: int|
                    0 <= i < stmts@.len() ==> stmt_kind_within(#[trigger] stmts@[i].kind, self.eof_span.end as int),
            decreases self.tokens_left(),
        {
            let before = self.pos;
            let stmt = self.parse_stmt();
            if self.pos == before {
                // Forward-progress guard: the current token cannot start a
                // statement and nothing was consumed (e.g. a stray `;`).
                let span = self.cur_span();
                self.error(span, "expected a statement");
                self.recover_in_block();
            } else if let Some(stmt) = stmt {
                stmts.push(stmt);
            }
        }
        let end = match self.eat(TokenKind::RBrace) {
            Some(t) => t.span.end,
            None => self.prev_end(),
        };
        Block { stmts, span: Span::new(open_start, end) }
    }

    fn parse_stmt(&mut self) -> (s: Option<Stmt>)
        requires
            old(self).inv(),
        ensures
            final(self).advanced(*old(self)),
            (s is None) == (old(self).pos >= old(self).tokens@.len()),
            s is None ==> final(self).pos == old(self).pos,
            s matches Some(st) ==> match old(self).cur_kind() {
                Some(TokenKind::KwReturn) => st.kind is Return,
                Some(TokenKind::KwIf) => st.kind is If,
                Some(TokenKind::KwFor) => st.kind is For,
                Some(TokenKind::KwWhile) => st.kind is While,
                Some(TokenKind::Ident) => if old(self).kind_at(old(self).pos + 1) == Some(TokenKind::Eq)
                    || old(self).kind_at(old(self).pos + 1) == Some(TokenKind::Colon) {
                    st.kind is Assign
                } else {
                    st.kind is Expr
                },
                _ => st.kind is Expr,
            },
            s matches Some(st) ==> stmt_kind_within(st.kind, final(self).eof_span.end as int),
        decreases old(self).tokens_left(), 4nat,
    {
        let cur = self.cur_span().start;
        let leading_trivia = self.take_trivia_before(cur);
        let start = if leading_trivia.len() > 0 {
            leading_trivia[0].span.start
        } else {
            self.cur_span().start
        };
        let k = match self.peek_kind() {
            Some(k) => k,
            None => return None,
        };
        let kind = if k == TokenKind::KwReturn {
            self.parse_return()
        } else if k == TokenKind::KwIf {
            self.parse_if()
        } else if k == TokenKind::KwFor {
            self.parse_for()
        } else if k == TokenKind::KwWhile {
            self.parse_while()
        } else if k == TokenKind::Ident && self.peek2_kind() == Some(TokenKind::Eq) {
            // `name = Expr` binds a name once.
            let name = self.expect_ident("binding name");
            self.bump();
            let value = self.parse_expr();
            StmtKind::Assign { name, value }
        } else if k == TokenKind::Ident && self.peek2_kind() == Some(TokenKind::Colon) {
            // Binding annotations are removed: recover from the old
            // `name: Type = Expr` shape with one precise diagnostic.
            let name = self.expect_ident("binding name");
            self.bump();
            let _ty = self.parse_type();
            self.eat(TokenKind::Eq);
            let value = self.parse_expr();
            self.error(
                name.span,
                "a binding states its type through `from`: write `name = Type from …`",
            );
            StmtKind::Assign { name, value }
        } else {
            StmtKind::Expr(self.parse_expr())
        };
        let span = Span::new(start, self.prev_end());
        Some(Stmt { kind, leading_trivia, span })
    }

    fn parse_return(&mut self) -> (k: StmtKind)
        requires
            old(self).inv(),
            old(self).pos < old(self).tokens@.len(),
        ensures
            final(self).advanced(*old(self)),
            final(self).pos > old(self).pos,
            k is Return,
            stmt_kind_within(k, final(self).eof_span.end as int),
        decreases old(self).tokens_left(), 3nat,
    {
        self.bump();
        // A bare `return` (no expression) is valid for void callables.
        let value = if self.starts_expr() {
            Some(self.parse_expr())
        } else {
            None
        };
        StmtKind::Return(value)
    }

    fn parse_if(&mut self) -> (k: StmtKind)
        requires
            old(self).inv(),
            old(self).pos < old(self).tokens@.len(),
        ensures
            final(self).advanced(*old(self)),
            final(self).pos > old(self).pos,
            k is If,
            stmt_kind_within(k, final(self).eof_span.end as int),
        decreases old(self).tokens_left(), 3nat,
    {
        self.bump();
        let cond = self.parse_paren_cond();
        let then_block = self.parse_block();
        let else_block = if self.eat(TokenKind::KwElse).is_some() {
            Some(self.parse_block())
        } else {
            None
        };
        StmtKind::If { cond, then_block, else_block }
    }

    fn parse_for(&mut self) -> (k: StmtKind)
        requires
            old(self).inv(),
            old(self).pos < old(self).tokens@.len(),
        ensures
            final(self).advanced(*old(self)),
            final(self).pos > old(self).pos,
            k is For,
            stmt_kind_within(k, final(self).eof_span.end as int),
        decreases old(self).tokens_left(), 3nat,
    {
        self.bump();
        self.eat(TokenKind::LParen);
        let binding = self.expect_ident("loop binding");
        self.eat(TokenKind::KwIn);
        let iter = self.parse_expr();
        self.eat(TokenKind::RParen);
        let body = self.parse_block();
        StmtKind::For { binding, iter, body }
    }

    fn parse_while(&mut self) -> (k: StmtKind)
        requires
            old(self).inv(),
            old(self).pos < old(self).tokens@.len(),
        ensures
            final(self).advanced(*old(self)),
            final(self).pos > old(self).pos,
            k is While,
            stmt_kind_within(k, final(self).eof_span.end as int),
        decreases old(self).tokens_left(), 3nat,
    {
        self.bump();
        let cond = self.parse_paren_cond();
        let body = self.parse_block();
        StmtKind::While { cond, body }
    }

    fn parse_paren_cond(&mut self) -> (e: Expr)
        requires
            old(self).inv(),
        ensures
            final(self).advanced(*old(self)),
            expr_within(e, final(self).eof_span.end as int),
    {
        self.eat(TokenKind::LParen);
        let cond = self.parse_expr();
        self.eat(TokenKind::RParen);
        cond
    }

    // --- expressions ------------------------------------------------------
    fn starts_expr(&self) -> (r: bool)
        requires
            self.inv(),
        ensures
            r == (self.cur_kind() matches Some(k) && starts_expr_kind(k)),
    {
        match self.peek_kind() {
            Some(k) => k == TokenKind::KwOk || k == TokenKind::KwErr || k == TokenKind::KwSome || k
                == TokenKind::KwNone || k == TokenKind::KwSelf || k == TokenKind::Ident || k
                == TokenKind::String || k == TokenKind::Number || k == TokenKind::KwTrue || k
                == TokenKind::KwFalse || k == TokenKind::Bang || k == TokenKind::Minus || k
                == TokenKind::LParen,
            None => false,
        }
    }

    /// Whether the cursor begins a `Type from …` head: a type path, optional
    /// `<…>` generics and `[]` suffix, then `from`. Lookahead only.
    fn at_from_head(&self) -> (r: bool)
        requires
            self.inv(),
        ensures
            r ==> self.cur_kind() == Some(TokenKind::Ident),
            r == from_head_at(self.tokens@, self.pos as int),
    {
        if !self.at(TokenKind::Ident) {
            return false;
        }
        let ghost ts = self.tokens@;
        let ghost p = self.pos as int;
        let n = self.tokens.len();
        // Skip the `::`-path: Ident { "::" Ident }.
        let mut i = self.pos + 1;
        while i < n && self.tokens[i].kind == TokenKind::ColonColon
            invariant
                self.pos < i <= n,
                n == self.tokens@.len(),
                ts == self.tokens@,
                p == self.pos,
                p < ts.len() && ts[p].kind == TokenKind::Ident,
                path_tail_end(ts, p + 1) == path_tail_end(ts, i as int),
            decreases n - i,
        {
            if !(i + 1 < n && self.tokens[i + 1].kind == TokenKind::Ident) {
                return false;
            }
            i = i + 2;
        }
        let ghost a = i as int;
        assert(path_tail_end(ts, p + 1) == a);
        // Optional `<…>` generics: scan to the balanced close.
        if i < n && self.tokens[i].kind == TokenKind::LAngle {
            let mut depth: usize = 1;
            i = i + 1;
            loop
                invariant_except_break
                    1 <= depth <= i,
                    generics_end(ts, a + 1, 1) == generics_end(ts, i as int, depth as int),
                invariant
                    i <= n,
                    n == self.tokens@.len(),
                    ts == self.tokens@,
                    p == self.pos,
                    p < ts.len() && ts[p].kind == TokenKind::Ident,
                    path_tail_end(ts, p + 1) == a,
                    0 <= a < n && ts[a].kind == TokenKind::LAngle,
                ensures
                    generics_end(ts, a + 1, 1) == i as int,
                decreases n - i,
            {
                if i >= n {
                    // End of input inside the argument list.
                    return false;
                }
                match self.tokens[i].kind {
                    TokenKind::LAngle => {
                        depth = depth + 1;
                    },
                    TokenKind::RAngle => {
                        depth = depth - 1;
                        if depth == 0 {
                            i = i + 1;
                            break;
                        }
                    },
                    // Tokens that may appear inside a type-argument list.
                    TokenKind::Ident | TokenKind::ColonColon | TokenKind::Comma
                    | TokenKind::LBracket | TokenKind::RBracket => {},
                    // Anything else (operator, literal): not generics.
                    _ => return false,
                }
                i = i + 1;
            }
        }
        // Optional `[]` array suffix.
        if i < n && i + 1 < n && self.tokens[i].kind == TokenKind::LBracket
            && self.tokens[i + 1].kind == TokenKind::RBracket {
            i = i + 2;
        }
        i < n && self.tokens[i].kind == TokenKind::KwFrom
    }

    fn parse_expr(&mut self) -> (e: Expr)
        requires
            old(self).inv(),
        ensures
            final(self).advanced(*old(self)),
            (old(self).cur_kind() matches Some(k) && (k == TokenKind::KwOk || k == TokenKind::KwErr || k == TokenKind::KwSome
                || k == TokenKind::KwNone)) ==> (e.kind is Marker || (e.kind matches ExprKind::Postfix { base, .. }
                && base.kind is Marker)),
            (from_head_at(old(self).tokens@, old(self).pos as int) && !(old(self).cur_kind() matches Some(k) && (k
                == TokenKind::KwOk || k == TokenKind::KwErr || k == TokenKind::KwSome || k == TokenKind::KwNone)))
                ==> (e.kind is From || (e.kind matches ExprKind::Postfix { base, .. } && base.kind is From)),
            expr_within(e, final(self).eof_span.end as int),
            ops_spelled(e, final(self).tokens@),
        decreases old(self).tokens_left(), 30nat,
    {
        // A marker and a `from` head do not combine with binary operators;
        // both are detected before the precedence cascade.
        let k = self.peek_kind();
        if k == Some(TokenKind::KwOk) || k == Some(TokenKind::KwErr) || k == Some(TokenKind::KwSome)
            || k == Some(TokenKind::KwNone) {
            let marker = self.parse_marker();
            let expr = self.parse_postfix(marker);
            self.reject_operator_after_head();
            return expr;
        }
        if self.at_from_head() {
            let ty = self.parse_type();
            let from = self.parse_from(ty);
            let expr = self.parse_postfix(from);
            self.reject_operator_after_head();
            return expr;
        }
        self.parse_or()
    }

    /// A marker or `from` head is not an operand of a binary operator: if one
    /// follows the head, report it (leaving it for the enclosing context).
    fn reject_operator_after_head(&mut self)
        requires
            old(self).inv(),
        ensures
            final(self).advanced(*old(self)),
            final(self).pos == old(self).pos,
            final(self).trivia_pos == old(self).trivia_pos,
            !(old(self).cur_kind() matches Some(k) && is_binary_op_kind(k)) ==> final(self).diagnostics@
                == old(self).diagnostics@,
            (old(self).cur_kind() matches Some(k) && is_binary_op_kind(k)) ==> final(self).diagnostics@.len()
                == old(self).diagnostics@.len() + 1 && final(self).diagnostics@.take(
                old(self).diagnostics@.len() as int,
            ) == old(self).diagnostics@ && final(self).diagnostics@.last().span == old(self).tokens@[old(
                self,
            ).pos as int].span && final(self).diagnostics@.last().message@
                == "a `from` or marker expression is not an operand of a binary operator"@,
    {
        let is_op = match self.peek_kind() {
            Some(k) => k == TokenKind::PipePipe || k == TokenKind::AmpAmp || k == TokenKind::EqEq
                || k == TokenKind::BangEq || k == TokenKind::LAngle || k == TokenKind::RAngle || k
                == TokenKind::LAngleEq || k == TokenKind::RAngleEq || k == TokenKind::Plus || k
                == TokenKind::Minus || k == TokenKind::Star || k == TokenKind::Slash || k
                == TokenKind::Percent,
            None => false,
        };
        if is_op {
            let s = self.cur_span();
            self.error(
                s,
                "a `from` or marker expression is not an operand of a binary operator",
            );
        }
    }

    /// Parses one left-associative binary level: `next { op next }`, where
    /// `next` is the level below (`level` 1 bottoms out at unary).
    fn parse_binary_level(&mut self, level: u8) -> (e: Expr)
        requires
            old(self).inv(),
            1 <= level <= 6,
        ensures
            final(self).advanced(*old(self)),
            binds_within(e, level as int),
            expr_within(e, final(self).eof_span.end as int),
            ops_spelled(e, final(self).tokens@),
        decreases old(self).tokens_left(), 3 * level + 10,
    {
        let mut left = self.parse_level_operand(level);
        loop
            invariant
                self.advanced(*old(self)),
                1 <= level <= 6,
                binds_within(left, level as int),
                expr_within(left, self.eof_span.end as int),
                ops_spelled(left, self.tokens@),
            decreases self.tokens_left(),
        {
            let op = match self.peek_kind() {
                Some(k) => binary_op(level, k),
                None => None,
            };
            let op = match op {
                Some(op) => op,
                None => break,
            };
            let ghost p = self.pos as int;
            let op_span = self.bump().unwrap().span;
            let right = self.parse_level_operand(level);
            assert(self.tokens@[p].span == op_span && level_op(level, self.tokens@[p].kind) == Some(op));
            let span = left.span.to(right.span);
            left = Expr {
                kind: ExprKind::Binary { left: Box::new(left), op, op_span, right: Box::new(right) },
                span,
            };
        }
        left
    }

    /// The operand parser of a binary level: the next-tighter level.
    fn parse_level_operand(&mut self, level: u8) -> (e: Expr)
        requires
            old(self).inv(),
            1 <= level <= 6,
        ensures
            final(self).advanced(*old(self)),
            binds_within(e, level - 1),
            expr_within(e, final(self).eof_span.end as int),
            ops_spelled(e, final(self).tokens@),
            level == 1 && old(self).cur_kind() == Some(TokenKind::Bang) ==> (e.kind matches ExprKind::Unary { op, .. }
                && op == UnaryOp::Not),
            level == 1 && old(self).cur_kind() == Some(TokenKind::Minus) ==> (e.kind matches ExprKind::Unary { op, .. }
                && op == UnaryOp::Neg),
        decreases old(self).tokens_left(), 3 * level + 9,
    {
        if level == 6 {
            self.parse_and()
        } else if level == 5 {
            self.parse_eq()
        } else if level == 4 {
            self.parse_rel()
        } else if level == 3 {
            self.parse_add()
        } else if level == 2 {
            self.parse_mul()
        } else {
            self.parse_unary()
        }
    }

    fn parse_or(&mut self) -> (e: Expr)
        requires
            old(self).inv(),
        ensures
            final(self).advanced(*old(self)),
            binds_within(e, 6),
            expr_within(e, final(self).eof_span.end as int),
            ops_spelled(e, final(self).tokens@),
        decreases old(self).tokens_left(), 29nat,
    {
        self.parse_binary_level(6)
    }

    fn parse_and(&mut self) -> (e: Expr)
        requires
            old(self).inv(),
        ensures
            final(self).advanced(*old(self)),
            binds_within(e, 5),
            expr_within(e, final(self).eof_span.end as int),
            ops_spelled(e, final(self).tokens@),
        decreases old(self).tokens_left(), 26nat,
    {
        self.parse_binary_level(5)
    }

    fn parse_eq(&mut self) -> (e: Expr)
        requires
            old(self).inv(),
        ensures
            final(self).advanced(*old(self)),
            binds_within(e, 4),
            expr_within(e, final(self).eof_span.end as int),
            ops_spelled(e, final(self).tokens@),
        decreases old(self).tokens_left(), 23nat,
    {
        self.parse_binary_level(4)
    }

    fn parse_rel(&mut self) -> (e: Expr)
        requires
            old(self).inv(),
        ensures
            final(self).advanced(*old(self)),
            binds_within(e, 3),
            expr_within(e, final(self).eof_span.end as int),
            ops_spelled(e, final(self).tokens@),
        decreases old(self).tokens_left(), 20nat,
    {
        self.parse_binary_level(3)
    }

    fn parse_add(&mut self) -> (e: Expr)
        requires
            old(self).inv(),
        ensures
            final(self).advanced(*old(self)),
            binds_within(e, 2),
            expr_within(e, final(self).eof_span.end as int),
            ops_spelled(e, final(self).tokens@),
        decreases old(self).tokens_left(), 17nat,
    {
        self.parse_binary_level(2)
    }

    fn parse_mul(&mut self) -> (e: Expr)
        requires
            old(self).inv(),
        ensures
            final(self).advanced(*old(self)),
            binds_within(e, 1),
            expr_within(e, final(self).eof_span.end as int),
            ops_spelled(e, final(self).tokens@),
        decreases old(self).tokens_left(), 14nat,
    {
        self.parse_binary_level(1)
    }

    /// Parses a prefix unary (`!` / `-`) or, failing that, a postfix chain
    /// over a primary.
    fn parse_unary(&mut self) -> (e: Expr)
        requires
            old(self).inv(),
        ensures
            final(self).advanced(*old(self)),
            old(self).cur_kind() == Some(TokenKind::Bang) ==> (e.kind matches ExprKind::Unary { op, op_span, .. } && op
                == UnaryOp::Not && op_span == old(self).tokens@[old(self).pos as int].span),
            old(self).cur_kind() == Some(TokenKind::Minus) ==> (e.kind matches ExprKind::Unary { op, op_span, .. } && op
                == UnaryOp::Neg && op_span == old(self).tokens@[old(self).pos as int].span),
            !(e.kind is Binary),
            expr_within(e, final(self).eof_span.end as int),
        decreases old(self).tokens_left(), 10nat,
    {
        let op = match self.peek_kind() {
            Some(TokenKind::Bang) => Some(UnaryOp::Not),
            Some(TokenKind::Minus) => Some(UnaryOp::Neg),
            _ => None,
        };
        if let Some(op) = op {
            let token = self.bump().unwrap();
            let expr = self.parse_unary();
            let span = token.span.to(expr.span);
            return Expr { kind: ExprKind::Unary { op, op_span: token.span, expr: Box::new(expr) }, span };
        }
        let base = self.parse_primary();
        self.parse_postfix(base)
    }

    fn parse_primary(&mut self) -> (e: Expr)
        requires
            old(self).inv(),
        ensures
            final(self).advanced(*old(self)),
            old(self).cur_kind() matches Some(k) && (k == TokenKind::String || k == TokenKind::Number || k
                == TokenKind::KwTrue || k == TokenKind::KwFalse) ==> e.kind == ExprKind::Literal(
                literal_of_token(old(self).tokens@[old(self).pos as int])->0,
            ) && e.span == old(self).tokens@[old(self).pos as int].span && final(self).pos == old(self).pos + 1
                && final(self).diagnostics@ == old(self).diagnostics@,
            !(e.kind is Binary),
            expr_within(e, final(self).eof_span.end as int),
        decreases old(self).tokens_left(), 9nat,
    {
        let k = self.peek_kind();
        if k == Some(TokenKind::String) || k == Some(TokenKind::Number) || k == Some(
            TokenKind::KwTrue,
        ) || k == Some(TokenKind::KwFalse) {
            let lit = self.parse_literal().unwrap();
            let span = lit.span();
            return Expr { kind: ExprKind::Literal(lit), span };
        }
        if k == Some(TokenKind::KwSelf) {
            // `self.` is removed; a same-node call is a bare `Name(args)`.
            // Recover `self.Name(args)` as that call so only this diagnostic
            // surfaces.
            let token = self.bump().unwrap();
            if self.eat(TokenKind::Dot).is_some() {
                let name = self.expect_ident("callable name");
                let (args, end) = if self.at(TokenKind::LParen) {
                    self.parse_call_args()
                } else {
                    (Vec::new(), name.span.end)
                };
                let span = Span::new(token.span.start, end);
                self.error(span, "`self.` is removed; call `Name(args)` directly");
                return Expr { kind: ExprKind::OwnCall { name, args }, span };
            } else {
                self.error(
                    token.span,
                    "`self` is removed; call a same-node callable as `Name(args)`",
                );
                return Expr {
                    kind: ExprKind::Ref(Ref::Path(Path { segments: Vec::new(), span: token.span })),
                    span: token.span,
                };
            }
        }
        if k == Some(TokenKind::LParen) {
            let open = self.bump().unwrap();
            let inner = self.parse_expr();
            let end = match self.eat(TokenKind::RParen) {
                Some(t) => t.span.end,
                None => inner.span.end,
            };
            return Expr { kind: ExprKind::Paren(Box::new(inner)), span: Span::new(open.span.start, end) };
        }
        if k == Some(TokenKind::Ident) {
            // A path here is a plain value reference; a single-segment path
            // immediately followed by `(` is a bare same-node call.
            let path = self.parse_path();
            if path.segments.len() == 1 && self.at(TokenKind::LParen) {
                let start = path.span.start;
                let mut segments = path.segments;
                let name = segments.remove(0);
                let (args, end) = self.parse_call_args();
                return Expr { kind: ExprKind::OwnCall { name, args }, span: Span::new(start, end) };
            } else {
                let span = path.span;
                return Expr { kind: ExprKind::Ref(Ref::Path(path)), span };
            }
        }
        // Not an expression: synthesise an empty path ref so callers need not
        // special-case a missing operand.
        let span = self.cur_span();
        self.error(span, "expected an expression");
        Expr { kind: ExprKind::Ref(Ref::Path(Path { segments: Vec::new(), span })), span }
    }

    fn parse_marker(&mut self) -> (e: Expr)
        requires
            old(self).inv(),
            old(self).cur_kind() == Some(TokenKind::KwOk) || old(self).cur_kind() == Some(
                TokenKind::KwErr,
            ) || old(self).cur_kind() == Some(TokenKind::KwSome) || old(self).cur_kind() == Some(
                TokenKind::KwNone,
            ),
        ensures
            final(self).advanced(*old(self)),
            final(self).pos > old(self).pos,
            e.kind is Marker,
            expr_within(e, final(self).eof_span.end as int),
        decreases old(self).tokens_left(), 25nat,
    {
        let token = self.bump().unwrap();
        let kind = if token.kind == TokenKind::KwOk {
            MarkerKind::OkMarker
        } else if token.kind == TokenKind::KwErr {
            MarkerKind::ErrMarker
        } else if token.kind == TokenKind::KwSome {
            MarkerKind::SomeMarker
        } else {
            MarkerKind::NoneMarker
        };
        let mut end = token.span.end;
        let payload = if self.at(TokenKind::LParen) {
            self.bump();
            let inner = self.parse_expr();
            end = match self.eat(TokenKind::RParen) {
                Some(t) => t.span.end,
                None => inner.span.end,
            };
            Some(Box::new(inner))
        } else {
            None
        };
        Expr { kind: ExprKind::Marker { kind, payload }, span: Span::new(token.span.start, end) }
    }

    fn parse_from(&mut self, ty: Type) -> (e: Expr)
        requires
            old(self).inv(),
            type_within(ty, old(self).eof_span.end as int),
        ensures
            expr_within(e, final(self).eof_span.end as int),
            final(self).advanced(*old(self)),
            (e.kind matches ExprKind::From { ty: t, .. } && t == ty),
            e.span.start == ty.span.start,
            old(self).cur_kind() == Some(TokenKind::KwFrom) && old(self).kind_at(old(self).pos + 1) == Some(
                TokenKind::LBrace,
            ) ==> (e.kind matches ExprKind::From { source, .. } && source is Compose),
        decreases old(self).tokens_left() + 1, 1nat,
    {
        let start = ty.span.start;
        if self.eat(TokenKind::KwFrom).is_none() {
            let s = self.cur_span();
            self.error(s, "expected `from` after the target type");
        }
        // `{` opens a source set (composition); anything else is a
        // single-value conversion.
        let source = if self.at(TokenKind::LBrace) {
            FromSource::Compose(self.parse_from_sources())
        } else {
            FromSource::Convert(Box::new(self.parse_expr()))
        };
        let span = Span::new(start, self.prev_end());
        Expr { kind: ExprKind::From { ty, source }, span }
    }

    /// Parses a `from` brace source set `{ a, b }`: comma-separated bare
    /// expressions, possibly empty.
    fn parse_from_sources(&mut self) -> (sources: Vec<Expr>)
        requires
            old(self).inv(),
            old(self).cur_kind() == Some(TokenKind::LBrace),
        ensures
            final(self).advanced(*old(self)),
            final(self).pos > old(self).pos,
            final(self).pos == final(self).tokens@.len() || final(self).tokens@[final(self).pos - 1].kind
                == TokenKind::RBrace,
            forall|i: int| 0 <= i < sources@.len() ==> expr_within(#[trigger] sources@[i], final(self).eof_span.end as int),
        decreases old(self).tokens_left() + 1, 0nat,
    {
        self.eat(TokenKind::LBrace);
        let mut sources: Vec<Expr> = Vec::new();
        while !self.is_eof() && !self.at(TokenKind::RBrace)
            invariant
                self.advanced(*old(self)),
                self.pos > old(self).pos,
                forall|i: int| 0 <= i < sources@.len() ==> expr_within(#[trigger] sources@[i], self.eof_span.end as int),
            ensures
                self.advanced(*old(self)),
                self.pos > old(self).pos,
                self.pos >= self.tokens@.len() || self.cur_kind() == Some(TokenKind::RBrace),
                forall|i: int| 0 <= i < sources@.len() ==> expr_within(#[trigger] sources@[i], self.eof_span.end as int),
            decreases self.tokens_left(),
        {
            sources.push(self.parse_expr());
            if self.eat(TokenKind::Comma).is_some() {
                continue;
            }
            if !self.at(TokenKind::RBrace) {
                // A source set separates entries with `,` and closes with `}`.
                // A `key: value` colon is the common mistake: `from` takes bare
                // references. Point at the fix, drop the mis-parsed label, and
                // skip to this set's own `}` (counting nested braces).
                if self.at(TokenKind::Colon) {
                    sources.pop();
                    let s = self.cur_span();
                    self.error(
                        s,
                        "`from` takes bare references, not `field: value` — bind the value to a name and list the name",
                    );
                } else {
                    let s = self.cur_span();
                    self.error(s, "expected `,` or `}` in `from` source set");
                }
                let ghost p = self.pos as int;
                self.skip_to_set_close();
                proof {
                    lemma_set_close(self.tokens@, p, 0);
                }
            }
            break;
        }
        self.eat(TokenKind::RBrace);
        sources
    }

    /// Skips to the `}` closing the current brace set, counting nested
    /// braces, leaving that `}` unconsumed.
    fn skip_to_set_close(&mut self)
        requires
            old(self).inv(),
        ensures
            final(self).advanced(*old(self)),
            final(self).diagnostics@ == old(self).diagnostics@,
            final(self).trivia_pos == old(self).trivia_pos,
            final(self).pos == set_close_at(old(self).tokens@, old(self).pos as int, 0),
    {
        let mut depth: usize = 0;
        let mut done = false;
        while !done && !self.is_eof()
            invariant
                self.advanced(*old(self)),
                self.diagnostics@ == old(self).diagnostics@,
                self.trivia_pos == old(self).trivia_pos,
                depth <= self.pos,
                done ==> self.pos == set_close_at(old(self).tokens@, old(self).pos as int, 0),
                !done ==> set_close_at(old(self).tokens@, old(self).pos as int, 0) == set_close_at(
                    self.tokens@,
                    self.pos as int,
                    depth as int,
                ),
            decreases self.tokens_left(), if done { 0int } else { 1int },
        {
            let k = self.peek_kind();
            if k == Some(TokenKind::LBrace) {
                assert(depth < self.tokens.len());
                depth = depth + 1;
                self.bump();
            } else if k == Some(TokenKind::RBrace) {
                if depth == 0 {
                    done = true;
                } else {
                    depth = depth - 1;
                    self.bump();
                }
            } else {
                self.bump();
            }
        }
    }

    /// Parses chained `.name` / `.name(args)` segments onto `base`.
    fn parse_postfix(&mut self, base: Expr) -> (e: Expr)
        requires
            old(self).inv(),
            expr_within(base, old(self).eof_span.end as int),
        ensures
            expr_within(e, final(self).eof_span.end as int),
            final(self).advanced(*old(self)),
            old(self).cur_kind() != Some(TokenKind::Dot) ==> e == base && final(self).pos == old(self).pos
                && final(self).diagnostics@ == old(self).diagnostics@,
            old(self).cur_kind() == Some(TokenKind::Dot) ==> (e.kind matches ExprKind::Postfix { base: b, segments }
                && *b == base && segments@.len() > 0 && segments@[0].span.start == old(self).tokens@[old(
                self,
            ).pos as int].span.start) && e.span.start == base.span.start,
            !(base.kind is Binary) ==> !(e.kind is Binary),
        decreases old(self).tokens_left(), 8nat,
    {
        if !self.at(TokenKind::Dot) {
            return base;
        }
        let start = base.span.start;
        let base_end = base.span.end;
        let mut segments: Vec<PostfixSeg> = Vec::new();
        while self.at(TokenKind::Dot)
            invariant
                self.advanced(*old(self)),
                (segments@.len() == 0) == (self.pos == old(self).pos),
                segments@.len() > 0 ==> segments@[0].span.start == old(self).tokens@[old(self).pos as int].span.start,
                forall|i: int| 0 <= i < segments@.len() ==> seg_within(#[trigger] segments@[i], self.eof_span.end as int),
            decreases self.tokens_left(),
        {
            let dot = self.bump().unwrap();
            let name = self.expect_ident("member name");
            let (call_args, end) = if self.at(TokenKind::LParen) {
                let (args, end) = self.parse_call_args();
                (Some(args), end)
            } else {
                (None, name.span.end)
            };
            segments.push(PostfixSeg { name, call_args, span: Span::new(dot.span.start, end) });
        }
        let end = if segments.len() > 0 {
            segments[segments.len() - 1].span.end
        } else {
            base_end
        };
        Expr {
            kind: ExprKind::Postfix { base: Box::new(base), segments },
            span: Span::new(start, end),
        }
    }

    /// Parses a call argument list `"(" [ Expr { "," Expr } ] ")"`, the
    /// current token being the open paren. Returns the arguments and the end
    /// offset (the open paren's end when the list is unterminated).
    fn parse_call_args(&mut self) -> (r: (Vec<Expr>, u32))
        requires
            old(self).inv(),
            old(self).pos < old(self).tokens@.len(),
        ensures
            final(self).advanced(*old(self)),
            final(self).pos > old(self).pos,
            r.1 <= final(self).eof_span.end,
            forall|i: int| 0 <= i < r.0@.len() ==> expr_within(#[trigger] r.0@[i], final(self).eof_span.end as int),
        decreases old(self).tokens_left(), 7nat,
    {
        let open = self.bump().unwrap();
        let mut args: Vec<Expr> = Vec::new();
        while !self.is_eof() && !self.at(TokenKind::RParen)
            invariant
                self.advanced(*old(self)),
                self.pos > old(self).pos,
                forall|i: int| 0 <= i < args@.len() ==> expr_within(#[trigger] args@[i], self.eof_span.end as int),
            decreases self.tokens_left(),
        {
            args.push(self.parse_expr());
            if self.eat(TokenKind::Comma).is_none() {
                break;
            }
        }
        let end = match self.eat(TokenKind::RParen) {
            Some(t) => t.span.end,
            None => open.span.end,
        };
        (args, end)
    }

    fn parse_literal(&mut self) -> (l: Option<Literal>)
        requires
            old(self).inv(),
        ensures
            final(self).advanced(*old(self)),
            (old(self).cur_kind() == Some(TokenKind::String) || old(self).cur_kind() == Some(
                TokenKind::Number,
            ) || old(self).cur_kind() == Some(TokenKind::KwTrue) || old(self).cur_kind() == Some(
                TokenKind::KwFalse,
            )) ==> l is Some && final(self).pos == old(self).pos + 1,
            l is None ==> final(self).pos == old(self).pos,
            final(self).diagnostics@ == old(self).diagnostics@,
            final(self).trivia_pos == old(self).trivia_pos,
            l == (if old(self).pos < old(self).tokens@.len() {
                literal_of_token(old(self).tokens@[old(self).pos as int])
            } else {
                None
            }),
    {
        let k = match self.peek_kind() {
            Some(k) => k,
            None => return None,
        };
        if k == TokenKind::String {
            let token = self.bump().unwrap();
            Some(Literal::String { raw: token.text, span: token.span })
        } else if k == TokenKind::Number {
            let token = self.bump().unwrap();
            Some(Literal::Number { raw: token.text, span: token.span })
        } else if k == TokenKind::KwTrue {
            let token = self.bump().unwrap();
            Some(Literal::Bool { value: true, span: token.span })
        } else if k == TokenKind::KwFalse {
            let token = self.bump().unwrap();
            Some(Literal::Bool { value: false, span: token.span })
        } else {
            None
        }
    }

    // --- paths & idents ---------------------------------------------------
    fn parse_path(&mut self) -> (p: Path)
        requires
            old(self).inv(),
        ensures
            final(self).advanced(*old(self)),
            old(self).cur_kind() == Some(TokenKind::Ident) ==> final(self).pos > old(self).pos,
            path_within(p, final(self).eof_span.end as int),
            ({
                let t = tok_fours(old(self).tokens@);
                let e = path_end(t, old(self).pos as int);
                old(self).cur_kind() == Some(TokenKind::Ident) && (e >= t.len() || t[e].0 != TokenKind::ColonColon)
                    ==> final(self).pos == e && final(self).diagnostics@ == old(self).diagnostics@ && path_segs_ok(
                    t,
                    old(self).pos as int,
                    p.segments@,
                    p.span,
                )
            }),
    {
        let ghost t = tok_fours(old(self).tokens@);
        let ghost i0 = old(self).pos as int;
        let ghost e = path_end(t, i0);
        let ghost clean = old(self).cur_kind() == Some(TokenKind::Ident) && (e >= t.len() || t[e].0
            != TokenKind::ColonColon);
        let mut segments: Vec<Ident> = Vec::new();
        let start = self.cur_span().start;
        if self.at(TokenKind::Ident) {
            segments.push(self.expect_ident("path segment"));
            while self.at(TokenKind::ColonColon)
                invariant
                    self.advanced(*old(self)),
                    self.pos > old(self).pos,
                    t == tok_fours(self.tokens@),
                    i0 == old(self).pos,
                    e == path_end(t, i0),
                    clean == (old(self).cur_kind() == Some(TokenKind::Ident) && (e >= t.len() || t[e].0
                        != TokenKind::ColonColon)),
                    clean ==> self.diagnostics@ == old(self).diagnostics@,
                    clean ==> path_end(t, self.pos - 1) == e,
                    clean ==> self.pos == i0 + 2 * segments@.len() - 1 && segments@.len() >= 1,
                    clean ==> forall|j: int|
                        0 <= j < segments@.len() ==> (#[trigger] segments@[j]).name@ == t[i0 + 2 * j].3
                            && segments@[j].span.start == t[i0 + 2 * j].1 && segments@[j].span.end == t[i0 + 2
                            * j].2,
                    forall|i: int|
                        0 <= i < segments@.len() ==> span_within(#[trigger] segments@[i].span, self.eof_span.end as int),
                decreases self.tokens_left(),
            {
                proof {
                    if clean {
                        let i = self.pos - 1;
                        assert(t[i + 1].0 == self.tokens@[i + 1].kind);
                        if !(i + 2 < t.len() && t[i + 2].0 == TokenKind::Ident) {
                            assert(path_end(t, i) == i + 1);
                            assert(t[e].0 == TokenKind::ColonColon);
                        }
                        assert(self.tokens@[i + 2].kind == t[i + 2].0);
                        assert(path_end(t, i) == path_end(t, i + 2));
                    }
                }
                let ghost jn = segments@.len();
                self.bump();
                segments.push(self.expect_ident("path segment"));
                proof {
                    if clean {
                        assert(self.pos == i0 + 2 * jn + 1);
                        assert(segments@[jn as int].name@ == t[i0 + 2 * jn].3);
                    }
                }
            }
        } else {
            let s = self.cur_span();
            self.error(s, "expected a path");
        }
        let end = if segments.len() > 0 {
            segments[segments.len() - 1].span.end
        } else {
            start
        };
        Path { segments, span: Span::new(start, end) }
    }

    fn expect_ident(&mut self, what: &str) -> (id: Ident)
        requires
            old(self).inv(),
        ensures
            final(self).advanced(*old(self)),
            final(self).span_ok(id.span),
            old(self).cur_kind() == Some(TokenKind::Ident) ==> final(self).pos == old(self).pos + 1,
            old(self).cur_kind() == Some(TokenKind::Ident) ==> id.name == old(self).tokens@[old(self).pos as int].text
                && id.span == old(self).tokens@[old(self).pos as int].span && final(self).diagnostics@ == old(
                self,
            ).diagnostics@,
            old(self).cur_kind() != Some(TokenKind::Ident) ==> final(self).diagnostics@.len() > old(
                self,
            ).diagnostics@.len(),
    {
        match self.eat(TokenKind::Ident) {
            Some(token) => Ident { name: token.text, span: token.span },
            None => {
                let span = self.cur_span();
                let msg = concat2("expected ", what);
                self.error(span, msg.as_str());
                Ident { name: String::new(), span }
            },
        }
    }

    /// Whether the current token can serve as a declared name: an identifier
    /// or, leniently, a reserved keyword (reserved-word misuse is a static
    /// error, not a parse error).
    fn at_name(&self) -> (r: bool)
        requires
            self.inv(),
        ensures
            r == (self.pos < self.tokens@.len() && (self.tokens@[self.pos as int].kind
                == TokenKind::Ident || is_keyword_kind(self.tokens@[self.pos as int].kind))),
    {
        match self.peek_kind() {
            Some(k) => k == TokenKind::Ident || k.is_keyword(),
            None => false,
        }
    }

    /// Consumes a name token (an identifier or a keyword in name position).
    fn expect_name(&mut self, what: &str) -> (id: Ident)
        requires
            old(self).inv(),
        ensures
            final(self).advanced(*old(self)),
            old(self).pos < old(self).tokens@.len() && (old(self).cur_kind() == Some(
                TokenKind::Ident,
            ) || is_keyword_kind(old(self).tokens@[old(self).pos as int].kind)) ==> final(self).pos
                == old(self).pos + 1,
            final(self).span_ok(id.span),
            old(self).cur_kind() == Some(TokenKind::Ident) ==> id.name@ == old(self).tokens@[old(self).pos as int].text@
                && id.span == old(self).tokens@[old(self).pos as int].span && final(self).diagnostics@ == old(
                self,
            ).diagnostics@,
    {
        if self.at_name() {
            let token = self.bump().unwrap();
            Ident { name: token.text, span: token.span }
        } else {
            let span = self.cur_span();
            let msg = concat2("expected ", what);
            self.error(span, msg.as_str());
            Ident { name: String::new(), span }
        }
    }

    // --- recovery ---------------------------------------------------------
    /// Skips tokens until the next top-level declaration boundary.
    fn recover_to_item(&mut self)
        requires
            old(self).inv(),
        ensures
            final(self).advanced(*old(self)),
            final(self).diagnostics@ == old(self).diagnostics@,
            final(self).trivia_pos == old(self).trivia_pos,
            final(self).pos == next_item_at(old(self).tokens@, old(self).pos as int),
    {
        let mut done = false;
        while !done
            invariant
                self.advanced(*old(self)),
                self.diagnostics@ == old(self).diagnostics@,
                self.trivia_pos == old(self).trivia_pos,
                next_item_at(old(self).tokens@, old(self).pos as int) == next_item_at(self.tokens@, self.pos as int),
                done ==> self.pos == next_item_at(self.tokens@, self.pos as int),
            decreases self.tokens_left(), if done { 0int } else { 1int },
        {
            let k = match self.peek_kind() {
                Some(k) => k,
                None => {
                    done = true;
                    continue;
                },
            };
            if k == TokenKind::KwPublic || k == TokenKind::KwPerson || k == TokenKind::KwSystem || k
                == TokenKind::KwContainer || k == TokenKind::KwComponent || k == TokenKind::KwData
                || k == TokenKind::KwConstant || k == TokenKind::KwFeature || k == TokenKind::Doc
                || k == TokenKind::HashLBracket {
                done = true;
            } else {
                self.bump();
            }
        }
    }

    /// Skips tokens to the next `;` or `}`, consuming a trailing `;` so the
    /// enclosing loop makes progress.
    fn recover_in_block(&mut self)
        requires
            old(self).inv(),
        ensures
            final(self).advanced(*old(self)),
            old(self).pos < old(self).tokens@.len() && old(self).cur_kind() != Some(
                TokenKind::RBrace,
            ) ==> final(self).pos > old(self).pos,
    {
        // The first token: a `}` ends the block at once; a `;` ends the
        // statement; anything else is skipped.
        match self.peek_kind() {
            None => return,
            Some(TokenKind::RBrace) => return,
            Some(TokenKind::Semi) => {
                self.bump();
                return;
            },
            Some(_) => {
                self.bump();
            },
        }
        loop
            invariant
                self.advanced(*old(self)),
                self.pos > old(self).pos,
            decreases self.tokens_left(),
        {
            let k = match self.peek_kind() {
                Some(k) => k,
                None => break,
            };
            if k == TokenKind::Semi {
                self.bump();
                break;
            }
            if k == TokenKind::RBrace {
                break;
            }
            self.bump();
        }
    }
}

} // verus!
