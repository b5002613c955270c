//! The typed syntax tree produced by the parser.
//!
//! Every node carries a [`Span`]. Declarations and statements also carry
//! their leading trivia (comments and blank-line gaps) so a formatter can
//! reproduce layout; doc comments, tags, macros and modifiers are fields.

use crate::lexer::SpannedTrivia;
use crate::span::Span;
use crate::token::TokenKind;
use vstd::prelude::*;

verus! {

/// A whole parsed file: module-level inner docs followed by declarations, in
/// source order.
#[derive(Debug, PartialEq)]
pub struct Module {
    /// `//!` inner-doc lines documenting this module.
    pub inner_docs: Vec<InnerDoc>,
    /// Top-level items: declarations and features, in source order.
    pub items: Vec<Item>,
    /// Source span of the whole module.
    pub span: Span,
}

/// One `//!` inner-doc line.
#[derive(Debug, Clone, PartialEq)]
pub struct InnerDoc {
    /// Doc text with the marker and surrounding whitespace stripped.
    pub text: String,
    /// Source span of the line (including the marker).
    pub span: Span,
}

/// A top-level item.
#[derive(Debug, PartialEq)]
pub enum Item {
    /// A documented, annotated structural declaration.
    Decl(Decl),
    /// A `feature` BDD scenario.
    Feature(Feature),
}

/// The span of an item.
pub open spec fn item_span(i: Item) -> Span {
    match i {
        Item::Decl(d) => d.span,
        Item::Feature(f) => f.span,
    }
}

impl Item {
    /// Source span of the item.
    pub fn span(&self) -> (s: Span)
        ensures
            s == item_span(*self),
    {
        match self {
            Item::Decl(d) => d.span,
            Item::Feature(f) => f.span,
        }
    }
}

/// A `feature Name for Path { given* when+ then+ }` BDD scenario.
#[derive(Debug, PartialEq)]
pub struct Feature {
    /// The `///` doc block.
    pub doc: DocBlock,
    /// The scenario's name.
    pub name: Ident,
    /// The target node path (`for <Path>`).
    pub target: Path,
    /// The ordered steps, in source order.
    pub steps: Vec<FeatureStep>,
    /// Comments / blank lines preceding this feature.
    pub leading_trivia: Vec<SpannedTrivia>,
    /// Source span covering docs and the whole feature.
    pub span: Span,
}

/// One step line in a feature flow: a step keyword and its prose.
#[derive(Debug, PartialEq)]
pub struct FeatureStep {
    /// Which step keyword introduced it.
    pub kind: StepKind,
    /// The step's prose, a string literal (`raw` includes the quotes).
    pub text: Literal,
    /// Source span of the step (keyword through string).
    pub span: Span,
}

/// The step keyword class of a feature step. `And`/`But` continue the
/// preceding step's phase.
#[derive(Debug, Clone, Copy, PartialEq, Eq, Structural)]
pub enum StepKind {
    /// `given` — a precondition.
    Given,
    /// `when` — the action.
    When,
    /// `then` — the assertion.
    Then,
    /// `and` — continues the preceding step's kind.
    And,
    /// `but` — continues the preceding step's kind.
    But,
}

/// The step kind a token kind introduces, if it is a step keyword.
pub open spec fn step_kind_of(kind: TokenKind) -> Option<StepKind> {
    match kind {
        TokenKind::KwGiven => Some(StepKind::Given),
        TokenKind::KwWhen => Some(StepKind::When),
        TokenKind::KwThen => Some(StepKind::Then),
        TokenKind::KwAnd => Some(StepKind::And),
        TokenKind::KwBut => Some(StepKind::But),
        _ => None,
    }
}

impl StepKind {
    /// The lowercase keyword spelling.
    pub fn keyword(self) -> (s: &'static str)
        ensures
            s == (match self {
                StepKind::Given => "given",
                StepKind::When => "when",
                StepKind::Then => "then",
                StepKind::And => "and",
                StepKind::But => "but",
            }),
    {
        match self {
            StepKind::Given => "given",
            StepKind::When => "when",
            StepKind::Then => "then",
            StepKind::And => "and",
            StepKind::But => "but",
        }
    }

    /// The step kind a step keyword token introduces, or `None` for a
    /// non-step token.
    pub fn from_token(kind: TokenKind) -> (s: Option<StepKind>)
        ensures
            s == step_kind_of(kind),
    {
        match kind {
            TokenKind::KwGiven => Some(StepKind::Given),
            TokenKind::KwWhen => Some(StepKind::When),
            TokenKind::KwThen => Some(StepKind::Then),
            TokenKind::KwAnd => Some(StepKind::And),
            TokenKind::KwBut => Some(StepKind::But),
            _ => None,
        }
    }
}

/// The doc block, macros and modifiers shared by every declaration, plus the
/// structural payload itself.
#[derive(Debug, PartialEq)]
pub struct Decl {
    /// The `///` doc block (summary + extended).
    pub doc: DocBlock,
    /// Stacked `#[..]` macros.
    pub macros: Vec<Macro>,
    /// Whether `public` precedes the construct keyword.
    pub is_public: bool,
    /// The structural construct.
    pub kind: DeclKind,
    /// Comments / blank lines preceding this declaration.
    pub leading_trivia: Vec<SpannedTrivia>,
    /// Source span covering docs, macros, modifiers, and the construct.
    pub span: Span,
}

/// The structural payload of a [`Decl`].
#[derive(Debug, PartialEq)]
pub enum DeclKind {
    /// `person Name` (block or `;`).
    Person(Node),
    /// `system Name` (block or `;`).
    System(Node),
    /// `container Name for Parent` (block or `;`).
    Container(Node),
    /// `component Name for Parent` (block or `;`).
    Component(Node),
    /// `data Name` — record, union, or black box.
    Data(Data),
    /// `constant NAME = Literal` — a top-level primitive constant.
    Constant(Constant),
}

/// The keyword class of a structural node.
#[derive(Debug, Clone, Copy, PartialEq, Eq, Structural)]
pub enum NodeKind {
    /// `person`.
    Person,
    /// `system`.
    System,
    /// `container`.
    Container,
    /// `component`.
    Component,
}

/// A `person` / `system` / `container` / `component` declaration.
#[derive(Debug, PartialEq)]
pub struct Node {
    /// Which structural keyword introduced it.
    pub kind: NodeKind,
    /// The node's name.
    pub name: Ident,
    /// The `for <Parent>` path, present for `container`/`component`.
    pub parent: Option<Path>,
    /// Disclosed body members, or `None` for a black box (`;`).
    pub body: Option<Vec<BodyMember>>,
    /// Source span of the node declaration.
    pub span: Span,
}

/// A member of a disclosed node body: a callable or a nested declaration.
#[derive(Debug, PartialEq)]
pub enum BodyMember {
    /// A callable (implicit operation).
    Callable(Callable),
    /// A nested structural declaration.
    Decl(Decl),
}

impl BodyMember {
    /// Source span of the member.
    pub fn span(&self) -> (s: Span)
        ensures
            s == (match self {
                BodyMember::Callable(c) => c.span,
                BodyMember::Decl(d) => d.span,
            }),
    {
        match self {
            BodyMember::Callable(c) => c.span,
            BodyMember::Decl(d) => d.span,
        }
    }
}

/// A `constant NAME = Literal` declaration.
#[derive(Debug, PartialEq)]
pub struct Constant {
    /// The constant's name.
    pub name: Ident,
    /// The declared primitive literal value.
    pub value: Literal,
    /// Source span of the declaration.
    pub span: Span,
}

/// A `data` declaration: a record body, a union, or a black box.
#[derive(Debug, PartialEq)]
pub struct Data {
    /// The data type's name.
    pub name: Ident,
    /// The data form.
    pub body: DataBody,
    /// Source span of the declaration.
    pub span: Span,
}

/// The three `data` forms.
#[derive(Debug, PartialEq)]
pub enum DataBody {
    /// `{ field: Type, ... }`.
    Record(Vec<Field>),
    /// `= | A | B { ... }` discriminated union.
    Union(Vec<Variant>),
    /// `;` black box (shape undisclosed).
    BlackBox,
}

/// A record field `name: Type`.
#[derive(Debug, PartialEq)]
pub struct Field {
    /// Field name.
    pub name: Ident,
    /// Field type.
    pub ty: Type,
    /// Source span of the field.
    pub span: Span,
}

/// One union variant.
#[derive(Debug, PartialEq)]
pub struct Variant {
    /// Variant name.
    pub name: Ident,
    /// Inline record body if the variant declares one; a bare reference has
    /// `None`.
    pub record: Option<Vec<Field>>,
    /// Source span of the variant.
    pub span: Span,
}

/// A callable (implicit operation) declared inside a disclosed node.
#[derive(Debug, PartialEq)]
pub struct Callable {
    /// The `///` doc block.
    pub doc: DocBlock,
    /// Stacked `#[..]` macros.
    pub macros: Vec<Macro>,
    /// Whether the callable is `public`.
    pub is_public: bool,
    /// The callable's name.
    pub name: Ident,
    /// Parameters.
    pub params: Vec<Param>,
    /// Declared return type; `None` means `void`.
    pub return_ty: Option<Type>,
    /// Statement block, or `None` for a black box (`;`).
    pub body: Option<Block>,
    /// Comments / blank lines preceding this callable.
    pub leading_trivia: Vec<SpannedTrivia>,
    /// Source span of the callable.
    pub span: Span,
}

/// A callable parameter `name: Type`.
#[derive(Debug, PartialEq)]
pub struct Param {
    /// Parameter name.
    pub name: Ident,
    /// Parameter type.
    pub ty: Type,
    /// Source span.
    pub span: Span,
}

/// A `{ ... }` statement block.
#[derive(Debug, PartialEq)]
pub struct Block {
    /// Statements in order.
    pub stmts: Vec<Stmt>,
    /// Source span including the braces.
    pub span: Span,
}

/// A statement valid inside a callable body.
#[derive(Debug, PartialEq)]
pub struct Stmt {
    /// The statement form.
    pub kind: StmtKind,
    /// Comments / blank lines preceding this statement.
    pub leading_trivia: Vec<SpannedTrivia>,
    /// Source span.
    pub span: Span,
}

/// The statement forms.
#[derive(Debug, PartialEq)]
pub enum StmtKind {
    /// `x = Expr` single assignment.
    Assign { name: Ident, value: Expr },
    /// `return [Expr]`.
    Return(Option<Expr>),
    /// `if (C) { } [else { }]`.
    If { cond: Expr, then_block: Block, else_block: Option<Block> },
    /// `for (x in Expr) { }`.
    For { binding: Ident, iter: Expr, body: Block },
    /// `while (C) { }`.
    While { cond: Expr, body: Block },
    /// A bare expression statement (a call or access chain).
    Expr(Expr),
}

/// An expression.
#[derive(Debug, PartialEq)]
pub struct Expr {
    /// The expression form.
    pub kind: ExprKind,
    /// Source span.
    pub span: Span,
}

/// The built-in generic constructors: `Ok`/`Err` build a `Result`,
/// `Some`/`None` build an `Option`.
#[derive(Debug, Clone, Copy, PartialEq, Eq, Structural)]
pub enum MarkerKind {
    /// `Ok` — the success branch of a `Result`.
    OkMarker,
    /// `Err` — the error branch of a `Result`.
    ErrMarker,
    /// `Some` — a present `Option`.
    SomeMarker,
    /// `None` — an empty `Option`.
    NoneMarker,
}

impl MarkerKind {
    /// The keyword spelling.
    pub fn keyword(self) -> (s: &'static str)
        ensures
            s == (match self {
                MarkerKind::OkMarker => "Ok",
                MarkerKind::ErrMarker => "Err",
                MarkerKind::SomeMarker => "Some",
                MarkerKind::NoneMarker => "None",
            }),
    {
        match self {
            MarkerKind::OkMarker => "Ok",
            MarkerKind::ErrMarker => "Err",
            MarkerKind::SomeMarker => "Some",
            MarkerKind::NoneMarker => "None",
        }
    }
}

/// The expression forms.
#[derive(Debug, PartialEq)]
pub enum ExprKind {
    /// A built-in generic constructor, optionally wrapping a payload.
    Marker {
        /// Which constructor this is.
        kind: MarkerKind,
        /// Optional `( Expr )` payload.
        payload: Option<Box<Expr>>,
    },
    /// `Type from …` — carries a type onto a value.
    From { ty: Type, source: FromSource },
    /// A postfix chain over a primary: `a.b.c`, `Repo.f(x).g()`.
    Postfix { base: Box<Expr>, segments: Vec<PostfixSeg> },
    /// A bare same-node call `Name(args)`.
    OwnCall {
        /// The called callable's name.
        name: Ident,
        /// The call arguments.
        args: Vec<Expr>,
    },
    /// `self` or a path.
    Ref(Ref),
    /// A string / number / bool literal.
    Literal(Literal),
    /// A unary operator applied to an operand.
    Unary {
        /// Which unary operator.
        op: UnaryOp,
        /// Source span of the operator token.
        op_span: Span,
        /// The operand.
        expr: Box<Expr>,
    },
    /// A binary operator over two operands.
    Binary {
        /// The left operand.
        left: Box<Expr>,
        /// Which binary operator.
        op: BinOp,
        /// Source span of the operator token.
        op_span: Span,
        /// The right operand.
        right: Box<Expr>,
    },
    /// A `( Expr )` group.
    Paren(Box<Expr>),
}

/// A unary operator.
#[derive(Debug, Clone, Copy, PartialEq, Eq, Structural)]
pub enum UnaryOp {
    /// `!` — boolean negation.
    Not,
    /// `-` — numeric negation.
    Neg,
}

impl UnaryOp {
    /// The operator's source spelling.
    pub fn spelling(self) -> (s: &'static str)
        ensures
            s == (match self {
                UnaryOp::Not => "!",
                UnaryOp::Neg => "-",
            }),
    {
        match self {
            UnaryOp::Not => "!",
            UnaryOp::Neg => "-",
        }
    }
}

/// A binary operator.
#[derive(Debug, Clone, Copy, PartialEq, Eq, Structural)]
pub enum BinOp {
    /// `+`
    Add,
    /// `-`
    Sub,
    /// `*`
    Mul,
    /// `/`
    Div,
    /// `%`
    Rem,
    /// `==`
    Eq,
    /// `!=`
    Ne,
    /// `<`
    Lt,
    /// `>`
    Gt,
    /// `<=`
    Le,
    /// `>=`
    Ge,
    /// `&&`
    And,
    /// `||`
    Or,
}

/// The source spelling of a binary operator.
pub open spec fn bin_op_spelling(op: BinOp) -> &'static str {
    match op {
        BinOp::Add => "+",
        BinOp::Sub => "-",
        BinOp::Mul => "*",
        BinOp::Div => "/",
        BinOp::Rem => "%",
        BinOp::Eq => "==",
        BinOp::Ne => "!=",
        BinOp::Lt => "<",
        BinOp::Gt => ">",
        BinOp::Le => "<=",
        BinOp::Ge => ">=",
        BinOp::And => "&&",
        BinOp::Or => "||",
    }
}

impl BinOp {
    /// The operator's source spelling.
    pub fn spelling(self) -> (s: &'static str)
        ensures
            s == bin_op_spelling(self),
    {
        match self {
            BinOp::Add => "+",
            BinOp::Sub => "-",
            BinOp::Mul => "*",
            BinOp::Div => "/",
            BinOp::Rem => "%",
            BinOp::Eq => "==",
            BinOp::Ne => "!=",
            BinOp::Lt => "<",
            BinOp::Gt => ">",
            BinOp::Le => "<=",
            BinOp::Ge => ">=",
            BinOp::And => "&&",
            BinOp::Or => "||",
        }
    }
}

/// The source of a `from` expression.
#[derive(Debug, PartialEq)]
pub enum FromSource {
    /// `from { a, b }` — composes a record/variant from a source set.
    Compose(Vec<Expr>),
    /// `from expr` — carries the target type onto a single value.
    Convert(Box<Expr>),
}

/// Calls std's `core::slice::from_ref`, which views one value as a
/// one-element slice.
#[verifier::external_body]
fn one_element_slice<T>(x: &T) -> (s: &[T])
    ensures
        s@ == seq![*x],
{
    core::slice::from_ref(x)
}

impl FromSource {
    /// The source expressions, whichever form.
    pub fn sources(&self) -> (s: &[Expr])
        ensures
            s@ == (match self {
                FromSource::Compose(v) => v@,
                FromSource::Convert(e) => seq![**e],
            }),
    {
        match self {
            FromSource::Compose(sources) => sources.as_slice(),
            FromSource::Convert(expr) => one_element_slice(&**expr),
        }
    }
}

/// One `.name` or `.name(args)` step in a postfix chain.
#[derive(Debug, PartialEq)]
pub struct PostfixSeg {
    /// The accessed/invoked member name.
    pub name: Ident,
    /// `Some(args)` if this step is a call; `None` for field access.
    pub call_args: Option<Vec<Expr>>,
    /// Source span of the segment (the `.name` plus any call).
    pub span: Span,
}

/// A reference primary.
#[derive(Debug, PartialEq)]
pub enum Ref {
    /// `self` — the enclosing node.
    SelfNode(Span),
    /// An identifier or `::`-separated path.
    Path(Path),
}

/// A literal value.
#[derive(Debug, Clone, PartialEq)]
pub enum Literal {
    /// A string literal; `raw` includes the surrounding quotes.
    String { raw: String, span: Span },
    /// A numeric literal; `raw` is the source digit run.
    Number { raw: String, span: Span },
    /// A boolean literal.
    Bool { value: bool, span: Span },
}

/// The span of a literal.
pub open spec fn literal_span(l: Literal) -> Span {
    match l {
        Literal::String { span, .. } => span,
        Literal::Number { span, .. } => span,
        Literal::Bool { span, .. } => span,
    }
}

impl Literal {
    /// Source span of the literal.
    pub fn span(&self) -> (s: Span)
        ensures
            s == literal_span(*self),
    {
        match self {
            Literal::String { span, .. } => *span,
            Literal::Number { span, .. } => *span,
            Literal::Bool { span, .. } => *span,
        }
    }
}

/// A type expression: a named type with optional generics and an optional
/// `[]` array suffix.
#[derive(Debug, PartialEq)]
pub struct Type {
    /// The base named type.
    pub name: Path,
    /// Generic arguments inside `<..>`, if any.
    pub generics: Vec<Type>,
    /// Whether a trailing `[]` makes it an array type.
    pub is_array: bool,
    /// Source span of the whole type.
    pub span: Span,
}

/// A `::`-separated path of identifiers.
#[derive(Debug, PartialEq)]
pub struct Path {
    /// Path segments in order.
    pub segments: Vec<Ident>,
    /// Source span covering the whole path.
    pub span: Span,
}

impl Path {
    /// Whether the path is a single segment (a bare identifier).
    pub fn is_simple(&self) -> (b: bool)
        ensures
            b == (self.segments@.len() == 1),
    {
        self.segments.len() == 1
    }
}

/// An identifier with its source span.
#[derive(Debug, Clone, PartialEq, Eq)]
pub struct Ident {
    /// The identifier text.
    pub name: String,
    /// Source span.
    pub span: Span,
}

/// A `///` doc block split into summary and extended description: a blank
/// `///` line ends the summary.
#[derive(Debug, Clone, PartialEq)]
pub struct DocBlock {
    /// Summary lines.
    pub summary: Vec<String>,
    /// Extended description lines.
    pub extended: Vec<String>,
    /// Tags (`#name`, including the `#`) gathered from the block.
    pub tags: Vec<Tag>,
}

impl Default for DocBlock {
    fn default() -> (d: Self)
        ensures
            d.summary@.len() == 0,
            d.extended@.len() == 0,
            d.tags@.len() == 0,
    {
        DocBlock { summary: Vec::new(), extended: Vec::new(), tags: Vec::new() }
    }
}

impl DocBlock {
    /// Whether the block carries no prose and no tags.
    pub fn is_empty(&self) -> (b: bool)
        ensures
            b == (self.summary@.len() == 0 && self.extended@.len() == 0 && self.tags@.len() == 0),
    {
        self.summary.len() == 0 && self.extended.len() == 0 && self.tags.len() == 0
    }
}

/// A `#name` tag from a doc block.
#[derive(Debug, Clone, PartialEq, Eq)]
pub struct Tag {
    /// The tag text, including the leading `#`.
    pub text: String,
    /// Source span (the `#` onward).
    pub span: Span,
}

/// A `#[..]` macro on a declaration.
#[derive(Debug, PartialEq)]
pub struct Macro {
    /// The macro's name path.
    pub name: Path,
    /// The macro's argument form.
    pub args: MacroArgs,
    /// Source span including `#[` and `]`.
    pub span: Span,
}

/// The three macro argument forms.
#[derive(Debug, PartialEq)]
pub enum MacroArgs {
    /// `#[manual]` — word form, no arguments.
    Word,
    /// `#[onevent(Path)]` / `#[http("...")]` — list form.
    List(Vec<MacroArg>),
    /// `#[schedule = "..."]` — name = value form.
    NameValue(Literal),
}

/// One argument inside a macro's `( ... )` list.
#[derive(Debug, PartialEq)]
pub enum MacroArg {
    /// A literal argument.
    Literal(Literal),
    /// A path argument.
    Path(Path),
    /// A nested macro-style meta item.
    Nested(Box<Macro>),
}

/// The spelling of a step keyword.
pub open spec fn step_word(k: StepKind) -> Seq<char> {
    match k {
        StepKind::Given => "given"@,
        StepKind::When => "when"@,
        StepKind::Then => "then"@,
        StepKind::And => "and"@,
        StepKind::But => "but"@,
    }
}

/// A step keyword's spelling lexes as the token kind that gives the step
/// back, and every token kind that gives a step is the one its spelling
/// lexes as.
pub proof fn law_step_keyword_round_trip(k: StepKind, t: crate::token::TokenKind)
    ensures
        crate::token::keyword_of(step_word(k)) matches Some(u) && step_kind_of(u) == Some(k),
        step_kind_of(t) == Some(k) ==> crate::token::keyword_of(step_word(k)) == Some(t),
{
    reveal_strlit("system");
    reveal_strlit("container");
    reveal_strlit("component");
    reveal_strlit("person");
    reveal_strlit("data");
    reveal_strlit("constant");
    reveal_strlit("for");
    reveal_strlit("from");
    reveal_strlit("public");
    reveal_strlit("self");
    reveal_strlit("return");
    reveal_strlit("Ok");
    reveal_strlit("Err");
    reveal_strlit("Some");
    reveal_strlit("None");
    reveal_strlit("if");
    reveal_strlit("else");
    reveal_strlit("while");
    reveal_strlit("in");
    reveal_strlit("true");
    reveal_strlit("false");
    reveal_strlit("feature");
    reveal_strlit("given");
    reveal_strlit("when");
    reveal_strlit("then");
    reveal_strlit("and");
    reveal_strlit("but");
    reveal_strlit("number");
    reveal_strlit("string");
    reveal_strlit("bool");
    reveal_strlit("datetime");
    reveal_strlit("uuid");
    reveal_strlit("void");
    assert("system"@.len() == 6 && "system"@[0] == 's' && "system"@[1] == 'y');
    assert("container"@.len() == 9 && "container"@[0] == 'c' && "container"@[1] == 'o');
    assert("component"@.len() == 9 && "component"@[0] == 'c' && "component"@[1] == 'o');
    assert("person"@.len() == 6 && "person"@[0] == 'p' && "person"@[1] == 'e');
    assert("data"@.len() == 4 && "data"@[0] == 'd' && "data"@[1] == 'a');
    assert("constant"@.len() == 8 && "constant"@[0] == 'c' && "constant"@[1] == 'o');
    assert("for"@.len() == 3 && "for"@[0] == 'f' && "for"@[1] == 'o');
    assert("from"@.len() == 4 && "from"@[0] == 'f' && "from"@[1] == 'r');
    assert("public"@.len() == 6 && "public"@[0] == 'p' && "public"@[1] == 'u');
    assert("self"@.len() == 4 && "self"@[0] == 's' && "self"@[1] == 'e');
    assert("return"@.len() == 6 && "return"@[0] == 'r' && "return"@[1] == 'e');
    assert("Ok"@.len() == 2 && "Ok"@[0] == 'O' && "Ok"@[1] == 'k');
    assert("Err"@.len() == 3 && "Err"@[0] == 'E' && "Err"@[1] == 'r');
    assert("Some"@.len() == 4 && "Some"@[0] == 'S' && "Some"@[1] == 'o');
    assert("None"@.len() == 4 && "None"@[0] == 'N' && "None"@[1] == 'o');
    assert("if"@.len() == 2 && "if"@[0] == 'i' && "if"@[1] == 'f');
    assert("else"@.len() == 4 && "else"@[0] == 'e' && "else"@[1] == 'l');
    assert("while"@.len() == 5 && "while"@[0] == 'w' && "while"@[1] == 'h');
    assert("in"@.len() == 2 && "in"@[0] == 'i' && "in"@[1] == 'n');
    assert("true"@.len() == 4 && "true"@[0] == 't' && "true"@[1] == 'r');
    assert("false"@.len() == 5 && "false"@[0] == 'f' && "false"@[1] == 'a');
    assert("feature"@.len() == 7 && "feature"@[0] == 'f' && "feature"@[1] == 'e');
    assert("given"@.len() == 5 && "given"@[0] == 'g' && "given"@[1] == 'i');
    assert("when"@.len() == 4 && "when"@[0] == 'w' && "when"@[1] == 'h');
    assert("then"@.len() == 4 && "then"@[0] == 't' && "then"@[1] == 'h');
    assert("and"@.len() == 3 && "and"@[0] == 'a' && "and"@[1] == 'n');
    assert("but"@.len() == 3 && "but"@[0] == 'b' && "but"@[1] == 'u');
    assert("number"@.len() == 6 && "number"@[0] == 'n' && "number"@[1] == 'u');
    assert("string"@.len() == 6 && "string"@[0] == 's' && "string"@[1] == 't');
    assert("bool"@.len() == 4 && "bool"@[0] == 'b' && "bool"@[1] == 'o');
    assert("datetime"@.len() == 8 && "datetime"@[0] == 'd' && "datetime"@[1] == 'a');
    assert("uuid"@.len() == 4 && "uuid"@[0] == 'u' && "uuid"@[1] == 'u');
    assert("void"@.len() == 4 && "void"@[0] == 'v' && "void"@[1] == 'o');
}

} // verus!
