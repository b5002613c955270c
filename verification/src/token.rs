//! Token kinds and the token type produced by the lexer.

use crate::span::Span;
use crate::strs::str_eq;
use vstd::prelude::*;

verus! {

/// Every lexical token class of PseudoScript.
///
/// Primitive type names (`number`, `string`, ...) and `Result` are not
/// keywords: they lex as [`TokenKind::Ident`].
#[derive(Debug, Clone, Copy, PartialEq, Eq, Hash, Structural)]
pub enum TokenKind {
    /// The `system` keyword.
    KwSystem,
    /// The `container` keyword.
    KwContainer,
    /// The `component` keyword.
    KwComponent,
    /// The `person` keyword.
    KwPerson,
    /// The `data` keyword.
    KwData,
    /// The `constant` keyword.
    KwConstant,
    /// The `for` keyword.
    KwFor,
    /// The `from` keyword.
    KwFrom,
    /// The `public` keyword.
    KwPublic,
    /// The `self` keyword.
    KwSelf,
    /// The `return` keyword.
    KwReturn,
    /// The `Ok` keyword.
    KwOk,
    /// The `Err` keyword.
    KwErr,
    /// The `Some` keyword.
    KwSome,
    /// The `None` keyword.
    KwNone,
    /// The `if` keyword.
    KwIf,
    /// The `else` keyword.
    KwElse,
    /// The `while` keyword.
    KwWhile,
    /// The `in` keyword.
    KwIn,
    /// The `true` keyword.
    KwTrue,
    /// The `false` keyword.
    KwFalse,
    /// The `feature` keyword.
    KwFeature,
    /// The `given` keyword.
    KwGiven,
    /// The `when` keyword.
    KwWhen,
    /// The `then` keyword.
    KwThen,
    /// The `and` keyword.
    KwAnd,
    /// The `but` keyword.
    KwBut,
    /// Identifier (greedily matched; primitives and `Result` lex as this).
    Ident,
    /// `::`
    ColonColon,
    /// `.`
    Dot,
    /// `:`
    Colon,
    /// `;`
    Semi,
    /// `,`
    Comma,
    /// `{`
    LBrace,
    /// `}`
    RBrace,
    /// `(`
    LParen,
    /// `)`
    RParen,
    /// `[`
    LBracket,
    /// `]`
    RBracket,
    /// `=`
    Eq,
    /// `|`
    Pipe,
    /// `?`
    Question,
    /// `<`
    LAngle,
    /// `>`
    RAngle,
    /// `!`
    Bang,
    /// `+`
    Plus,
    /// `-`
    Minus,
    /// `*`
    Star,
    /// `/`
    Slash,
    /// `%`
    Percent,
    /// `==`
    EqEq,
    /// `!=`
    BangEq,
    /// `<=`
    LAngleEq,
    /// `>=`
    RAngleEq,
    /// `&&`
    AmpAmp,
    /// `||`
    PipePipe,
    /// Double-quoted string; the lexeme includes the quotes.
    String,
    /// Digit run, with an optional decimal part.
    Number,
    /// `///` doc text (marker and surrounding horizontal whitespace stripped).
    Doc,
    /// `//!` inner-doc text (same stripping).
    InnerDoc,
    /// `#name` tag on a `///` line; the lexeme includes the `#`.
    Tag,
    /// `#[`, opening a macro.
    HashLBracket,
}

/// The canonical uppercase `KIND` string of a token kind, as used by the
/// rendered token stream.
pub open spec fn kind_name(k: TokenKind) -> &'static str {
    match k {
        TokenKind::KwSystem => "KW_SYSTEM",
        TokenKind::KwContainer => "KW_CONTAINER",
        TokenKind::KwComponent => "KW_COMPONENT",
        TokenKind::KwPerson => "KW_PERSON",
        TokenKind::KwData => "KW_DATA",
        TokenKind::KwConstant => "KW_CONSTANT",
        TokenKind::KwFor => "KW_FOR",
        TokenKind::KwFrom => "KW_FROM",
        TokenKind::KwPublic => "KW_PUBLIC",
        TokenKind::KwSelf => "KW_SELF",
        TokenKind::KwReturn => "KW_RETURN",
        TokenKind::KwOk => "KW_OK",
        TokenKind::KwErr => "KW_ERR",
        TokenKind::KwSome => "KW_SOME",
        TokenKind::KwNone => "KW_NONE",
        TokenKind::KwIf => "KW_IF",
        TokenKind::KwElse => "KW_ELSE",
        TokenKind::KwWhile => "KW_WHILE",
        TokenKind::KwIn => "KW_IN",
        TokenKind::KwTrue => "KW_TRUE",
        TokenKind::KwFalse => "KW_FALSE",
        TokenKind::KwFeature => "KW_FEATURE",
        TokenKind::KwGiven => "KW_GIVEN",
        TokenKind::KwWhen => "KW_WHEN",
        TokenKind::KwThen => "KW_THEN",
        TokenKind::KwAnd => "KW_AND",
        TokenKind::KwBut => "KW_BUT",
        TokenKind::Ident => "IDENT",
        TokenKind::ColonColon => "COLONCOLON",
        TokenKind::Dot => "DOT",
        TokenKind::Colon => "COLON",
        TokenKind::Semi => "SEMI",
        TokenKind::Comma => "COMMA",
        TokenKind::LBrace => "LBRACE",
        TokenKind::RBrace => "RBRACE",
        TokenKind::LParen => "LPAREN",
        TokenKind::RParen => "RPAREN",
        TokenKind::LBracket => "LBRACKET",
        TokenKind::RBracket => "RBRACKET",
        TokenKind::Eq => "EQ",
        TokenKind::Pipe => "PIPE",
        TokenKind::Question => "QUESTION",
        TokenKind::LAngle => "LANGLE",
        TokenKind::RAngle => "RANGLE",
        TokenKind::Bang => "BANG",
        TokenKind::Plus => "PLUS",
        TokenKind::Minus => "MINUS",
        TokenKind::Star => "STAR",
        TokenKind::Slash => "SLASH",
        TokenKind::Percent => "PERCENT",
        TokenKind::EqEq => "EQEQ",
        TokenKind::BangEq => "BANGEQ",
        TokenKind::LAngleEq => "LANGLE_EQ",
        TokenKind::RAngleEq => "RANGLE_EQ",
        TokenKind::AmpAmp => "AMPAMP",
        TokenKind::PipePipe => "PIPEPIPE",
        TokenKind::String => "STRING",
        TokenKind::Number => "NUMBER",
        TokenKind::Doc => "DOC",
        TokenKind::InnerDoc => "INNER_DOC",
        TokenKind::Tag => "TAG",
        TokenKind::HashLBracket => "HASH_LBRACKET",
    }
}

/// The keyword kind a spelling denotes, if it is one of the reserved words.
pub open spec fn keyword_of(s: Seq<char>) -> Option<TokenKind> {
    if s == "system"@ {
        Some(TokenKind::KwSystem)
    } else if s == "container"@ {
        Some(TokenKind::KwContainer)
    } else if s == "component"@ {
        Some(TokenKind::KwComponent)
    } else if s == "person"@ {
        Some(TokenKind::KwPerson)
    } else if s == "data"@ {
        Some(TokenKind::KwData)
    } else if s == "constant"@ {
        Some(TokenKind::KwConstant)
    } else if s == "for"@ {
        Some(TokenKind::KwFor)
    } else if s == "from"@ {
        Some(TokenKind::KwFrom)
    } else if s == "public"@ {
        Some(TokenKind::KwPublic)
    } else if s == "self"@ {
        Some(TokenKind::KwSelf)
    } else if s == "return"@ {
        Some(TokenKind::KwReturn)
    } else if s == "Ok"@ {
        Some(TokenKind::KwOk)
    } else if s == "Err"@ {
        Some(TokenKind::KwErr)
    } else if s == "Some"@ {
        Some(TokenKind::KwSome)
    } else if s == "None"@ {
        Some(TokenKind::KwNone)
    } else if s == "if"@ {
        Some(TokenKind::KwIf)
    } else if s == "else"@ {
        Some(TokenKind::KwElse)
    } else if s == "while"@ {
        Some(TokenKind::KwWhile)
    } else if s == "in"@ {
        Some(TokenKind::KwIn)
    } else if s == "true"@ {
        Some(TokenKind::KwTrue)
    } else if s == "false"@ {
        Some(TokenKind::KwFalse)
    } else if s == "feature"@ {
        Some(TokenKind::KwFeature)
    } else if s == "given"@ {
        Some(TokenKind::KwGiven)
    } else if s == "when"@ {
        Some(TokenKind::KwWhen)
    } else if s == "then"@ {
        Some(TokenKind::KwThen)
    } else if s == "and"@ {
        Some(TokenKind::KwAnd)
    } else if s == "but"@ {
        Some(TokenKind::KwBut)
    } else {
        None
    }
}

/// Whether `k` is one of the reserved keyword kinds.
pub open spec fn is_keyword_kind(k: TokenKind) -> bool {
    match k {
        TokenKind::KwSystem => true,
        TokenKind::KwContainer => true,
        TokenKind::KwComponent => true,
        TokenKind::KwPerson => true,
        TokenKind::KwData => true,
        TokenKind::KwConstant => true,
        TokenKind::KwFor => true,
        TokenKind::KwFrom => true,
        TokenKind::KwPublic => true,
        TokenKind::KwSelf => true,
        TokenKind::KwReturn => true,
        TokenKind::KwOk => true,
        TokenKind::KwErr => true,
        TokenKind::KwSome => true,
        TokenKind::KwNone => true,
        TokenKind::KwIf => true,
        TokenKind::KwElse => true,
        TokenKind::KwWhile => true,
        TokenKind::KwIn => true,
        TokenKind::KwTrue => true,
        TokenKind::KwFalse => true,
        TokenKind::KwFeature => true,
        TokenKind::KwGiven => true,
        TokenKind::KwWhen => true,
        TokenKind::KwThen => true,
        TokenKind::KwAnd => true,
        TokenKind::KwBut => true,
        _ => false,
    }
}

impl TokenKind {
    /// The reserved keyword spellings, in declaration order. Every entry is
/// recognised by [`TokenKind::keyword`].
    pub const KEYWORDS: [&'static str; 27] = [
        "system",
        "container",
        "component",
        "person",
        "data",
        "constant",
        "for",
        "from",
        "public",
        "self",
        "return",
        "Ok",
        "Err",
        "Some",
        "None",
        "if",
        "else",
        "while",
        "in",
        "true",
        "false",
        "feature",
        "given",
        "when",
        "then",
        "and",
        "but",
    ];

    /// The primitive type names. `Result` is reserved but not a primitive.
    pub const PRIMITIVE_TYPES: [&'static str; 6] = ["number", "string", "bool", "datetime", "uuid", "void"];

    /// The canonical uppercase `KIND` string used by the rendered token stream.
    pub fn name(self) -> (n: &'static str)
        ensures
            n == kind_name(self),
    {
        match self {
            TokenKind::KwSystem => "KW_SYSTEM",
            TokenKind::KwContainer => "KW_CONTAINER",
            TokenKind::KwComponent => "KW_COMPONENT",
            TokenKind::KwPerson => "KW_PERSON",
            TokenKind::KwData => "KW_DATA",
            TokenKind::KwConstant => "KW_CONSTANT",
            TokenKind::KwFor => "KW_FOR",
            TokenKind::KwFrom => "KW_FROM",
            TokenKind::KwPublic => "KW_PUBLIC",
            TokenKind::KwSelf => "KW_SELF",
            TokenKind::KwReturn => "KW_RETURN",
            TokenKind::KwOk => "KW_OK",
            TokenKind::KwErr => "KW_ERR",
            TokenKind::KwSome => "KW_SOME",
            TokenKind::KwNone => "KW_NONE",
            TokenKind::KwIf => "KW_IF",
            TokenKind::KwElse => "KW_ELSE",
            TokenKind::KwWhile => "KW_WHILE",
            TokenKind::KwIn => "KW_IN",
            TokenKind::KwTrue => "KW_TRUE",
            TokenKind::KwFalse => "KW_FALSE",
            TokenKind::KwFeature => "KW_FEATURE",
            TokenKind::KwGiven => "KW_GIVEN",
            TokenKind::KwWhen => "KW_WHEN",
            TokenKind::KwThen => "KW_THEN",
            TokenKind::KwAnd => "KW_AND",
            TokenKind::KwBut => "KW_BUT",
            TokenKind::Ident => "IDENT",
            TokenKind::ColonColon => "COLONCOLON",
            TokenKind::Dot => "DOT",
            TokenKind::Colon => "COLON",
            TokenKind::Semi => "SEMI",
            TokenKind::Comma => "COMMA",
            TokenKind::LBrace => "LBRACE",
            TokenKind::RBrace => "RBRACE",
            TokenKind::LParen => "LPAREN",
            TokenKind::RParen => "RPAREN",
            TokenKind::LBracket => "LBRACKET",
            TokenKind::RBracket => "RBRACKET",
            TokenKind::Eq => "EQ",
            TokenKind::Pipe => "PIPE",
            TokenKind::Question => "QUESTION",
            TokenKind::LAngle => "LANGLE",
            TokenKind::RAngle => "RANGLE",
            TokenKind::Bang => "BANG",
            TokenKind::Plus => "PLUS",
            TokenKind::Minus => "MINUS",
            TokenKind::Star => "STAR",
            TokenKind::Slash => "SLASH",
            TokenKind::Percent => "PERCENT",
            TokenKind::EqEq => "EQEQ",
            TokenKind::BangEq => "BANGEQ",
            TokenKind::LAngleEq => "LANGLE_EQ",
            TokenKind::RAngleEq => "RANGLE_EQ",
            TokenKind::AmpAmp => "AMPAMP",
            TokenKind::PipePipe => "PIPEPIPE",
            TokenKind::String => "STRING",
            TokenKind::Number => "NUMBER",
            TokenKind::Doc => "DOC",
            TokenKind::InnerDoc => "INNER_DOC",
            TokenKind::Tag => "TAG",
            TokenKind::HashLBracket => "HASH_LBRACKET",
        }
    }

    /// If `ident` is a keyword, the matching keyword kind; otherwise `None`.
    pub fn keyword(ident: &str) -> (k: Option<TokenKind>)
        ensures
            k == keyword_of(ident@),
    {
        if str_eq(ident, "system") {
            return Some(TokenKind::KwSystem);
        }
        if str_eq(ident, "container") {
            return Some(TokenKind::KwContainer);
        }
        if str_eq(ident, "component") {
            return Some(TokenKind::KwComponent);
        }
        if str_eq(ident, "person") {
            return Some(TokenKind::KwPerson);
        }
        if str_eq(ident, "data") {
            return Some(TokenKind::KwData);
        }
        if str_eq(ident, "constant") {
            return Some(TokenKind::KwConstant);
        }
        if str_eq(ident, "for") {
            return Some(TokenKind::KwFor);
        }
        if str_eq(ident, "from") {
            return Some(TokenKind::KwFrom);
        }
        if str_eq(ident, "public") {
            return Some(TokenKind::KwPublic);
        }
        if str_eq(ident, "self") {
            return Some(TokenKind::KwSelf);
        }
        if str_eq(ident, "return") {
            return Some(TokenKind::KwReturn);
        }
        if str_eq(ident, "Ok") {
            return Some(TokenKind::KwOk);
        }
        if str_eq(ident, "Err") {
            return Some(TokenKind::KwErr);
        }
        if str_eq(ident, "Some") {
            return Some(TokenKind::KwSome);
        }
        if str_eq(ident, "None") {
            return Some(TokenKind::KwNone);
        }
        if str_eq(ident, "if") {
            return Some(TokenKind::KwIf);
        }
        if str_eq(ident, "else") {
            return Some(TokenKind::KwElse);
        }
        if str_eq(ident, "while") {
            return Some(TokenKind::KwWhile);
        }
        if str_eq(ident, "in") {
            return Some(TokenKind::KwIn);
        }
        if str_eq(ident, "true") {
            return Some(TokenKind::KwTrue);
        }
        if str_eq(ident, "false") {
            return Some(TokenKind::KwFalse);
        }
        if str_eq(ident, "feature") {
            return Some(TokenKind::KwFeature);
        }
        if str_eq(ident, "given") {
            return Some(TokenKind::KwGiven);
        }
        if str_eq(ident, "when") {
            return Some(TokenKind::KwWhen);
        }
        if str_eq(ident, "then") {
            return Some(TokenKind::KwThen);
        }
        if str_eq(ident, "and") {
            return Some(TokenKind::KwAnd);
        }
        if str_eq(ident, "but") {
            return Some(TokenKind::KwBut);
        }
        None
    }

    /// Whether this kind is a reserved keyword.
    pub fn is_keyword(self) -> (b: bool)
        ensures
            b == is_keyword_kind(self),
    {
        match self {
            TokenKind::KwSystem => true,
            TokenKind::KwContainer => true,
            TokenKind::KwComponent => true,
            TokenKind::KwPerson => true,
            TokenKind::KwData => true,
            TokenKind::KwConstant => true,
            TokenKind::KwFor => true,
            TokenKind::KwFrom => true,
            TokenKind::KwPublic => true,
            TokenKind::KwSelf => true,
            TokenKind::KwReturn => true,
            TokenKind::KwOk => true,
            TokenKind::KwErr => true,
            TokenKind::KwSome => true,
            TokenKind::KwNone => true,
            TokenKind::KwIf => true,
            TokenKind::KwElse => true,
            TokenKind::KwWhile => true,
            TokenKind::KwIn => true,
            TokenKind::KwTrue => true,
            TokenKind::KwFalse => true,
            TokenKind::KwFeature => true,
            TokenKind::KwGiven => true,
            TokenKind::KwWhen => true,
            TokenKind::KwThen => true,
            TokenKind::KwAnd => true,
            TokenKind::KwBut => true,
            _ => false,
        }
    }
}

/// A single lexed token: its kind, source span, and rendered lexeme.
///
/// For most tokens `text` is the raw source slice. For doc tokens it is the
/// doc text with the marker and surrounding whitespace stripped; for a tag it
/// includes the `#`.
#[derive(Debug, PartialEq, Eq)]
pub struct Token {
    /// The token class.
    pub kind: TokenKind,
    /// Source range of the token.
    pub span: Span,
    /// The rendered lexeme.
    pub text: String,
}

impl Clone for Token {
    fn clone(&self) -> (t: Self)
        ensures
            t == *self,
    {
        Token { kind: self.kind, span: self.span, text: self.text.clone() }
    }
}

/// The keyword table and the recogniser agree: every reserved keyword
/// spelling is recognised as a keyword, and no primitive type name is, so
/// primitives lex as identifiers.
pub proof fn lemma_keyword_table()
    ensures
        forall|i: int| 0 <= i < TokenKind::KEYWORDS@.len() ==> keyword_of((#[trigger] TokenKind::KEYWORDS@[i])@) is Some,
        forall|i: int| 0 <= i < TokenKind::PRIMITIVE_TYPES@.len() ==> keyword_of((#[trigger] TokenKind::PRIMITIVE_TYPES@[i])@) is None,
{
    reveal_strlit("system");
    reveal_strlit("container");
    reveal_strlit("component");
    reveal_strlit("person");
    reveal_strlit("data");
    reveal_strlit("constant");
    reveal_strlit("for");
    reveal_strlit("from");
    reveal_strlit("public");
    reveal_strlit("self");
    reveal_strlit("return");
    reveal_strlit("Ok");
    reveal_strlit("Err");
    reveal_strlit("Some");
    reveal_strlit("None");
    reveal_strlit("if");
    reveal_strlit("else");
    reveal_strlit("while");
    reveal_strlit("in");
    reveal_strlit("true");
    reveal_strlit("false");
    reveal_strlit("feature");
    reveal_strlit("given");
    reveal_strlit("when");
    reveal_strlit("then");
    reveal_strlit("and");
    reveal_strlit("but");
    reveal_strlit("number");
    reveal_strlit("string");
    reveal_strlit("bool");
    reveal_strlit("datetime");
    reveal_strlit("uuid");
    reveal_strlit("void");
    assert("system"@.len() == 6 && "system"@[0] == 's' && "system"@[1] == 'y');
    assert("container"@.len() == 9 && "container"@[0] == 'c' && "container"@[1] == 'o');
    assert("component"@.len() == 9 && "component"@[0] == 'c' && "component"@[1] == 'o');
    assert("person"@.len() == 6 && "person"@[0] == 'p' && "person"@[1] == 'e');
    assert("data"@.len() == 4 && "data"@[0] == 'd' && "data"@[1] == 'a');
    assert("constant"@.len() == 8 && "constant"@[0] == 'c' && "constant"@[1] == 'o');
    assert("for"@.len() == 3 && "for"@[0] == 'f' && "for"@[1] == 'o');
    assert("from"@.len() == 4 && "from"@[0] == 'f' && "from"@[1] == 'r');
    assert("public"@.len() == 6 && "public"@[0] == 'p' && "public"@[1] == 'u');
    assert("self"@.len() == 4 && "self"@[0] == 's' && "self"@[1] == 'e');
    assert("return"@.len() == 6 && "return"@[0] == 'r' && "return"@[1] == 'e');
    assert("Ok"@.len() == 2 && "Ok"@[0] == 'O' && "Ok"@[1] == 'k');
    assert("Err"@.len() == 3 && "Err"@[0] == 'E' && "Err"@[1] == 'r');
    assert("Some"@.len() == 4 && "Some"@[0] == 'S' && "Some"@[1] == 'o');
    assert("None"@.len() == 4 && "None"@[0] == 'N' && "None"@[1] == 'o');
    assert("if"@.len() == 2 && "if"@[0] == 'i' && "if"@[1] == 'f');
    assert("else"@.len() == 4 && "else"@[0] == 'e' && "else"@[1] == 'l');
    assert("while"@.len() == 5 && "while"@[0] == 'w' && "while"@[1] == 'h');
    assert("in"@.len() == 2 && "in"@[0] == 'i' && "in"@[1] == 'n');
    assert("true"@.len() == 4 && "true"@[0] == 't' && "true"@[1] == 'r');
    assert("false"@.len() == 5 && "false"@[0] == 'f' && "false"@[1] == 'a');
    assert("feature"@.len() == 7 && "feature"@[0] == 'f' && "feature"@[1] == 'e');
    assert("given"@.len() == 5 && "given"@[0] == 'g' && "given"@[1] == 'i');
    assert("when"@.len() == 4 && "when"@[0] == 'w' && "when"@[1] == 'h');
    assert("then"@.len() == 4 && "then"@[0] == 't' && "then"@[1] == 'h');
    assert("and"@.len() == 3 && "and"@[0] == 'a' && "and"@[1] == 'n');
    assert("but"@.len() == 3 && "but"@[0] == 'b' && "but"@[1] == 'u');
    assert("number"@.len() == 6 && "number"@[0] == 'n' && "number"@[1] == 'u');
    assert("string"@.len() == 6 && "string"@[0] == 's' && "string"@[1] == 't');
    assert("bool"@.len() == 4 && "bool"@[0] == 'b' && "bool"@[1] == 'o');
    assert("datetime"@.len() == 8 && "datetime"@[0] == 'd' && "datetime"@[1] == 'a');
    assert("uuid"@.len() == 4 && "uuid"@[0] == 'u' && "uuid"@[1] == 'u');
    assert("void"@.len() == 4 && "void"@[0] == 'v' && "void"@[1] == 'o');
    assert(keyword_of("number"@) is None);
    assert(keyword_of("string"@) is None);
    assert(keyword_of("bool"@) is None);
    assert(keyword_of("datetime"@) is None);
    assert(keyword_of("uuid"@) is None);
    assert(keyword_of("void"@) is None);
}

/// The recogniser accepts nothing outside the keyword table: every
/// spelling it recognises is one of the reserved keywords.
pub proof fn law_keywords_exact(s: Seq<char>)
    requires
        keyword_of(s) is Some,
    ensures
        exists|i: int| 0 <= i < TokenKind::KEYWORDS@.len() && (#[trigger] TokenKind::KEYWORDS@[i])@ == s,
{
    let kw = TokenKind::KEYWORDS@;
    if s == "system"@ {
        assert(kw[0]@ == s);
    } else if s == "container"@ {
        assert(kw[1]@ == s);
    } else if s == "component"@ {
        assert(kw[2]@ == s);
    } else if s == "person"@ {
        assert(kw[3]@ == s);
    } else if s == "data"@ {
        assert(kw[4]@ == s);
    } else if s == "constant"@ {
        assert(kw[5]@ == s);
    } else if s == "for"@ {
        assert(kw[6]@ == s);
    } else if s == "from"@ {
        assert(kw[7]@ == s);
    } else if s == "public"@ {
        assert(kw[8]@ == s);
    } else if s == "self"@ {
        assert(kw[9]@ == s);
    } else if s == "return"@ {
        assert(kw[10]@ == s);
    } else if s == "Ok"@ {
        assert(kw[11]@ == s);
    } else if s == "Err"@ {
        assert(kw[12]@ == s);
    } else if s == "Some"@ {
        assert(kw[13]@ == s);
    } else if s == "None"@ {
        assert(kw[14]@ == s);
    } else if s == "if"@ {
        assert(kw[15]@ == s);
    } else if s == "else"@ {
        assert(kw[16]@ == s);
    } else if s == "while"@ {
        assert(kw[17]@ == s);
    } else if s == "in"@ {
        assert(kw[18]@ == s);
    } else if s == "true"@ {
        assert(kw[19]@ == s);
    } else if s == "false"@ {
        assert(kw[20]@ == s);
    } else if s == "feature"@ {
        assert(kw[21]@ == s);
    } else if s == "given"@ {
        assert(kw[22]@ == s);
    } else if s == "when"@ {
        assert(kw[23]@ == s);
    } else if s == "then"@ {
        assert(kw[24]@ == s);
    } else if s == "and"@ {
        assert(kw[25]@ == s);
    } else if s == "but"@ {
        assert(kw[26]@ == s);
    }
}

/// `s` with ASCII lowercase letters made uppercase.
pub open spec fn ascii_upper(s: Seq<char>) -> Seq<char> {
    s.map_values(|c: char| if 'a' <= c <= 'z' { ((c as u32) - 32) as char } else { c })
}

/// Every keyword's kind is named `KW_` and its spelling in upper case.
pub proof fn law_keyword_names()
    ensures
        forall|i: int|
            0 <= i < TokenKind::KEYWORDS@.len() ==> kind_name(keyword_of((#[trigger] TokenKind::KEYWORDS@[i])@)->0)@
                == "KW_"@ + ascii_upper(TokenKind::KEYWORDS@[i]@),
{
    lemma_keyword_table();
    reveal_strlit("KW_");
    reveal_strlit("system");
    reveal_strlit("KW_SYSTEM");
    reveal_strlit("container");
    reveal_strlit("KW_CONTAINER");
    reveal_strlit("component");
    reveal_strlit("KW_COMPONENT");
    reveal_strlit("person");
    reveal_strlit("KW_PERSON");
    reveal_strlit("data");
    reveal_strlit("KW_DATA");
    reveal_strlit("constant");
    reveal_strlit("KW_CONSTANT");
    reveal_strlit("for");
    reveal_strlit("KW_FOR");
    reveal_strlit("from");
    reveal_strlit("KW_FROM");
    reveal_strlit("public");
    reveal_strlit("KW_PUBLIC");
    reveal_strlit("self");
    reveal_strlit("KW_SELF");
    reveal_strlit("return");
    reveal_strlit("KW_RETURN");
    reveal_strlit("Ok");
    reveal_strlit("KW_OK");
    reveal_strlit("Err");
    reveal_strlit("KW_ERR");
    reveal_strlit("Some");
    reveal_strlit("KW_SOME");
    reveal_strlit("None");
    reveal_strlit("KW_NONE");
    reveal_strlit("if");
    reveal_strlit("KW_IF");
    reveal_strlit("else");
    reveal_strlit("KW_ELSE");
    reveal_strlit("while");
    reveal_strlit("KW_WHILE");
    reveal_strlit("in");
    reveal_strlit("KW_IN");
    reveal_strlit("true");
    reveal_strlit("KW_TRUE");
    reveal_strlit("false");
    reveal_strlit("KW_FALSE");
    reveal_strlit("feature");
    reveal_strlit("KW_FEATURE");
    reveal_strlit("given");
    reveal_strlit("KW_GIVEN");
    reveal_strlit("when");
    reveal_strlit("KW_WHEN");
    reveal_strlit("then");
    reveal_strlit("KW_THEN");
    reveal_strlit("and");
    reveal_strlit("KW_AND");
    reveal_strlit("but");
    reveal_strlit("KW_BUT");
    let kw = TokenKind::KEYWORDS@;
    assert(kind_name(keyword_of(kw[0]@)->0)@ =~= "KW_"@ + ascii_upper(kw[0]@));
    assert(kind_name(keyword_of(kw[1]@)->0)@ =~= "KW_"@ + ascii_upper(kw[1]@));
    assert(kind_name(keyword_of(kw[2]@)->0)@ =~= "KW_"@ + ascii_upper(kw[2]@));
    assert(kind_name(keyword_of(kw[3]@)->0)@ =~= "KW_"@ + ascii_upper(kw[3]@));
    assert(kind_name(keyword_of(kw[4]@)->0)@ =~= "KW_"@ + ascii_upper(kw[4]@));
    assert(kind_name(keyword_of(kw[5]@)->0)@ =~= "KW_"@ + ascii_upper(kw[5]@));
    assert(kind_name(keyword_of(kw[6]@)->0)@ =~= "KW_"@ + ascii_upper(kw[6]@));
    assert(kind_name(keyword_of(kw[7]@)->0)@ =~= "KW_"@ + ascii_upper(kw[7]@));
    assert(kind_name(keyword_of(kw[8]@)->0)@ =~= "KW_"@ + ascii_upper(kw[8]@));
    assert(kind_name(keyword_of(kw[9]@)->0)@ =~= "KW_"@ + ascii_upper(kw[9]@));
    assert(kind_name(keyword_of(kw[10]@)->0)@ =~= "KW_"@ + ascii_upper(kw[10]@));
    assert(kind_name(keyword_of(kw[11]@)->0)@ =~= "KW_"@ + ascii_upper(kw[11]@));
    assert(kind_name(keyword_of(kw[12]@)->0)@ =~= "KW_"@ + ascii_upper(kw[12]@));
    assert(kind_name(keyword_of(kw[13]@)->0)@ =~= "KW_"@ + ascii_upper(kw[13]@));
    assert(kind_name(keyword_of(kw[14]@)->0)@ =~= "KW_"@ + ascii_upper(kw[14]@));
    assert(kind_name(keyword_of(kw[15]@)->0)@ =~= "KW_"@ + ascii_upper(kw[15]@));
    assert(kind_name(keyword_of(kw[16]@)->0)@ =~= "KW_"@ + ascii_upper(kw[16]@));
    assert(kind_name(keyword_of(kw[17]@)->0)@ =~= "KW_"@ + ascii_upper(kw[17]@));
    assert(kind_name(keyword_of(kw[18]@)->0)@ =~= "KW_"@ + ascii_upper(kw[18]@));
    assert(kind_name(keyword_of(kw[19]@)->0)@ =~= "KW_"@ + ascii_upper(kw[19]@));
    assert(kind_name(keyword_of(kw[20]@)->0)@ =~= "KW_"@ + ascii_upper(kw[20]@));
    assert(kind_name(keyword_of(kw[21]@)->0)@ =~= "KW_"@ + ascii_upper(kw[21]@));
    assert(kind_name(keyword_of(kw[22]@)->0)@ =~= "KW_"@ + ascii_upper(kw[22]@));
    assert(kind_name(keyword_of(kw[23]@)->0)@ =~= "KW_"@ + ascii_upper(kw[23]@));
    assert(kind_name(keyword_of(kw[24]@)->0)@ =~= "KW_"@ + ascii_upper(kw[24]@));
    assert(kind_name(keyword_of(kw[25]@)->0)@ =~= "KW_"@ + ascii_upper(kw[25]@));
    assert(kind_name(keyword_of(kw[26]@)->0)@ =~= "KW_"@ + ascii_upper(kw[26]@));
}

} // verus!
