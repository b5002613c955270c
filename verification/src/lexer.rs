//! Hand-written lexer.
//!
//! One pass produces both the token stream (which discards `//` and `/* */`
//! comments and emits `DOC`/`INNER_DOC`/`TAG` tokens) and the trivia
//! (comments and blank-line gaps) the formatter needs.

use crate::span::{LineIndex, Span, is_line_col, line_starts_of};
use crate::strs::{decimal, decode_lossy, push_char, push_decimal, trim_spec, trim_str, utf8_lossy};
use crate::token::{Token, TokenKind, is_keyword_kind, keyword_of, kind_name};
use vstd::prelude::*;
use vstd::slice::slice_subrange;
use vstd::string::{StrSliceExecFns, StringExecFns, StringSliceAdditionalSpecFns};

verus! {

/// Non-token source between tokens, preserved for the formatter.
#[derive(Debug, PartialEq, Eq)]
pub enum Trivia {
    /// A `//` line comment; the text includes the leading `//`.
    LineComment(String),
    /// A `/* ... */` block comment; the text includes the delimiters.
    BlockComment(String),
    /// One or more fully blank lines; the count is how many blank lines.
    BlankLines(u32),
}

/// A trivia element paired with the source span it occupies.
#[derive(Debug, PartialEq, Eq)]
pub struct SpannedTrivia {
    /// The trivia content.
    pub trivia: Trivia,
    /// Source range it occupies.
    pub span: Span,
}

impl Clone for Trivia {
    fn clone(&self) -> (t: Self)
        ensures
            t == *self,
    {
        match self {
            Trivia::LineComment(s) => Trivia::LineComment(s.clone()),
            Trivia::BlockComment(s) => Trivia::BlockComment(s.clone()),
            Trivia::BlankLines(n) => Trivia::BlankLines(*n),
        }
    }
}

impl Clone for SpannedTrivia {
    fn clone(&self) -> (t: Self)
        ensures
            t == *self,
    {
        SpannedTrivia { trivia: self.trivia.clone(), span: self.span }
    }
}

/// The full result of lexing: the token stream plus interleaved trivia.
#[derive(Debug)]
pub struct Lexed {
    /// Tokens in source order (no comment trivia).
    pub tokens: Vec<Token>,
    /// Comments and blank-line gaps in source order.
    pub trivia: Vec<SpannedTrivia>,
}

/// `_` or an ASCII letter.
pub open spec fn is_ident_start_byte(b: u8) -> bool {
    b == 95u8 || (65u8 <= b && b <= 90u8) || (97u8 <= b && b <= 122u8)
}

/// `_`, an ASCII letter or an ASCII digit.
pub open spec fn is_ident_continue_byte(b: u8) -> bool {
    is_ident_start_byte(b) || (48u8 <= b && b <= 57u8)
}

/// The source slice a span covers.
pub open spec fn span_bytes(bytes: Seq<u8>, s: Span) -> Seq<u8> {
    bytes.subrange(s.start as int, s.end as int)
}

/// A well-formed token of `bytes`: a non-empty span inside the source; a
/// lexeme that is the decoded source slice (doc tokens carry stripped text
/// instead); and an identifier-shaped token is a keyword exactly when its
/// spelling is one.
pub open spec fn token_wf(t: Token, bytes: Seq<u8>) -> bool {
    &&& t.span.start < t.span.end <= bytes.len()
    &&& (t.kind != TokenKind::Doc && t.kind != TokenKind::InnerDoc) ==> t.text@ == utf8_lossy(
        span_bytes(bytes, t.span),
    )
    &&& (t.kind == TokenKind::Ident || is_keyword_kind(t.kind)) ==> (match keyword_of(t.text@) {
        Some(k) => t.kind == k,
        None => t.kind == TokenKind::Ident,
    })
}

/// Tokens in strictly increasing, non-overlapping source order.
pub open spec fn tokens_ordered(ts: Seq<Token>) -> bool {
    forall|i: int, j: int| 0 <= i < j < ts.len() ==> ts[i].span.end <= ts[j].span.start
}

/// Every token is well formed and they are in source order.
pub open spec fn tokens_wf(ts: Seq<Token>, bytes: Seq<u8>) -> bool {
    &&& forall|i: int| 0 <= i < ts.len() ==> token_wf(#[trigger] ts[i], bytes)
    &&& tokens_ordered(ts)
}

/// Every token ends at or before `pos`.
pub open spec fn tokens_before(ts: Seq<Token>, pos: int) -> bool {
    forall|i: int| 0 <= i < ts.len() ==> #[trigger] ts[i].span.end <= pos
}

/// Trivia spans lie inside the source, in order, without overlap; comment
/// text is the decoded source slice.
pub open spec fn trivia_wf(ts: Seq<SpannedTrivia>, bytes: Seq<u8>) -> bool {
    &&& forall|i: int|
        0 <= i < ts.len() ==> #[trigger] ts[i].span.start < ts[i].span.end <= bytes.len()
    &&& forall|i: int, j: int| 0 <= i < j < ts.len() ==> ts[i].span.end <= ts[j].span.start
    &&& forall|i: int|
        0 <= i < ts.len() ==> match #[trigger] ts[i].trivia {
            Trivia::LineComment(s) => s@ == utf8_lossy(span_bytes(bytes, ts[i].span)),
            Trivia::BlockComment(s) => s@ == utf8_lossy(span_bytes(bytes, ts[i].span)),
            Trivia::BlankLines(n) => n >= 1,
        }
}

/// The text of a `///` prose segment `[a, b)`: the decoded slice, trimmed.
pub open spec fn doc_segment_text(bytes: Seq<u8>, a: int, b: int) -> Seq<char> {
    trim_spec(utf8_lossy(bytes.subrange(a, b)))
}

/// A token as plain values: kind, start, end, text.
pub type TokFour = (TokenKind, int, int, Seq<char>);

/// The plain views of tokens.
pub open spec fn tok_fours(ts: Seq<Token>) -> Seq<TokFour> {
    ts.map_values(|t: Token| (t.kind, t.span.start as int, t.span.end as int, t.text@))
}

/// The index of the first newline at or after `i`, or the end of input.
pub open spec fn line_end(bytes: Seq<u8>, i: int) -> int
    decreases bytes.len() - i,
{
    if 0 <= i < bytes.len() && bytes[i] != 10u8 {
        line_end(bytes, i + 1)
    } else {
        i
    }
}

/// The end of the identifier-continue run from `j`, within `[.., end)`.
pub open spec fn ident_run_end(bytes: Seq<u8>, j: int, end: int) -> int
    decreases end - j,
{
    if 0 <= j < end && j < bytes.len() && is_ident_continue_byte(bytes[j]) {
        ident_run_end(bytes, j + 1, end)
    } else {
        j
    }
}

/// The `DOC` token for prose `[a, b)` of a `///` line, if it is not blank:
/// it starts at the marker `m` when `anchored`.
pub open spec fn flush_tok(bytes: Seq<u8>, m: int, a: int, b: int, anchored: bool) -> Seq<TokFour> {
    if a < b && doc_segment_text(bytes, a, b).len() > 0 {
        seq![(TokenKind::Doc, if anchored { m } else { a }, b, doc_segment_text(bytes, a, b))]
    } else {
        seq![]
    }
}

/// The tokens of a `///` line body ending at `end`, scanning from `i` with
/// the prose segment begun at `seg`: each `#name` tag ends the prose before
/// it (only the first prose segment is anchored at the marker `m`).
pub open spec fn doc_scan(bytes: Seq<u8>, m: int, end: int, i: int, seg: int, anchored: bool) -> Seq<TokFour>
    decreases end - i,
{
    if i >= end || i < 0 || end > bytes.len() {
        flush_tok(bytes, m, seg, end, anchored)
    } else if bytes[i] == 35u8 && i + 1 < end && is_ident_start_byte(bytes[i + 1]) {
        let j = ident_run_end(bytes, i + 1, end);
        if j <= i || j > end {
            seq![]
        } else {
            flush_tok(bytes, m, seg, i, anchored) + seq![(TokenKind::Tag, i, j, utf8_lossy(bytes.subrange(i, j)))]
                + doc_scan(bytes, m, end, j, j, false)
        }
    } else {
        doc_scan(bytes, m, end, i + 1, seg, anchored)
    }
}

/// The tokens of the `///` line whose marker starts at `m` and whose body
/// ends at `end`; a blank line gives one empty `DOC`.
pub open spec fn doc_line_toks(bytes: Seq<u8>, m: int, end: int) -> Seq<TokFour> {
    let ts = doc_scan(bytes, m, end, m + 3, m + 3, true);
    if ts.len() == 0 {
        seq![(TokenKind::Doc, m, end, seq![])]
    } else {
        ts
    }
}

proof fn lemma_triv_views_push(ts: Seq<SpannedTrivia>, t: SpannedTrivia)
    ensures
        triv_views(ts.push(t)) == triv_views(ts).push(triv_views(seq![t])[0]),
{
    assert(triv_views(ts.push(t)) =~= triv_views(ts).push(triv_views(seq![t])[0]));
}

proof fn lemma_tok_fours_push(ts: Seq<Token>, t: Token)
    ensures
        tok_fours(ts.push(t)) == tok_fours(ts).push((t.kind, t.span.start as int, t.span.end as int, t.text@)),
{
    assert(tok_fours(ts.push(t)) =~= tok_fours(ts).push((t.kind, t.span.start as int, t.span.end as int, t.text@)));
}

proof fn lemma_ident_run(bytes: Seq<u8>, j: int, end: int)
    requires
        0 <= j,
    ensures
        j <= ident_run_end(bytes, j, end),
        end <= bytes.len() && j <= end ==> ident_run_end(bytes, j, end) <= end,
    decreases end - j,
{
    if 0 <= j < end && j < bytes.len() && is_ident_continue_byte(bytes[j]) {
        lemma_ident_run(bytes, j + 1, end);
    }
}

// ----- the lexing function ---------------------------------------------------------

/// A trivia element's content as plain values.
pub enum TriviaShape {
    /// A `//` comment and its text.
    Line(Seq<char>),
    /// A `/* */` comment and its text.
    BlockText(Seq<char>),
    /// A run of blank lines, by count.
    Blank(nat),
}

/// A trivia element as plain values: content, start, end.
pub type TrivThree = (TriviaShape, int, int);

/// The plain views of trivia.
pub open spec fn triv_views(ts: Seq<SpannedTrivia>) -> Seq<TrivThree> {
    ts.map_values(
        |t: SpannedTrivia|
            (
                match t.trivia {
                    Trivia::LineComment(s) => TriviaShape::Line(s@),
                    Trivia::BlockComment(s) => TriviaShape::BlockText(s@),
                    Trivia::BlankLines(n) => TriviaShape::Blank(n as nat),
                },
                t.span.start as int,
                t.span.end as int,
            ),
    )
}

/// The token of kind `k` over the source slice `[a, b)`.
pub open spec fn slice_tok(bytes: Seq<u8>, k: TokenKind, a: int, b: int) -> TokFour {
    (k, a, b, utf8_lossy(bytes.subrange(a, b)))
}

/// The end of a run of newlines and horizontal white space from `i`, with
/// the number of newlines counted from `nl`.
pub open spec fn blank_scan(bytes: Seq<u8>, i: int, nl: int) -> (int, int)
    decreases bytes.len() - i,
{
    if 0 <= i < bytes.len() {
        if bytes[i] == 10u8 {
            blank_scan(bytes, i + 1, nl + 1)
        } else if bytes[i] == 32u8 || bytes[i] == 9u8 || bytes[i] == 13u8 {
            blank_scan(bytes, i + 1, nl)
        } else {
            (i, nl)
        }
    } else {
        (i, nl)
    }
}

/// The end of a block comment whose body scan starts at `i`: just past the
/// first `*/`, or the end of input.
pub open spec fn block_end(bytes: Seq<u8>, i: int) -> int
    decreases bytes.len() - i,
{
    if 0 <= i < bytes.len() {
        if bytes[i] == 42u8 && i + 1 < bytes.len() && bytes[i + 1] == 47u8 {
            i + 2
        } else {
            block_end(bytes, i + 1)
        }
    } else {
        i
    }
}

/// The string-literal scan from `i`: a backslash skips the next byte, a `"`
/// closes (inclusive), a newline stops (exclusive).
pub open spec fn string_scan(bytes: Seq<u8>, i: int) -> int
    decreases bytes.len() + 2 - i,
{
    if i < 0 || i >= bytes.len() {
        i
    } else if bytes[i] == 92u8 {
        string_scan(bytes, i + 2)
    } else if bytes[i] == 34u8 {
        i + 1
    } else if bytes[i] == 10u8 {
        i
    } else {
        string_scan(bytes, i + 1)
    }
}

/// The end of a run of ASCII digits from `i`.
pub open spec fn digits_end(bytes: Seq<u8>, i: int) -> int
    decreases bytes.len() - i,
{
    if 0 <= i < bytes.len() && 48u8 <= bytes[i] <= 57u8 {
        digits_end(bytes, i + 1)
    } else {
        i
    }
}

/// The end of a number literal starting at `p`: digits, then a `.` and
/// more digits when a digit follows the dot.
pub open spec fn number_end(bytes: Seq<u8>, p: int) -> int {
    let a = digits_end(bytes, p);
    if a + 1 < bytes.len() && bytes[a] == 46u8 && 48u8 <= bytes[a + 1] <= 57u8 {
        digits_end(bytes, a + 1)
    } else {
        a
    }
}

/// The end of a run of UTF-8 continuation bytes from `i`.
pub open spec fn cont_end(bytes: Seq<u8>, i: int) -> int
    decreases bytes.len() - i,
{
    if 0 <= i < bytes.len() && bytes[i] & 0xC0u8 == 0x80u8 {
        cont_end(bytes, i + 1)
    } else {
        i
    }
}

/// The two-byte operator `b` then `n` spell, if any.
pub open spec fn punct_two(b: u8, n: u8) -> Option<TokenKind> {
    if b == 58u8 && n == 58u8 {
        Some(TokenKind::ColonColon)
    } else if b == 61u8 && n == 61u8 {
        Some(TokenKind::EqEq)
    } else if b == 33u8 && n == 61u8 {
        Some(TokenKind::BangEq)
    } else if b == 60u8 && n == 61u8 {
        Some(TokenKind::LAngleEq)
    } else if b == 62u8 && n == 61u8 {
        Some(TokenKind::RAngleEq)
    } else if b == 38u8 && n == 38u8 {
        Some(TokenKind::AmpAmp)
    } else if b == 124u8 && n == 124u8 {
        Some(TokenKind::PipePipe)
    } else {
        None
    }
}

/// The one-byte punctuation `b` spells, if any.
pub open spec fn punct_one(b: u8) -> Option<TokenKind> {
    if b == 58u8 {
        Some(TokenKind::Colon)
    } else if b == 46u8 {
        Some(TokenKind::Dot)
    } else if b == 59u8 {
        Some(TokenKind::Semi)
    } else if b == 44u8 {
        Some(TokenKind::Comma)
    } else if b == 123u8 {
        Some(TokenKind::LBrace)
    } else if b == 125u8 {
        Some(TokenKind::RBrace)
    } else if b == 40u8 {
        Some(TokenKind::LParen)
    } else if b == 41u8 {
        Some(TokenKind::RParen)
    } else if b == 91u8 {
        Some(TokenKind::LBracket)
    } else if b == 93u8 {
        Some(TokenKind::RBracket)
    } else if b == 61u8 {
        Some(TokenKind::Eq)
    } else if b == 124u8 {
        Some(TokenKind::Pipe)
    } else if b == 63u8 {
        Some(TokenKind::Question)
    } else if b == 60u8 {
        Some(TokenKind::LAngle)
    } else if b == 62u8 {
        Some(TokenKind::RAngle)
    } else if b == 33u8 {
        Some(TokenKind::Bang)
    } else if b == 43u8 {
        Some(TokenKind::Plus)
    } else if b == 45u8 {
        Some(TokenKind::Minus)
    } else if b == 42u8 {
        Some(TokenKind::Star)
    } else if b == 37u8 {
        Some(TokenKind::Percent)
    } else {
        None
    }
}

/// The step of punctuation at `p`: a two-byte operator, a one-byte one, or
/// an unknown byte skipped with its UTF-8 continuation bytes.
pub open spec fn punct_step(bytes: Seq<u8>, p: int) -> (int, Seq<TokFour>, Seq<TrivThree>) {
    let b = bytes[p];
    if p + 1 < bytes.len() && punct_two(b, bytes[p + 1]) is Some {
        (p + 2, seq![slice_tok(bytes, punct_two(b, bytes[p + 1])->0, p, p + 2)], seq![])
    } else if punct_one(b) is Some {
        (p + 1, seq![slice_tok(bytes, punct_one(b)->0, p, p + 1)], seq![])
    } else {
        (cont_end(bytes, p + 1), seq![], seq![])
    }
}

/// The step of a `/` at `p`: a `//!` inner doc, a `///` doc line, a `//`
/// comment, a `/* */` comment, or the division operator.
pub open spec fn slash_step(bytes: Seq<u8>, p: int) -> (int, Seq<TokFour>, Seq<TrivThree>) {
    let n = bytes.len();
    if p + 1 < n && bytes[p + 1] == 47u8 {
        if p + 2 < n && bytes[p + 2] == 33u8 {
            let e = line_end(bytes, p + 3);
            (e, seq![(TokenKind::InnerDoc, p, e, trim_spec(utf8_lossy(bytes.subrange(p + 3, e))))], seq![])
        } else if p + 2 < n && bytes[p + 2] == 47u8 {
            let e = line_end(bytes, p + 3);
            (e, doc_line_toks(bytes, p, e), seq![])
        } else {
            let e = line_end(bytes, p + 2);
            (e, seq![], seq![(TriviaShape::Line(utf8_lossy(bytes.subrange(p, e))), p, e)])
        }
    } else if p + 1 < n && bytes[p + 1] == 42u8 {
        let e = block_end(bytes, p + 2);
        (e, seq![], seq![(TriviaShape::BlockText(utf8_lossy(bytes.subrange(p, e))), p, e)])
    } else {
        (p + 1, seq![slice_tok(bytes, TokenKind::Slash, p, p + 1)], seq![])
    }
}

/// One lexing step at `p` (inside the source): the position after it, the
/// tokens and the trivia it emits.
pub open spec fn lex_step(bytes: Seq<u8>, p: int) -> (int, Seq<TokFour>, Seq<TrivThree>) {
    let b = bytes[p];
    let n = bytes.len();
    if b == 32u8 || b == 9u8 || b == 13u8 {
        (p + 1, seq![], seq![])
    } else if b == 10u8 {
        let r = blank_scan(bytes, p + 1, 1);
        (r.0, seq![], if r.1 >= 2 { seq![(TriviaShape::Blank((r.1 - 1) as nat), p, r.0)] } else { seq![] })
    } else if b == 47u8 {
        slash_step(bytes, p)
    } else if b == 35u8 {
        if p + 1 < n && bytes[p + 1] == 91u8 {
            (p + 2, seq![slice_tok(bytes, TokenKind::HashLBracket, p, p + 2)], seq![])
        } else {
            (p + 1, seq![], seq![])
        }
    } else if b == 34u8 {
        let q = string_scan(bytes, p + 1);
        let e = if q > n { n as int } else { q };
        (e, seq![slice_tok(bytes, TokenKind::String, p, e)], seq![])
    } else if 48u8 <= b <= 57u8 {
        let e = number_end(bytes, p);
        (e, seq![slice_tok(bytes, TokenKind::Number, p, e)], seq![])
    } else if is_ident_start_byte(b) {
        let e = ident_run_end(bytes, p + 1, n as int);
        let text = utf8_lossy(bytes.subrange(p, e));
        (e, seq![(match keyword_of(text) { Some(k) => k, None => TokenKind::Ident }, p, e, text)], seq![])
    } else {
        punct_step(bytes, p)
    }
}

/// The tokens and trivia of the source from `p` on.
pub open spec fn lex_from(bytes: Seq<u8>, p: int) -> (Seq<TokFour>, Seq<TrivThree>)
    decreases bytes.len() - p,
{
    if p < 0 || p >= bytes.len() {
        (seq![], seq![])
    } else {
        let st = lex_step(bytes, p);
        if st.0 <= p || st.0 > bytes.len() {
            (seq![], seq![])
        } else {
            let rest = lex_from(bytes, st.0);
            (st.1 + rest.0, st.2 + rest.1)
        }
    }
}

/// The token stream of a source: every lexeme, comments and white space
/// yielding none.
pub open spec fn lex_tokens(bytes: Seq<u8>) -> Seq<TokFour> {
    lex_from(bytes, 0).0
}

/// The trivia of a source: its comments and blank-line runs.
pub open spec fn lex_trivia(bytes: Seq<u8>) -> Seq<TrivThree> {
    lex_from(bytes, 0).1
}

/// Every trivia element ends at or before `pos`.
pub open spec fn trivia_before(ts: Seq<SpannedTrivia>, pos: int) -> bool {
    forall|i: int| 0 <= i < ts.len() ==> #[trigger] ts[i].span.end <= pos
}

/// Lexes `src` into the token stream. `//` and `/* */` comments emit no
/// token; `///` becomes `DOC` (plus `TAG`s) and `//!` becomes `INNER_DOC`.
pub fn tokenize(src: &str) -> (ts: Vec<Token>)
    requires
        src.spec_bytes().len() < u32::MAX,
    ensures
        tokens_wf(ts@, src.spec_bytes()),
        tok_fours(ts@) == lex_tokens(src.spec_bytes()),
{
    lex(src).tokens
}

/// Lexes `src`, returning both the token stream and the trivia.
pub fn lex(src: &str) -> (l: Lexed)
    requires
        src.spec_bytes().len() < u32::MAX,
    ensures
        tokens_wf(l.tokens@, src.spec_bytes()),
        trivia_wf(l.trivia@, src.spec_bytes()),
        tok_fours(l.tokens@) == lex_tokens(src.spec_bytes()),
        triv_views(l.trivia@) == lex_trivia(src.spec_bytes()),
{
    let lexer = Lexer::new(src);
    lexer.run()
}

/// How one character of a lexeme is written in the rendered token stream:
/// `\\` and `"` are escaped with a backslash.
pub open spec fn escape_char(c: char) -> Seq<char> {
    if c == '\\' {
        seq!['\\', '\\']
    } else if c == '"' {
        seq!['\\', '"']
    } else {
        seq![c]
    }
}

/// A lexeme with every character escaped.
pub open spec fn escape_text(s: Seq<char>) -> Seq<char>
    decreases s.len(),
{
    if s.len() == 0 {
        seq![]
    } else {
        escape_text(s.drop_last()) + escape_char(s.last())
    }
}

/// One rendered token line: `KIND@line:col "lexeme"` and a newline.
pub open spec fn render_line(t: Token, lc: (u32, u32)) -> Seq<char> {
    kind_name(t.kind)@ + seq!['@'] + decimal(lc.0 as nat) + seq![':'] + decimal(lc.1 as nat)
        + seq![' ', '"'] + escape_text(t.text@) + seq!['"', '\n']
}

/// The rendered lines of a token sequence, given each token's line/column.
pub open spec fn render_lines(ts: Seq<Token>, lcs: Seq<(u32, u32)>) -> Seq<char>
    decreases ts.len(),
{
    if ts.len() == 0 || lcs.len() == 0 {
        seq![]
    } else {
        render_lines(ts.drop_last(), lcs.drop_last()) + render_line(ts.last(), lcs.last())
    }
}

/// The rendered lines of plain tokens, given each token's line/column.
pub open spec fn render_fours(ts: Seq<TokFour>, lcs: Seq<(u32, u32)>) -> Seq<char>
    decreases ts.len(),
{
    if ts.len() == 0 || lcs.len() == 0 {
        seq![]
    } else {
        render_fours(ts.drop_last(), lcs.drop_last()) + kind_name(ts.last().0)@ + seq!['@'] + decimal(
            lcs.last().0 as nat,
        ) + seq![':'] + decimal(lcs.last().1 as nat) + seq![' ', '"'] + escape_text(ts.last().3) + seq!['"', '\n']
    }
}

proof fn lemma_render_fours(ts: Seq<Token>, lcs: Seq<(u32, u32)>)
    ensures
        render_lines(ts, lcs) == render_fours(tok_fours(ts), lcs),
    decreases ts.len(),
{
    if ts.len() > 0 && lcs.len() > 0 {
        assert(tok_fours(ts.drop_last()) =~= tok_fours(ts).drop_last());
        lemma_render_fours(ts.drop_last(), lcs.drop_last());
    }
}

/// Renders `src`'s token stream as one `KIND@line:col "lexeme"` line per
/// token, the line/column being that of the token's first byte.
pub fn render_tokens(src: &str) -> (out: String)
    requires
        src.spec_bytes().len() < u32::MAX,
    ensures
        exists|lcs: Seq<(u32, u32)>|
            {
                &&& lcs.len() == lex_tokens(src.spec_bytes()).len()
                &&& forall|i: int|
                    0 <= i < lcs.len() ==> is_line_col(
                        line_starts_of(src.spec_bytes(), src.spec_bytes().len()),
                        src.spec_bytes().len() as int,
                        lex_tokens(src.spec_bytes())[i].1,
                        #[trigger] lcs[i],
                    )
                &&& out@ == render_fours(lex_tokens(src.spec_bytes()), lcs)
            },
{
    let index = LineIndex::new(src);
    let tokens = tokenize(src);
    let mut out = String::new();
    let mut lcs: Ghost<Seq<(u32, u32)>> = Ghost(Seq::empty());
    let mut i: usize = 0;
    while i < tokens.len()
        invariant
            i <= tokens@.len(),
            lcs@.len() == i,
            index.starts() == line_starts_of(src.spec_bytes(), src.spec_bytes().len()),
            index.source_len() == src.spec_bytes().len(),
            forall|j: int|
                0 <= j < i ==> is_line_col(
                    index.starts(),
                    index.source_len(),
                    tokens@[j].span.start as int,
                    #[trigger] lcs@[j],
                ),
            out@ == render_lines(tokens@.subrange(0, i as int), lcs@),
        decreases tokens@.len() - i,
    {
        let token = &tokens[i];
        let lc = index.line_col(token.span.start);
        let ghost before = out@;
        push_token_line(&mut out, token, lc);
        proof {
            let ghost old_lcs = lcs@;
            lcs@ = lcs@.push(lc);
            assert(tokens@.subrange(0, i + 1).drop_last() =~= tokens@.subrange(0, i as int));
            assert(lcs@.drop_last() =~= old_lcs);
        }
        i = i + 1;
    }
    assert(tokens@.subrange(0, i as int) =~= tokens@);
    proof {
        lemma_render_fours(tokens@, lcs@);
        let t4 = lex_tokens(src.spec_bytes());
        assert forall|j: int| 0 <= j < lcs@.len() implies is_line_col(
            line_starts_of(src.spec_bytes(), src.spec_bytes().len()),
            src.spec_bytes().len() as int,
            t4[j].1,
            #[trigger] lcs@[j],
        ) by {
            assert(t4[j] == tok_fours(tokens@)[j]);
        }
    }
    out
}

/// Appends one rendered token line.
fn push_token_line(out: &mut String, token: &Token, lc: (u32, u32))
    ensures
        final(out)@ == old(out)@ + render_line(*token, lc),
{
    out.append(token.kind.name());
    push_char(out, '@');
    push_decimal(out, lc.0);
    push_char(out, ':');
    push_decimal(out, lc.1);
    push_char(out, ' ');
    push_char(out, '"');
    push_escaped(out, token.text.as_str());
    push_char(out, '"');
    push_char(out, '\n');
    assert(final(out)@ =~= old(out)@ + render_line(*token, lc));
}

/// Appends `text` with `\\` and `"` escaped.
fn push_escaped(out: &mut String, text: &str)
    ensures
        final(out)@ == old(out)@ + escape_text(text@),
{
    let n = text.unicode_len();
    let mut i: usize = 0;
    while i < n
        invariant
            n == text@.len(),
            i <= n,
            out@ == old(out)@ + escape_text(text@.subrange(0, i as int)),
        decreases n - i,
    {
        let c = text.get_char(i);
        let ghost before = out@;
        if c == '\\' {
            push_char(out, '\\');
            push_char(out, '\\');
        } else if c == '"' {
            push_char(out, '\\');
            push_char(out, '"');
        } else {
            push_char(out, c);
        }
        assert(text@.subrange(0, i + 1).drop_last() =~= text@.subrange(0, i as int));
        assert(out@ =~= before + escape_char(c));
        i = i + 1;
    }
    assert(text@.subrange(0, n as int) =~= text@);
}

struct Lexer<'src> {
    src: &'src str,
    bytes: &'src [u8],
    pos: usize,
    tokens: Vec<Token>,
    trivia: Vec<SpannedTrivia>,
}

fn is_ident_start(b: u8) -> (r: bool)
    ensures
        r == is_ident_start_byte(b),
{
    b == 95u8 || (65u8 <= b && b <= 90u8) || (97u8 <= b && b <= 122u8)
}

fn is_ident_continue(b: u8) -> (r: bool)
    ensures
        r == is_ident_continue_byte(b),
{
    is_ident_start(b) || (48u8 <= b && b <= 57u8)
}

fn is_digit(b: u8) -> (r: bool)
    ensures
        r == (48u8 <= b && b <= 57u8),
{
    48u8 <= b && b <= 57u8
}

/// Whether a `#` at `i` begins a `#name` tag: immediately followed by an
/// identifier-start byte, within the doc-line body `[.., end)`.
fn is_tag(bytes: &[u8], i: usize, end: usize) -> (r: bool)
    requires
        end <= bytes@.len(),
        i < end,
    ensures
        r == (i + 1 < end && is_ident_start_byte(bytes@[i + 1])),
{
    i + 1 < end && is_ident_start(bytes[i + 1])
}

impl<'src> Lexer<'src> {
    spec fn inv(&self) -> bool {
        &&& self.bytes@ == self.src.spec_bytes()
        &&& self.bytes@.len() < u32::MAX
        &&& self.pos <= self.bytes@.len()
        &&& tokens_wf(self.tokens@, self.bytes@)
        &&& tokens_before(self.tokens@, self.pos as int)
        &&& trivia_wf(self.trivia@, self.bytes@)
        &&& trivia_before(self.trivia@, self.pos as int)
    }

    spec fn same_source(&self, other: &Self) -> bool {
        self.src == other.src && self.bytes == other.bytes
    }

    /// `self` is `o` after the lexing step at `o`'s cursor.
    spec fn step_done(&self, o: &Self) -> bool {
        let st = lex_step(o.bytes@, o.pos as int);
        &&& self.pos == st.0
        &&& tok_fours(self.tokens@) == tok_fours(o.tokens@) + st.1
        &&& triv_views(self.trivia@) == triv_views(o.trivia@) + st.2
    }

    fn new(src: &'src str) -> (l: Self)
        requires
            src.spec_bytes().len() < u32::MAX,
        ensures
            l.inv(),
            l.src == src,
            l.pos == 0,
            l.tokens@.len() == 0,
            l.trivia@.len() == 0,
    {
        Lexer { src, bytes: src.as_bytes(), pos: 0, tokens: Vec::new(), trivia: Vec::new() }
    }

    fn run(self) -> (l: Lexed)
        requires
            self.inv(),
            self.pos == 0,
            self.tokens@.len() == 0,
            self.trivia@.len() == 0,
        ensures
            tokens_wf(l.tokens@, self.src.spec_bytes()),
            trivia_wf(l.trivia@, self.src.spec_bytes()),
            tok_fours(l.tokens@) == lex_tokens(self.src.spec_bytes()),
            triv_views(l.trivia@) == lex_trivia(self.src.spec_bytes()),
    {
        let mut this = self;
        let ghost bytes = self.bytes@;
        assert(tok_fours(this.tokens@) =~= seq![]);
        assert(triv_views(this.trivia@) =~= seq![]);
        assert(lex_from(bytes, 0).0 =~= tok_fours(this.tokens@) + lex_from(bytes, 0).0);
        assert(lex_from(bytes, 0).1 =~= triv_views(this.trivia@) + lex_from(bytes, 0).1);
        while this.pos < this.bytes.len()
            invariant
                this.inv(),
                this.same_source(&self),
                bytes == this.bytes@,
                lex_from(bytes, 0).0 == tok_fours(this.tokens@) + lex_from(bytes, this.pos as int).0,
                lex_from(bytes, 0).1 == triv_views(this.trivia@) + lex_from(bytes, this.pos as int).1,
            decreases this.bytes@.len() - this.pos,
        {
            let b = this.bytes[this.pos];
            let ghost before = this;
            let ghost p = this.pos as int;
            let ghost rest = lex_from(bytes, lex_step(bytes, p).0);
            if b == 32u8 || b == 9u8 || b == 13u8 {
                this.pos = this.pos + 1;
                assert(tok_fours(this.tokens@) =~= tok_fours(before.tokens@) + seq![]);
                assert(triv_views(this.trivia@) =~= triv_views(before.trivia@) + seq![]);
            } else if b == 10u8 {
                this.consume_blank_lines();
            } else if b == 47u8 {
                this.lex_slash();
            } else if b == 35u8 {
                this.lex_hash();
            } else if b == 34u8 {
                this.lex_string();
            } else if is_digit(b) {
                this.lex_number();
            } else if is_ident_start(b) {
                this.lex_ident();
            } else {
                this.lex_punct();
            }
            proof {
                let st = lex_step(bytes, p);
                assert(this.step_done(&before));
                assert(lex_from(bytes, p) == (st.1 + rest.0, st.2 + rest.1));
                assert(tok_fours(this.tokens@) + rest.0 =~= tok_fours(before.tokens@) + (st.1 + rest.0));
                assert(triv_views(this.trivia@) + rest.1 =~= triv_views(before.trivia@) + (st.2 + rest.1));
            }
        }
        assert(lex_from(bytes, this.pos as int).0 =~= seq![]);
        assert(tok_fours(this.tokens@) + seq![] =~= tok_fours(this.tokens@));
        assert(triv_views(this.trivia@) + seq![] =~= triv_views(this.trivia@));
        Lexed { tokens: this.tokens, trivia: this.trivia }
    }

    /// The decoded source slice `[start, end)`.
    fn slice_text(&self, start: usize, end: usize) -> (s: String)
        requires
            start <= end <= self.bytes@.len(),
        ensures
            s@ == utf8_lossy(self.bytes@.subrange(start as int, end as int)),
    {
        decode_lossy(slice_subrange(self.bytes, start, end))
    }

    /// Pushes a token whose lexeme is the source slice `[start, end)`.
    fn push(&mut self, kind: TokenKind, start: usize, end: usize)
        requires
            old(self).inv(),
            start < end <= old(self).pos,
            tokens_before(old(self).tokens@, start as int),
            kind != TokenKind::Doc,
            kind != TokenKind::InnerDoc,
            kind != TokenKind::Ident,
            !is_keyword_kind(kind),
        ensures
            final(self).inv(),
            final(self).same_source(old(self)),
            final(self).pos == old(self).pos,
            final(self).trivia@ == old(self).trivia@,
            tok_fours(final(self).tokens@) == tok_fours(old(self).tokens@).push(
                slice_tok(old(self).bytes@, kind, start as int, end as int),
            ),
    {
        let text = self.slice_text(start, end);
        let t = Token { kind, span: Span::new(start as u32, end as u32), text };
        proof {
            lemma_tok_fours_push(self.tokens@, t);
        }
        self.push_token(t);
    }

    /// Pushes a well-formed token that starts after every earlier one.
    fn push_token(&mut self, t: Token)
        requires
            old(self).inv(),
            token_wf(t, old(self).bytes@),
            t.span.end <= old(self).pos,
            tokens_before(old(self).tokens@, t.span.start as int),
        ensures
            final(self).inv(),
            final(self).same_source(old(self)),
            final(self).pos == old(self).pos,
            final(self).tokens@ == old(self).tokens@.push(t),
            final(self).trivia@ == old(self).trivia@,
    {
        self.tokens.push(t);
        assert(tokens_wf(self.tokens@, self.bytes@)) by {
            assert forall|i: int| 0 <= i < self.tokens@.len() implies token_wf(
                #[trigger] self.tokens@[i],
                self.bytes@,
            ) by {
                if i < old(self).tokens@.len() {
                    assert(self.tokens@[i] == old(self).tokens@[i]);
                }
            }
        }
    }

    /// Pushes a trivia element that starts after every earlier one.
    fn push_trivia(&mut self, t: SpannedTrivia)
        requires
            old(self).inv(),
            t.span.start < t.span.end <= old(self).pos,
            trivia_before(old(self).trivia@, t.span.start as int),
            match t.trivia {
                Trivia::LineComment(s) => s@ == utf8_lossy(span_bytes(old(self).bytes@, t.span)),
                Trivia::BlockComment(s) => s@ == utf8_lossy(span_bytes(old(self).bytes@, t.span)),
                Trivia::BlankLines(n) => n >= 1,
            },
        ensures
            final(self).inv(),
            final(self).same_source(old(self)),
            final(self).pos == old(self).pos,
            final(self).tokens@ == old(self).tokens@,
            final(self).trivia@ == old(self).trivia@.push(t),
    {
        self.trivia.push(t);
        assert(trivia_wf(self.trivia@, self.bytes@)) by {
            assert forall|i: int| 0 <= i < self.trivia@.len() implies match #[trigger] self.trivia@[i].trivia {
                Trivia::LineComment(s) => s@ == utf8_lossy(span_bytes(self.bytes@, self.trivia@[i].span)),
                Trivia::BlockComment(s) => s@ == utf8_lossy(span_bytes(self.bytes@, self.trivia@[i].span)),
                Trivia::BlankLines(n) => n >= 1,
            } by {
                if i < old(self).trivia@.len() {
                    assert(self.trivia@[i] == old(self).trivia@[i]);
                }
            }
        }
    }

    /// Consumes a run of newlines (and intervening horizontal whitespace),
    /// recording it as blank-line trivia when it spans more than one line.
    fn consume_blank_lines(&mut self)
        requires
            old(self).inv(),
            old(self).pos < old(self).bytes@.len(),
            old(self).bytes@[old(self).pos as int] == 10u8,
        ensures
            final(self).inv(),
            final(self).same_source(old(self)),
            final(self).pos > old(self).pos,
            final(self).step_done(&*old(self)),
    {
        let start = self.pos;
        // The run starts with the newline at the cursor.
        let mut newlines: u32 = 1;
        self.pos = self.pos + 1;
        while self.pos < self.bytes.len()
            invariant
                self.inv(),
                self.same_source(old(self)),
                self.tokens@ == old(self).tokens@,
                self.trivia@ == old(self).trivia@,
                start == old(self).pos,
                start < self.pos,
                1 <= newlines <= self.pos - start,
                blank_scan(self.bytes@, start + 1, 1) == blank_scan(self.bytes@, self.pos as int, newlines as int),
            ensures
                self.inv(),
                self.same_source(old(self)),
                self.tokens@ == old(self).tokens@,
                self.trivia@ == old(self).trivia@,
                start == old(self).pos,
                start < self.pos,
                1 <= newlines <= self.pos - start,
                blank_scan(self.bytes@, start + 1, 1) == (self.pos as int, newlines as int),
            decreases self.bytes@.len() - self.pos,
        {
            let b = self.bytes[self.pos];
            if b == 10u8 {
                newlines = newlines + 1;
                self.pos = self.pos + 1;
            } else if b == 32u8 || b == 9u8 || b == 13u8 {
                self.pos = self.pos + 1;
            } else {
                break;
            }
        }
        if newlines >= 2 {
            let t = SpannedTrivia {
                trivia: Trivia::BlankLines(newlines - 1),
                span: Span::new(start as u32, self.pos as u32),
            };
            proof {
                lemma_triv_views_push(self.trivia@, t);
            }
            self.push_trivia(t);
            assert(triv_views(seq![t])[0] == (TriviaShape::Blank((newlines - 1) as nat), start as int, self.pos as int));
            assert(triv_views(self.trivia@) =~= triv_views(old(self).trivia@) + lex_step(old(self).bytes@, start as int).2);
        } else {
            assert(triv_views(self.trivia@) =~= triv_views(old(self).trivia@) + lex_step(old(self).bytes@, start as int).2);
        }
        assert(tok_fours(self.tokens@) =~= tok_fours(old(self).tokens@) + lex_step(old(self).bytes@, start as int).1);
    }

    fn lex_slash(&mut self)
        requires
            old(self).inv(),
            old(self).pos < old(self).bytes@.len(),
            old(self).bytes@[old(self).pos as int] == 47u8,
        ensures
            final(self).inv(),
            final(self).same_source(old(self)),
            final(self).pos > old(self).pos,
            final(self).step_done(&*old(self)),
    {
        if self.pos + 1 < self.bytes.len() && self.bytes[self.pos + 1] == 47u8 {
            self.lex_line_or_doc();
        } else if self.pos + 1 < self.bytes.len() && self.bytes[self.pos + 1] == 42u8 {
            self.lex_block_comment();
        } else {
            let start = self.pos;
            self.pos = self.pos + 1;
            // A lone `/` is the division operator.
            self.push(TokenKind::Slash, start, self.pos);
            assert(tok_fours(self.tokens@) =~= tok_fours(old(self).tokens@) + lex_step(old(self).bytes@, old(self).pos as int).1);
            assert(triv_views(self.trivia@) =~= triv_views(old(self).trivia@) + seq![]);
        }
    }

    /// Returns `[start, end)` of the current line's body (from the cursor up
    /// to but not including the newline), advancing the cursor to the newline.
    fn line_body(&mut self) -> (r: (usize, usize))
        requires
            old(self).inv(),
        ensures
            final(self).inv(),
            final(self).same_source(old(self)),
            final(self).tokens@ == old(self).tokens@,
            final(self).trivia@ == old(self).trivia@,
            r.0 == old(self).pos,
            r.1 == final(self).pos,
            old(self).pos <= final(self).pos,
            final(self).pos == line_end(old(self).bytes@, old(self).pos as int),
    {
        let start = self.pos;
        while self.pos < self.bytes.len() && self.bytes[self.pos] != 10u8
            invariant
                self.inv(),
                self.same_source(old(self)),
                self.tokens@ == old(self).tokens@,
                self.trivia@ == old(self).trivia@,
                start == old(self).pos,
                start <= self.pos,
                line_end(self.bytes@, start as int) == line_end(self.bytes@, self.pos as int),
            decreases self.bytes@.len() - self.pos,
        {
            self.pos = self.pos + 1;
        }
        (start, self.pos)
    }

    /// Handles a `//` line comment, a `//!` inner doc, and a `///` doc line.
    fn lex_line_or_doc(&mut self)
        requires
            old(self).inv(),
            old(self).pos + 1 < old(self).bytes@.len(),
            old(self).bytes@[old(self).pos as int] == 47u8,
            old(self).bytes@[old(self).pos + 1] == 47u8,
        ensures
            final(self).inv(),
            final(self).same_source(old(self)),
            final(self).pos > old(self).pos,
            final(self).step_done(&*old(self)),
    {
        let marker_start = self.pos;
        let ghost st = lex_step(old(self).bytes@, old(self).pos as int);
        if self.pos + 2 < self.bytes.len() && self.bytes[self.pos + 2] == 33u8 {
            self.pos = self.pos + 3;
            let (text_start, text_end) = self.line_body();
            let body = self.slice_text(text_start, text_end);
            let text = trim_str(body.as_str()).to_owned();
            let t = Token { kind: TokenKind::InnerDoc, span: Span::new(marker_start as u32, text_end as u32), text };
            proof {
                lemma_tok_fours_push(self.tokens@, t);
            }
            self.push_token(t);
            assert(tok_fours(self.tokens@) =~= tok_fours(old(self).tokens@) + st.1);
            assert(triv_views(self.trivia@) =~= triv_views(old(self).trivia@) + st.2);
        } else if self.pos + 2 < self.bytes.len() && self.bytes[self.pos + 2] == 47u8 {
            self.pos = self.pos + 3;
            self.lex_doc_line(marker_start);
            assert(triv_views(self.trivia@) =~= triv_views(old(self).trivia@) + st.2);
        } else {
            // A plain `//` line comment: no token, kept as trivia.
            self.pos = self.pos + 2;
            let (_, text_end) = self.line_body();
            let text = self.slice_text(marker_start, text_end);
            let t = SpannedTrivia {
                trivia: Trivia::LineComment(text),
                span: Span::new(marker_start as u32, text_end as u32),
            };
            proof {
                lemma_triv_views_push(self.trivia@, t);
            }
            self.push_trivia(t);
            assert(tok_fours(self.tokens@) =~= tok_fours(old(self).tokens@) + st.1);
            assert(triv_views(self.trivia@) =~= triv_views(old(self).trivia@) + st.2);
        }
    }

    /// Splits a `///` line into `DOC` prose segments and `TAG` tokens. The
    /// first `DOC` reports the marker's offset; a blank `///` line emits one
    /// empty `DOC` so the parser can split summary from body.
    fn lex_doc_line(&mut self, marker_start: usize)
        requires
            old(self).inv(),
            marker_start + 3 == old(self).pos,
            tokens_before(old(self).tokens@, marker_start as int),
            trivia_before(old(self).trivia@, marker_start as int),
        ensures
            final(self).inv(),
            final(self).same_source(old(self)),
            final(self).pos >= old(self).pos,
            final(self).pos == line_end(old(self).bytes@, old(self).pos as int),
            final(self).trivia@ == old(self).trivia@,
            tok_fours(final(self).tokens@) == tok_fours(old(self).tokens@) + doc_line_toks(
                old(self).bytes@,
                marker_start as int,
                final(self).pos as int,
            ),
    {
        let (body_start, body_end) = self.line_body();
        let ghost bytes = self.bytes@;
        let ghost m = marker_start as int;
        let ghost target = doc_scan(bytes, m, body_end as int, body_start as int, body_start as int, true);
        let ghost mut pre: Seq<TokFour> = seq![];
        let mut segment_start = body_start;
        let mut i = body_start;
        let mut emitted = false;
        // Whether the next DOC segment still reports the marker's offset.
        let mut anchored = true;
        assert(tok_fours(self.tokens@) =~= tok_fours(old(self).tokens@) + pre);
        while i < body_end
            invariant
                self.inv(),
                self.same_source(old(self)),
                self.pos == body_end,
                bytes == self.bytes@,
                m == marker_start,
                body_end <= bytes.len(),
                self.trivia@ == old(self).trivia@,
                body_start == marker_start + 3,
                body_start <= segment_start <= i <= body_end,
                tokens_before(self.tokens@, segment_start as int),
                trivia_before(self.trivia@, marker_start as int),
                tokens_before(old(self).tokens@, marker_start as int),
                anchored ==> self.tokens@ == old(self).tokens@,
                !emitted ==> self.tokens@ == old(self).tokens@,
                tok_fours(self.tokens@) == tok_fours(old(self).tokens@) + pre,
                pre + doc_scan(bytes, m, body_end as int, i as int, segment_start as int, anchored) == target,
                emitted == (pre.len() > 0),
                anchored ==> pre.len() == 0,
            decreases body_end - i,
        {
            if self.bytes[i] == 35u8 && is_tag(self.bytes, i, body_end) {
                let ghost t0 = self.tokens@;
                let e = self.flush_doc_segment(segment_start, i, marker_start, anchored);
                let ghost fl = flush_tok(bytes, m, segment_start as int, i as int, anchored);
                proof {
                    if e {
                        assert(self.tokens@ =~= t0.push(self.tokens@.last()));
                        lemma_tok_fours_push(t0, self.tokens@.last());
                    }
                }
                assert(tok_fours(self.tokens@) =~= tok_fours(t0) + fl);
                emitted = emitted || e;
                anchored = false;
                let tag_start = i;
                i = i + 1;
                proof {
                    lemma_ident_run(bytes, i as int, body_end as int);
                }
                while i < body_end && is_ident_continue(self.bytes[i])
                    invariant
                        tag_start < i <= body_end,
                        body_end <= self.bytes@.len(),
                        bytes == self.bytes@,
                        ident_run_end(bytes, tag_start + 1, body_end as int) == ident_run_end(bytes, i as int, body_end as int),
                    decreases body_end - i,
                {
                    i = i + 1;
                }
                let text = self.slice_text(tag_start, i);
                let ghost t1 = self.tokens@;
                self.push_token(
                    Token { kind: TokenKind::Tag, span: Span::new(tag_start as u32, i as u32), text },
                );
                assert(tok_fours(self.tokens@) =~= tok_fours(t1).push(
                    (TokenKind::Tag, tag_start as int, i as int, utf8_lossy(bytes.subrange(tag_start as int, i as int))),
                ));
                proof {
                    pre = pre + fl + seq![(TokenKind::Tag, tag_start as int, i as int, utf8_lossy(bytes.subrange(tag_start as int, i as int)))];
                }
                emitted = true;
                segment_start = i;
            } else {
                i = i + 1;
            }
        }
        let ghost t2 = self.tokens@;
        let e = self.flush_doc_segment(segment_start, body_end, marker_start, anchored);
        let ghost fl2 = flush_tok(bytes, m, segment_start as int, body_end as int, anchored);
        proof {
            if e {
                assert(self.tokens@ =~= t2.push(self.tokens@.last()));
                lemma_tok_fours_push(t2, self.tokens@.last());
            }
        }
        assert(tok_fours(self.tokens@) =~= tok_fours(t2) + fl2);
        emitted = emitted || e;
        proof {
            pre = pre + fl2;
        }
        assert(pre == target);
        if !emitted {
            let ghost t3 = self.tokens@;
            self.push_token(
                Token {
                    kind: TokenKind::Doc,
                    span: Span::new(marker_start as u32, body_end as u32),
                    text: String::new(),
                },
            );
            assert(tok_fours(self.tokens@) =~= tok_fours(t3).push((TokenKind::Doc, m, body_end as int, seq![])));
        }
    }

    /// Emits a trimmed `DOC` token for `[seg_start, seg_end)` if it is
    /// non-empty after trimming; the span starts at `marker_start` when
    /// `anchored`, else at `seg_start`. Returns whether a token was emitted.
    fn flush_doc_segment(
        &mut self,
        seg_start: usize,
        seg_end: usize,
        marker_start: usize,
        anchored: bool,
    ) -> (emitted: bool)
        requires
            old(self).inv(),
            marker_start < seg_start <= seg_end <= old(self).pos,
            tokens_before(old(self).tokens@, seg_start as int),
            anchored ==> tokens_before(old(self).tokens@, marker_start as int),
        ensures
            final(self).inv(),
            final(self).same_source(old(self)),
            final(self).pos == old(self).pos,
            !emitted ==> final(self).tokens@ == old(self).tokens@,
            tokens_before(final(self).tokens@, seg_end as int),
            final(self).trivia@ == old(self).trivia@,
            emitted == (seg_start < seg_end && doc_segment_text(old(self).bytes@, seg_start as int, seg_end as int).len()
                > 0),
            emitted ==> final(self).tokens@.len() == old(self).tokens@.len() + 1 && final(self).tokens@.take(
                old(self).tokens@.len() as int,
            ) == old(self).tokens@ && final(self).tokens@.last().kind == TokenKind::Doc
                && final(self).tokens@.last().span.start == (if anchored {
                marker_start
            } else {
                seg_start
            }) && final(self).tokens@.last().span.end == seg_end && final(self).tokens@.last().text@
                == doc_segment_text(old(self).bytes@, seg_start as int, seg_end as int),
    {
        if seg_start >= seg_end {
            return false;
        }
        let seg = self.slice_text(seg_start, seg_end);
        let trimmed = trim_str(seg.as_str());
        if trimmed.is_empty() {
            return false;
        }
        let text = trimmed.to_owned();
        let span_start = if anchored { marker_start } else { seg_start };
        self.push_token(
            Token { kind: TokenKind::Doc, span: Span::new(span_start as u32, seg_end as u32), text },
        );
        assert(self.tokens@.take(old(self).tokens@.len() as int) =~= old(self).tokens@);
        true
    }

    fn lex_block_comment(&mut self)
        requires
            old(self).inv(),
            old(self).pos + 1 < old(self).bytes@.len(),
            old(self).bytes@[old(self).pos as int] == 47u8,
            old(self).bytes@[old(self).pos + 1] == 42u8,
        ensures
            final(self).inv(),
            final(self).same_source(old(self)),
            final(self).pos > old(self).pos,
            final(self).step_done(&*old(self)),
    {
        let start = self.pos;
        self.pos = self.pos + 2;
        let mut done = false;
        while !done && self.pos < self.bytes.len()
            invariant
                self.inv(),
                self.same_source(old(self)),
                self.tokens@ == old(self).tokens@,
                self.trivia@ == old(self).trivia@,
                start == old(self).pos,
                start + 2 <= self.pos,
                !done ==> block_end(self.bytes@, start + 2) == block_end(self.bytes@, self.pos as int),
                done ==> block_end(self.bytes@, start + 2) == self.pos,
            decreases self.bytes@.len() - self.pos, if done { 0int } else { 1int },
        {
            if self.bytes[self.pos] == 42u8 && self.pos + 1 < self.bytes.len() && self.bytes[self.pos
                + 1] == 47u8 {
                self.pos = self.pos + 2;
                done = true;
            } else {
                self.pos = self.pos + 1;
            }
        }
        let text = self.slice_text(start, self.pos);
        let t = SpannedTrivia { trivia: Trivia::BlockComment(text), span: Span::new(start as u32, self.pos as u32) };
        proof {
            lemma_triv_views_push(self.trivia@, t);
        }
        self.push_trivia(t);
        let ghost st = lex_step(old(self).bytes@, start as int);
        assert(tok_fours(self.tokens@) =~= tok_fours(old(self).tokens@) + st.1);
        assert(triv_views(self.trivia@) =~= triv_views(old(self).trivia@) + st.2);
    }

    fn lex_hash(&mut self)
        requires
            old(self).inv(),
            old(self).pos < old(self).bytes@.len(),
            old(self).bytes@[old(self).pos as int] == 35u8,
        ensures
            final(self).inv(),
            final(self).same_source(old(self)),
            final(self).pos > old(self).pos,
            final(self).step_done(&*old(self)),
    {
        let start = self.pos;
        let ghost st = lex_step(old(self).bytes@, start as int);
        if self.pos + 1 < self.bytes.len() && self.bytes[self.pos + 1] == 91u8 {
            self.pos = self.pos + 2;
            self.push(TokenKind::HashLBracket, start, self.pos);
        } else {
            // A `#` outside a `///` line and not starting `#[` is literal
            // prose with no grammar role: skip it.
            self.pos = self.pos + 1;
        }
        assert(tok_fours(self.tokens@) =~= tok_fours(old(self).tokens@) + st.1);
        assert(triv_views(self.trivia@) =~= triv_views(old(self).trivia@) + st.2);
    }

    fn lex_string(&mut self)
        requires
            old(self).inv(),
            old(self).pos < old(self).bytes@.len(),
            old(self).bytes@[old(self).pos as int] == 34u8,
        ensures
            final(self).inv(),
            final(self).same_source(old(self)),
            final(self).pos > old(self).pos,
            final(self).step_done(&*old(self)),
    {
        let start = self.pos;
        let len = self.bytes.len();
        let ghost bytes = self.bytes@;
        let mut p = self.pos + 1;
        let mut done = false;
        while !done && p < len
            invariant
                len == self.bytes@.len(),
                bytes == self.bytes@,
                len < u32::MAX,
                start < p <= len + 1,
                !done ==> string_scan(bytes, start + 1) == string_scan(bytes, p as int),
                done ==> string_scan(bytes, start + 1) == p,
            decreases len + 2 - p, if done { 0int } else { 1int },
        {
            let b = self.bytes[p];
            if b == 92u8 {
                p = p + 2;
            } else if b == 34u8 {
                p = p + 1;
                done = true;
            } else if b == 10u8 {
                done = true;
            } else {
                p = p + 1;
            }
        }
        if p > len {
            p = len;
        }
        self.pos = p;
        self.push(TokenKind::String, start, self.pos);
        let ghost st = lex_step(old(self).bytes@, start as int);
        assert(tok_fours(self.tokens@) =~= tok_fours(old(self).tokens@) + st.1);
        assert(triv_views(self.trivia@) =~= triv_views(old(self).trivia@) + st.2);
    }

    fn lex_number(&mut self)
        requires
            old(self).inv(),
            old(self).pos < old(self).bytes@.len(),
            48u8 <= old(self).bytes@[old(self).pos as int] <= 57u8,
        ensures
            final(self).inv(),
            final(self).same_source(old(self)),
            final(self).pos > old(self).pos,
            final(self).step_done(&*old(self)),
    {
        let start = self.pos;
        self.skip_digits();
        // Optional decimal part, only when a digit follows the dot.
        if self.pos + 1 < self.bytes.len() && self.bytes[self.pos] == 46u8 && is_digit(
            self.bytes[self.pos + 1],
        ) {
            self.pos = self.pos + 1;
            self.skip_digits();
        }
        self.push(TokenKind::Number, start, self.pos);
        let ghost st = lex_step(old(self).bytes@, start as int);
        assert(tok_fours(self.tokens@) =~= tok_fours(old(self).tokens@) + st.1);
        assert(triv_views(self.trivia@) =~= triv_views(old(self).trivia@) + st.2);
    }

    /// Advances the cursor over a run of ASCII digits.
    fn skip_digits(&mut self)
        requires
            old(self).inv(),
        ensures
            final(self).inv(),
            final(self).same_source(old(self)),
            final(self).tokens@ == old(self).tokens@,
            final(self).trivia@ == old(self).trivia@,
            final(self).pos >= old(self).pos,
            final(self).pos == digits_end(old(self).bytes@, old(self).pos as int),
            old(self).pos < old(self).bytes@.len() && 48u8 <= old(self).bytes@[old(self).pos as int]
                <= 57u8 ==> final(self).pos > old(self).pos,
    {
        while self.pos < self.bytes.len() && is_digit(self.bytes[self.pos])
            invariant
                self.inv(),
                self.same_source(old(self)),
                self.tokens@ == old(self).tokens@,
                self.trivia@ == old(self).trivia@,
                self.pos >= old(self).pos,
                digits_end(self.bytes@, old(self).pos as int) == digits_end(self.bytes@, self.pos as int),
                old(self).pos < old(self).bytes@.len() && 48u8 <= old(self).bytes@[old(
                    self,
                ).pos as int] <= 57u8 && self.pos == old(self).pos ==> self.pos < self.bytes@.len()
                    && 48u8 <= self.bytes@[self.pos as int] <= 57u8,
            decreases self.bytes@.len() - self.pos,
        {
            self.pos = self.pos + 1;
        }
    }

    fn lex_ident(&mut self)
        requires
            old(self).inv(),
            old(self).pos < old(self).bytes@.len(),
            is_ident_start_byte(old(self).bytes@[old(self).pos as int]),
        ensures
            final(self).inv(),
            final(self).same_source(old(self)),
            final(self).pos > old(self).pos,
            final(self).step_done(&*old(self)),
    {
        let start = self.pos;
        self.pos = self.pos + 1;
        while self.pos < self.bytes.len() && is_ident_continue(self.bytes[self.pos])
            invariant
                self.inv(),
                self.same_source(old(self)),
                self.tokens@ == old(self).tokens@,
                self.trivia@ == old(self).trivia@,
                start == old(self).pos,
                start < self.pos,
                ident_run_end(self.bytes@, start + 1, self.bytes@.len() as int) == ident_run_end(
                    self.bytes@,
                    self.pos as int,
                    self.bytes@.len() as int,
                ),
            decreases self.bytes@.len() - self.pos,
        {
            self.pos = self.pos + 1;
        }
        let text = self.slice_text(start, self.pos);
        let kind = match TokenKind::keyword(text.as_str()) {
            Some(k) => k,
            None => TokenKind::Ident,
        };
        let t = Token { kind, span: Span::new(start as u32, self.pos as u32), text };
        proof {
            lemma_tok_fours_push(self.tokens@, t);
        }
        self.push_token(t);
        let ghost st = lex_step(old(self).bytes@, start as int);
        assert(tok_fours(self.tokens@) =~= tok_fours(old(self).tokens@) + st.1);
        assert(triv_views(self.trivia@) =~= triv_views(old(self).trivia@) + st.2);
    }

    /// Whether the byte after the cursor is `b`.
    fn next_is(&self, b: u8) -> (r: bool)
        requires
            self.inv(),
        ensures
            r == (self.pos + 1 < self.bytes@.len() && self.bytes@[self.pos + 1] == b),
    {
        self.pos + 1 < self.bytes.len() && self.bytes[self.pos + 1] == b
    }

    fn lex_punct(&mut self)
        requires
            old(self).inv(),
            old(self).pos < old(self).bytes@.len(),
            lex_step(old(self).bytes@, old(self).pos as int) == punct_step(old(self).bytes@, old(self).pos as int),
        ensures
            final(self).inv(),
            final(self).same_source(old(self)),
            final(self).pos > old(self).pos,
            final(self).step_done(&*old(self)),
    {
        let start = self.pos;
        let b = self.bytes[self.pos];
        let ghost st = punct_step(old(self).bytes@, start as int);
        // Two-byte operators first.
        let two = if b == 58u8 && self.next_is(58u8) {
            Some(TokenKind::ColonColon)
        } else if b == 61u8 && self.next_is(61u8) {
            Some(TokenKind::EqEq)
        } else if b == 33u8 && self.next_is(61u8) {
            Some(TokenKind::BangEq)
        } else if b == 60u8 && self.next_is(61u8) {
            Some(TokenKind::LAngleEq)
        } else if b == 62u8 && self.next_is(61u8) {
            Some(TokenKind::RAngleEq)
        } else if b == 38u8 && self.next_is(38u8) {
            Some(TokenKind::AmpAmp)
        } else if b == 124u8 && self.next_is(124u8) {
            Some(TokenKind::PipePipe)
        } else {
            None
        };
        assert(two == (if start + 1 < self.bytes@.len() {
            punct_two(b, self.bytes@[start + 1])
        } else {
            None
        }));
        if let Some(kind) = two {
            self.pos = self.pos + 2;
            self.push(kind, start, self.pos);
            assert(tok_fours(self.tokens@) =~= tok_fours(old(self).tokens@) + st.1);
            assert(triv_views(self.trivia@) =~= triv_views(old(self).trivia@) + st.2);
            return;
        }
        let one = if b == 58u8 {
            Some(TokenKind::Colon)
        } else if b == 46u8 {
            Some(TokenKind::Dot)
        } else if b == 59u8 {
            Some(TokenKind::Semi)
        } else if b == 44u8 {
            Some(TokenKind::Comma)
        } else if b == 123u8 {
            Some(TokenKind::LBrace)
        } else if b == 125u8 {
            Some(TokenKind::RBrace)
        } else if b == 40u8 {
            Some(TokenKind::LParen)
        } else if b == 41u8 {
            Some(TokenKind::RParen)
        } else if b == 91u8 {
            Some(TokenKind::LBracket)
        } else if b == 93u8 {
            Some(TokenKind::RBracket)
        } else if b == 61u8 {
            Some(TokenKind::Eq)
        } else if b == 124u8 {
            Some(TokenKind::Pipe)
        } else if b == 63u8 {
            Some(TokenKind::Question)
        } else if b == 60u8 {
            Some(TokenKind::LAngle)
        } else if b == 62u8 {
            Some(TokenKind::RAngle)
        } else if b == 33u8 {
            Some(TokenKind::Bang)
        } else if b == 43u8 {
            Some(TokenKind::Plus)
        } else if b == 45u8 {
            Some(TokenKind::Minus)
        } else if b == 42u8 {
            Some(TokenKind::Star)
        } else if b == 37u8 {
            Some(TokenKind::Percent)
        } else {
            None
        };
        assert(one == punct_one(b));
        match one {
            Some(kind) => {
                self.pos = self.pos + 1;
                self.push(kind, start, self.pos);
                assert(tok_fours(self.tokens@) =~= tok_fours(old(self).tokens@) + st.1);
                assert(triv_views(self.trivia@) =~= triv_views(old(self).trivia@) + st.2);
            },
            None => {
                // Unknown byte: skip it and any trailing bytes of a UTF-8
                // character so the lexer never stalls; the parser reports
                // the gap.
                self.pos = self.pos + 1;
                while self.pos < self.bytes.len() && (self.bytes[self.pos] & 0xC0u8) == 0x80u8
                    invariant
                        self.inv(),
                        self.same_source(old(self)),
                        self.tokens@ == old(self).tokens@,
                        self.trivia@ == old(self).trivia@,
                        self.pos > old(self).pos,
                        cont_end(self.bytes@, start + 1) == cont_end(self.bytes@, self.pos as int),
                    decreases self.bytes@.len() - self.pos,
                {
                    self.pos = self.pos + 1;
                }
                assert(tok_fours(self.tokens@) =~= tok_fours(old(self).tokens@) + st.1);
                assert(triv_views(self.trivia@) =~= triv_views(old(self).trivia@) + st.2);
            },
        }
    }
}

/// Whether every lexeme and trivia element lies within `[lo, hi]`.
pub open spec fn all_within(ts: Seq<TokFour>, vs: Seq<TrivThree>, lo: int, hi: int) -> bool {
    &&& forall|k: int| 0 <= k < ts.len() ==> lo <= (#[trigger] ts[k]).1 && ts[k].2 <= hi
    &&& forall|k: int| 0 <= k < vs.len() ==> lo <= (#[trigger] vs[k]).1 && vs[k].2 <= hi
}

/// Whether no lexeme overlaps a trivia element.
pub open spec fn apart(ts: Seq<TokFour>, vs: Seq<TrivThree>) -> bool {
    forall|i: int, j: int|
        0 <= i < ts.len() && 0 <= j < vs.len() ==> (#[trigger] ts[i]).2 <= (#[trigger] vs[j]).1 || vs[j].2 <= ts[i].1
}

/// The tokens of a `///` line body lie between its marker and its end.
proof fn lemma_doc_scan_within(bytes: Seq<u8>, m: int, end: int, i: int, seg: int, anchored: bool)
    requires
        m <= seg <= i,
    ensures
        forall|k: int|
            0 <= k < doc_scan(bytes, m, end, i, seg, anchored).len() ==> m <= (#[trigger] doc_scan(
                bytes,
                m,
                end,
                i,
                seg,
                anchored,
            )[k]).1 && doc_scan(bytes, m, end, i, seg, anchored)[k].2 <= end,
    decreases end - i,
{
    if i >= end || i < 0 || end > bytes.len() {
        assert(doc_scan(bytes, m, end, i, seg, anchored) == flush_tok(bytes, m, seg, end, anchored));
    } else if bytes[i] == 35u8 && i + 1 < end && is_ident_start_byte(bytes[i + 1]) {
        let j = ident_run_end(bytes, i + 1, end);
        if j <= i || j > end {
            assert(doc_scan(bytes, m, end, i, seg, anchored) =~= Seq::<TokFour>::empty());
        } else {
            lemma_doc_scan_within(bytes, m, end, j, j, false);
            let a = flush_tok(bytes, m, seg, i, anchored);
            let b = seq![(TokenKind::Tag, i, j, utf8_lossy(bytes.subrange(i, j)))];
            let c = doc_scan(bytes, m, end, j, j, false);
            let all = a + b + c;
            assert forall|k: int| 0 <= k < all.len() implies m <= (#[trigger] all[k]).1 && all[k].2 <= end by {
                if k < a.len() {
                } else if k < a.len() + 1 {
                    assert(all[k] == b[0]);
                } else {
                    assert(all[k] == c[k - a.len() - 1]);
                }
            }
            assert(doc_scan(bytes, m, end, i, seg, anchored) == all);
        }
    } else {
        lemma_doc_scan_within(bytes, m, end, i + 1, seg, anchored);
        assert(doc_scan(bytes, m, end, i, seg, anchored) == doc_scan(bytes, m, end, i + 1, seg, anchored));
    }
}

/// One lexing step emits lexemes or trivia, not both, all within the bytes
/// it steps over.
proof fn lemma_step_within(bytes: Seq<u8>, p: int)
    requires
        0 <= p < bytes.len(),
    ensures
        all_within(lex_step(bytes, p).1, lex_step(bytes, p).2, p, lex_step(bytes, p).0),
        lex_step(bytes, p).1.len() == 0 || lex_step(bytes, p).2.len() == 0,
{
    let b = bytes[p];
    let n = bytes.len();
    if b == 47u8 && p + 1 < n && bytes[p + 1] == 47u8 && !(p + 2 < n && bytes[p + 2] == 33u8) && p + 2 < n
        && bytes[p + 2] == 47u8 {
        let e = line_end(bytes, p + 3);
        lemma_doc_scan_within(bytes, p, e, p + 3, p + 3, true);
    }
}

/// The lexemes and trivia from `p` on lie within the rest of the source,
/// and none overlaps another of the other kind.
proof fn lemma_lex_from_apart(bytes: Seq<u8>, p: int)
    requires
        0 <= p,
    ensures
        all_within(lex_from(bytes, p).0, lex_from(bytes, p).1, p, bytes.len() as int),
        apart(lex_from(bytes, p).0, lex_from(bytes, p).1),
    decreases bytes.len() - p,
{
    if p < bytes.len() {
        let st = lex_step(bytes, p);
        if !(st.0 <= p || st.0 > bytes.len()) {
            lemma_step_within(bytes, p);
            lemma_lex_from_apart(bytes, st.0);
            let rest = lex_from(bytes, st.0);
            let ts = st.1 + rest.0;
            let vs = st.2 + rest.1;
            assert(lex_from(bytes, p) == (ts, vs));
            assert forall|k: int| 0 <= k < ts.len() implies p <= (#[trigger] ts[k]).1 && ts[k].2 <= bytes.len() by {
                if k >= st.1.len() {
                    assert(ts[k] == rest.0[k - st.1.len()]);
                }
            }
            assert forall|k: int| 0 <= k < vs.len() implies p <= (#[trigger] vs[k]).1 && vs[k].2 <= bytes.len() by {
                if k >= st.2.len() {
                    assert(vs[k] == rest.1[k - st.2.len()]);
                }
            }
            assert forall|i: int, j: int| 0 <= i < ts.len() && 0 <= j < vs.len() implies (#[trigger] ts[i]).2
                <= (#[trigger] vs[j]).1 || vs[j].2 <= ts[i].1 by {
                if i < st.1.len() {
                    assert(st.2.len() == 0);
                    assert(vs[j] == rest.1[j]);
                } else if j < st.2.len() {
                    assert(st.1.len() == 0);
                    assert(ts[i] == rest.0[i]);
                } else {
                    assert(ts[i] == rest.0[i - st.1.len()]);
                    assert(vs[j] == rest.1[j - st.2.len()]);
                }
            }
        }
    }
}

/// Blanks and comments yield no token: no lexeme of a source overlaps its
/// comments or blank-line runs.
pub proof fn law_comments_yield_no_token(bytes: Seq<u8>)
    ensures
        apart(lex_tokens(bytes), lex_trivia(bytes)),
{
    lemma_lex_from_apart(bytes, 0);
}

/// Whether `b` is an ASCII digit.
pub open spec fn digit_byte(b: u8) -> bool {
    48u8 <= b <= 57u8
}

/// `[s, e)` is a whole number literal of `bytes`: digits with at most one
/// `.` between them, starting and ending with a digit, that cannot be
/// extended: no digit follows it, and one without a `.` is not followed by
/// a `.` and a digit (that decimal part belongs to it).
pub open spec fn number_lexeme(bytes: Seq<u8>, s: int, e: int) -> bool {
    &&& 0 <= s < e <= bytes.len()
    &&& digit_byte(bytes[s]) && digit_byte(bytes[e - 1])
    &&& forall|i: int|
        s <= i < e ==> digit_byte(#[trigger] bytes[i]) || (bytes[i] == 46u8 && forall|j: int|
            s <= j < e && j != i ==> digit_byte(#[trigger] bytes[j]))
    &&& !(e < bytes.len() && digit_byte(bytes[e]))
    &&& (forall|i: int| s <= i < e ==> digit_byte(#[trigger] bytes[i])) ==> !(e + 1 < bytes.len() && bytes[e]
        == 46u8 && digit_byte(bytes[e + 1]))
}

proof fn lemma_digits_end(bytes: Seq<u8>, i: int)
    requires
        0 <= i,
    ensures
        i <= digits_end(bytes, i),
        i < bytes.len() ==> digits_end(bytes, i) <= bytes.len(),
        forall|j: int| i <= j < digits_end(bytes, i) ==> digit_byte(#[trigger] bytes[j]),
        !(digits_end(bytes, i) < bytes.len() && digit_byte(bytes[digits_end(bytes, i)])),
    decreases bytes.len() - i,
{
    if 0 <= i < bytes.len() && 48u8 <= bytes[i] <= 57u8 {
        lemma_digits_end(bytes, i + 1);
    }
}

proof fn lemma_number_end(bytes: Seq<u8>, p: int)
    requires
        0 <= p < bytes.len(),
        digit_byte(bytes[p]),
    ensures
        number_lexeme(bytes, p, number_end(bytes, p)),
{
    lemma_digits_end(bytes, p);
    let a = digits_end(bytes, p);
    if a + 1 < bytes.len() && bytes[a] == 46u8 && 48u8 <= bytes[a + 1] <= 57u8 {
        lemma_digits_end(bytes, a + 1);
        let e = digits_end(bytes, a + 1);
        assert(forall|i: int| p <= i < e ==> digit_byte(#[trigger] bytes[i]) || (bytes[i] == 46u8 && forall|j: int|
            p <= j < e && j != i ==> digit_byte(#[trigger] bytes[j]))) by {
            assert forall|i: int| p <= i < e implies digit_byte(#[trigger] bytes[i]) || (bytes[i] == 46u8
                && forall|j: int| p <= j < e && j != i ==> digit_byte(#[trigger] bytes[j])) by {
                if i == a {
                    assert forall|j: int| p <= j < e && j != i implies digit_byte(#[trigger] bytes[j]) by {
                        if j < a {
                        } else {
                        }
                    }
                }
            }
        }
        assert(!digit_byte(bytes[a]));
    }
}

/// The tokens of a `///` line body are `DOC` and `TAG` lexemes.
proof fn lemma_doc_scan_kinds(bytes: Seq<u8>, m: int, end: int, i: int, seg: int, anchored: bool)
    ensures
        forall|k: int|
            0 <= k < doc_scan(bytes, m, end, i, seg, anchored).len() ==> (#[trigger] doc_scan(
                bytes,
                m,
                end,
                i,
                seg,
                anchored,
            )[k]).0 == TokenKind::Doc || doc_scan(bytes, m, end, i, seg, anchored)[k].0 == TokenKind::Tag,
    decreases end - i,
{
    if i >= end || i < 0 || end > bytes.len() {
    } else if bytes[i] == 35u8 && i + 1 < end && is_ident_start_byte(bytes[i + 1]) {
        let j = ident_run_end(bytes, i + 1, end);
        if !(j <= i || j > end) {
            lemma_doc_scan_kinds(bytes, m, end, j, j, false);
            let a = flush_tok(bytes, m, seg, i, anchored);
            let b = seq![(TokenKind::Tag, i, j, utf8_lossy(bytes.subrange(i, j)))];
            let c = doc_scan(bytes, m, end, j, j, false);
            let all = a + b + c;
            assert forall|k: int| 0 <= k < all.len() implies (#[trigger] all[k]).0 == TokenKind::Doc || all[k].0
                == TokenKind::Tag by {
                if k < a.len() {
                } else if k < a.len() + 1 {
                    assert(all[k] == b[0]);
                } else {
                    assert(all[k] == c[k - a.len() - 1]);
                }
            }
            assert(doc_scan(bytes, m, end, i, seg, anchored) == all);
        }
    } else {
        lemma_doc_scan_kinds(bytes, m, end, i + 1, seg, anchored);
    }
}

/// Every `NUMBER` one lexing step emits is a whole number literal.
proof fn lemma_step_numbers(bytes: Seq<u8>, p: int)
    requires
        0 <= p < bytes.len(),
    ensures
        forall|k: int|
            0 <= k < lex_step(bytes, p).1.len() && (#[trigger] lex_step(bytes, p).1[k]).0 == TokenKind::Number
                ==> number_lexeme(bytes, lex_step(bytes, p).1[k].1, lex_step(bytes, p).1[k].2),
{
    let b = bytes[p];
    let n = bytes.len();
    let ts = lex_step(bytes, p).1;
    if 48u8 <= b <= 57u8 {
        lemma_number_end(bytes, p);
    } else if b == 47u8 {
        if p + 1 < n && bytes[p + 1] == 47u8 && !(p + 2 < n && bytes[p + 2] == 33u8) && p + 2 < n && bytes[p
            + 2] == 47u8 {
            let e = line_end(bytes, p + 3);
            lemma_doc_scan_kinds(bytes, p, e, p + 3, p + 3, true);
        }
        assert forall|k: int| 0 <= k < ts.len() implies (#[trigger] ts[k]).0 != TokenKind::Number by {}
    } else if is_ident_start_byte(b) {
        let e = ident_run_end(bytes, p + 1, n as int);
        let text = utf8_lossy(bytes.subrange(p, e));
        assert(keyword_of(text) != Some(TokenKind::Number));
    }
}

/// Every `NUMBER` lexed from `p` on is a whole number literal.
proof fn lemma_lex_from_numbers(bytes: Seq<u8>, p: int)
    requires
        0 <= p,
    ensures
        forall|k: int|
            0 <= k < lex_from(bytes, p).0.len() && (#[trigger] lex_from(bytes, p).0[k]).0 == TokenKind::Number
                ==> number_lexeme(bytes, lex_from(bytes, p).0[k].1, lex_from(bytes, p).0[k].2),
    decreases bytes.len() - p,
{
    if p < bytes.len() {
        let st = lex_step(bytes, p);
        if !(st.0 <= p || st.0 > bytes.len()) {
            lemma_step_numbers(bytes, p);
            lemma_lex_from_numbers(bytes, st.0);
            let rest = lex_from(bytes, st.0);
            let ts = st.1 + rest.0;
            assert(lex_from(bytes, p).0 == ts);
            assert forall|k: int| 0 <= k < ts.len() && (#[trigger] ts[k]).0 == TokenKind::Number implies number_lexeme(
                bytes,
                ts[k].1,
                ts[k].2,
            ) by {
                if k >= st.1.len() {
                    assert(ts[k] == rest.0[k - st.1.len()]);
                } else {
                    assert(ts[k] == st.1[k]);
                }
            }
        }
    }
}

/// Every `NUMBER` lexeme of a source is a whole number literal: digits,
/// with at most one `.` between digits, never followed by a digit, and a
/// run of digits followed by a `.` and a digit always takes that decimal
/// part (`0.05` is one number, not `0`, `.`, `05`).
pub proof fn law_number_lexemes_are_whole(bytes: Seq<u8>)
    ensures
        forall|k: int|
            0 <= k < lex_tokens(bytes).len() && (#[trigger] lex_tokens(bytes)[k]).0 == TokenKind::Number
                ==> number_lexeme(bytes, lex_tokens(bytes)[k].1, lex_tokens(bytes)[k].2),
{
    lemma_lex_from_numbers(bytes, 0);
}

} // verus!
