//! Cursor resolution shared by hover and go-to-definition.
//!
//! Works on the token stream, so it survives partial parses, then consults
//! the resolved workspace. It understands two reference forms: a `::` path
//! (a bare name or a full FQN) naming a node or `data`, and a `.` member
//! after `self` or a node name naming a callable or field. A caret resting
//! just past an identifier's last character still resolves it.

use crate::ast::{BodyMember, Decl, DeclKind, Item, Module, Node};
use crate::lexer::{TokFour, lex_tokens, tok_fours, tokenize};
use crate::model::check::strs_view;
use crate::model::cross_module::{tick, ticked};
use crate::model::symbols::{
    first_entry, last_sym, latest, member_at_from, member_view, member_views, members_of, members_views, qualify,
    summary_of, summary_text, sym_view, sym_views, symbol_keyword, symbol_module, symbol_module_of, Member,
    MemberKind, MemberView, SymView, Symbol, Workspace,
};
use crate::project::join_fqn;
use crate::span::Span;
use crate::token::{Token, TokenKind};
use vstd::prelude::*;
use vstd::string::{StrSliceExecFns, StringExecFns, StringSliceAdditionalSpecFns};

verus! {

/// A resolved cursor hit: where its definition lives and how to describe it.
#[derive(Debug)]
pub struct Hit {
    /// Span of the clicked identifier in the active source.
    pub clicked: Span,
    /// FQN of the module the definition lives in.
    pub target_module: String,
    /// Span of the definition within that module's source.
    pub target_span: Span,
    /// The definition's FQN: a node's or `data`'s, or for a member its
    /// owner's FQN with `::member` appended.
    pub target_fqn: String,
    /// A title line, such as ``system `banking::Bank` `` or
    /// ``callable `S.run` ``.
    pub title: String,
    /// The doc summary or signature shown under the title.
    pub body: Option<String>,
}

/// A hit as plain values.
pub type HitView = (Span, Seq<char>, Span, Seq<char>, Seq<char>, Option<Seq<char>>);

/// The plain view of a hit.
pub open spec fn hit_view(h: Hit) -> HitView {
    (
        h.clicked,
        h.target_module@,
        h.target_span,
        h.target_fqn@,
        h.title@,
        match h.body {
            Some(b) => Some(b@),
            None => None,
        },
    )
}

/// A token as plain values.
pub type TokView = (TokenKind, Span, Seq<char>);

/// The plain views of tokens.
pub open spec fn tok_views(ts: Seq<Token>) -> Seq<TokView> {
    ts.map_values(|t: Token| (t.kind, t.span, t.text@))
}

// ----- locating the identifier ------------------------------------------------

/// The first identifier token from `i` on whose span holds `o`.
pub open spec fn first_covering(ts: Seq<TokView>, o: int, i: int) -> Option<int>
    decreases ts.len() - i,
{
    if i < 0 || i >= ts.len() {
        None
    } else if ts[i].0 == TokenKind::Ident && ts[i].1.start <= o < ts[i].1.end {
        Some(i)
    } else {
        first_covering(ts, o, i + 1)
    }
}

/// The identifier token at `offset`, or the one ending there.
pub open spec fn ident_index_of(ts: Seq<TokView>, offset: int) -> Option<int> {
    match first_covering(ts, offset, 0) {
        Some(i) => Some(i),
        None => if offset >= 1 {
            first_covering(ts, offset - 1, 0)
        } else {
            None
        },
    }
}

proof fn lemma_first_covering(ts: Seq<TokView>, o: int, i: int)
    requires
        0 <= i,
    ensures
        first_covering(ts, o, i) matches Some(j) ==> i <= j < ts.len(),
    decreases ts.len() - i,
{
    if i < ts.len() && !(ts[i].0 == TokenKind::Ident && ts[i].1.start <= o < ts[i].1.end) {
        lemma_first_covering(ts, o, i + 1);
    }
}

/// The first identifier token covering `o`.
fn covering(tokens: &Vec<Token>, o: u32) -> (r: Option<usize>)
    ensures
        match r {
            Some(i) => first_covering(tok_views(tokens@), o as int, 0) == Some(i as int) && i < tokens@.len(),
            None => first_covering(tok_views(tokens@), o as int, 0) is None,
        },
{
    let ghost tv = tok_views(tokens@);
    proof {
        lemma_first_covering(tv, o as int, 0);
    }
    let mut i: usize = 0;
    while i < tokens.len()
        invariant
            i <= tokens@.len(),
            tv == tok_views(tokens@),
            first_covering(tv, o as int, 0) == first_covering(tv, o as int, i as int),
        decreases tokens@.len() - i,
    {
        let t = &tokens[i];
        if t.kind == TokenKind::Ident && t.span.start <= o && o < t.span.end {
            return Some(i);
        }
        i = i + 1;
    }
    None
}

/// The identifier token at `offset`, or the one ending exactly there.
fn ident_index(tokens: &Vec<Token>, offset: u32) -> (r: Option<usize>)
    ensures
        match r {
            Some(i) => ident_index_of(tok_views(tokens@), offset as int) == Some(i as int) && i < tokens@.len(),
            None => ident_index_of(tok_views(tokens@), offset as int) is None,
        },
{
    match covering(tokens, offset) {
        Some(i) => Some(i),
        None => if offset >= 1 {
            covering(tokens, offset - 1)
        } else {
            None
        },
    }
}

/// The first token of the `Ident (:: Ident)*` path holding token `i`.
pub open spec fn seg_start(ts: Seq<TokView>, i: int) -> int
    decreases i,
{
    if i >= 2 && i < ts.len() + 2 && ts[i - 1].0 == TokenKind::ColonColon && ts[i - 2].0 == TokenKind::Ident {
        seg_start(ts, i - 2)
    } else {
        i
    }
}

/// The last token of the `Ident (:: Ident)*` path holding token `i`.
pub open spec fn seg_end(ts: Seq<TokView>, i: int) -> int
    decreases ts.len() - i,
{
    if 0 <= i && i + 2 < ts.len() && ts[i + 1].0 == TokenKind::ColonColon && ts[i + 2].0 == TokenKind::Ident {
        seg_end(ts, i + 2)
    } else {
        i
    }
}

/// The texts of every second token from `a` to `b`.
pub open spec fn texts_between(ts: Seq<TokView>, a: int, b: int) -> Seq<Seq<char>>
    decreases b - a + 2,
{
    if a > b {
        seq![]
    } else {
        seq![ts[a].2] + texts_between(ts, a + 2, b)
    }
}

/// The segment texts of the path holding token `i`, in source order.
pub open spec fn path_segments_of(ts: Seq<TokView>, i: int) -> Seq<Seq<char>> {
    texts_between(ts, seg_start(ts, i), seg_end(ts, i))
}

proof fn lemma_seg_bounds(ts: Seq<TokView>, i: int)
    requires
        0 <= i < ts.len(),
    ensures
        0 <= seg_start(ts, i) <= i,
        i <= seg_end(ts, i) < ts.len(),
        (i - seg_start(ts, i)) % 2 == 0,
        (seg_end(ts, i) - i) % 2 == 0,
    decreases ts.len() + i,
{
    if i >= 2 && ts[i - 1].0 == TokenKind::ColonColon && ts[i - 2].0 == TokenKind::Ident {
        lemma_seg_start(ts, i - 2);
    }
    lemma_seg_end(ts, i);
}

proof fn lemma_seg_start(ts: Seq<TokView>, i: int)
    requires
        0 <= i < ts.len(),
    ensures
        0 <= seg_start(ts, i) <= i,
        (i - seg_start(ts, i)) % 2 == 0,
    decreases i,
{
    if i >= 2 && ts[i - 1].0 == TokenKind::ColonColon && ts[i - 2].0 == TokenKind::Ident {
        lemma_seg_start(ts, i - 2);
    }
}

proof fn lemma_seg_end(ts: Seq<TokView>, i: int)
    requires
        0 <= i < ts.len(),
    ensures
        i <= seg_end(ts, i) < ts.len(),
        (seg_end(ts, i) - i) % 2 == 0,
    decreases ts.len() - i,
{
    if i + 2 < ts.len() && ts[i + 1].0 == TokenKind::ColonColon && ts[i + 2].0 == TokenKind::Ident {
        lemma_seg_end(ts, i + 2);
    }
}

/// The segment texts of the path holding token `idx`.
fn path_segments(tokens: &Vec<Token>, idx: usize) -> (r: Vec<String>)
    requires
        idx < tokens@.len(),
    ensures
        strs_view(r@) == path_segments_of(tok_views(tokens@), idx as int),
{
    let ghost tv = tok_views(tokens@);
    proof {
        lemma_seg_start(tv, idx as int);
        lemma_seg_end(tv, idx as int);
    }
    let mut start = idx;
    while start >= 2 && tokens[start - 1].kind == TokenKind::ColonColon && tokens[start - 2].kind == TokenKind::Ident
        invariant
            start <= idx < tokens@.len(),
            tv == tok_views(tokens@),
            seg_start(tv, idx as int) == seg_start(tv, start as int),
        decreases start,
    {
        start = start - 2;
    }
    let mut end = idx;
    while tokens.len() > 2 && end < tokens.len() - 2 && tokens[end + 1].kind == TokenKind::ColonColon
        && tokens[end + 2].kind == TokenKind::Ident
        invariant
            idx <= end < tokens@.len(),
            tv == tok_views(tokens@),
            seg_end(tv, idx as int) == seg_end(tv, end as int),
        decreases tokens@.len() - end,
    {
        end = end + 2;
    }
    let ghost want = path_segments_of(tv, idx as int);
    let mut out: Vec<String> = Vec::new();
    let mut i = start;
    assert(want =~= strs_view(out@) + texts_between(tv, start as int, end as int));
    while i < end
        invariant
            start <= i <= end,
            end < tokens@.len(),
            (end - i) % 2 == 0,
            tv == tok_views(tokens@),
            want == strs_view(out@) + texts_between(tv, i as int, end as int),
        decreases end - i,
    {
        let ghost o0 = strs_view(out@);
        out.push(tokens[i].text.clone());
        assert(strs_view(out@) =~= o0.push(tv[i as int].2));
        assert(seq![tv[i as int].2] + texts_between(tv, i + 2, end as int) == texts_between(tv, i as int, end as int));
        assert(o0 + texts_between(tv, i as int, end as int) =~= strs_view(out@) + texts_between(tv, i + 2, end as int));
        i = i + 2;
    }
    let ghost o1 = strs_view(out@);
    out.push(tokens[end].text.clone());
    assert(strs_view(out@) =~= o1.push(tv[end as int].2));
    assert(texts_between(tv, end + 2, end as int) =~= seq![]);
    assert(texts_between(tv, end as int, end as int) =~= seq![tv[end as int].2]);
    assert(want =~= strs_view(out@));
    out
}

// ----- resolving names ---------------------------------------------------------

/// Whether a reference from module `from` may reach the symbol `s`: one of
/// `from` itself, or a `public` one.
pub open spec fn visible_from(s: SymView, from: Seq<char>) -> bool {
    symbol_module_of(s.1) == from || s.3
}

/// The symbols of `ss` named `name`, outside the dependency modules `ext`,
/// that `from` may reach, in order.
pub open spec fn name_matches(ss: Seq<SymView>, name: Seq<char>, ext: Seq<Seq<char>>, from: Seq<char>) -> Seq<SymView>
    decreases ss.len(),
{
    if ss.len() == 0 {
        seq![]
    } else {
        name_matches(ss.drop_last(), name, ext, from) + if ss.last().0 == name && !ext.contains(
            symbol_module_of(ss.last().1),
        ) && visible_from(ss.last(), from) {
            seq![ss.last()]
        } else {
            seq![]
        }
    }
}

/// The one local workspace symbol named `name` that `from` may reach, if
/// exactly one exists: an ambiguous bare name is not guessed, and a bare
/// name never resolves into a dependency.
pub open spec fn unique_symbol_of(ws: Workspace, from: Seq<char>, name: Seq<char>) -> Option<SymView> {
    let c = name_matches(latest(sym_views(ws.index_seq()), true), name, ws.external_seq(), from);
    if c.len() == 1 {
        Some(c[0])
    } else {
        None
    }
}

/// The symbol a `::` path written in `from` names: a bare name's symbol in
/// `from` (else the unique reachable one elsewhere); a qualified path's
/// exact FQN, when `from` may reach it.
pub open spec fn resolve_node_of(ws: Workspace, from: Seq<char>, segs: Seq<Seq<char>>) -> Option<SymView> {
    if segs.len() == 1 {
        let k = first_entry(ws.entry_seq(), from);
        if k < 0 {
            None
        } else {
            let sv = sym_views(ws.entry_seq()[k].model.declared_seq());
            let j = last_sym(sv, segs[0], false);
            if j >= 0 {
                Some(sv[j])
            } else {
                unique_symbol_of(ws, from, segs[0])
            }
        }
    } else {
        let idx = sym_views(ws.index_seq());
        let j = last_sym(idx, join_fqn(segs), true);
        if j >= 0 && visible_from(idx[j], from) {
            Some(idx[j])
        } else {
            None
        }
    }
}

/// Joins segments with `::`.
pub(crate) fn join_segments(segs: &Vec<String>) -> (r: String)
    ensures
        r@ == join_fqn(strs_view(segs@)),
{
    let ghost all = strs_view(segs@);
    let mut out = String::new();
    let mut i: usize = 0;
    assert(all.take(0) =~= seq![]);
    while i < segs.len()
        invariant
            i <= segs@.len(),
            all == strs_view(segs@),
            out@ == join_fqn(all.take(i as int)),
        decreases segs@.len() - i,
    {
        let ghost t = all.take(i + 1);
        assert(t.drop_last() =~= all.take(i as int));
        assert(t.last() == segs@[i as int]@);
        if i > 0 {
            out.append("::");
        }
        out.append(segs[i].as_str());
        proof {
            reveal_strlit("::");
        }
        if i == 0 {
            assert(t.len() == 1);
            assert(out@ =~= t[0]);
        } else {
            assert(out@ =~= join_fqn(all.take(i as int)) + seq![':', ':'] + t.last());
        }
        i = i + 1;
    }
    assert(all.take(all.len() as int) =~= all);
    out
}

/// Whether the symbol `s` is reachable from module `from`.
fn visible(s: &Symbol, from: &str) -> (b: bool)
    ensures
        b == visible_from(sym_view(*s), from@),
{
    let m = symbol_module(s.fqn.as_str());
    crate::strs::str_eq(m.as_str(), from) || s.is_public
}

/// The unique reachable local symbol named `name` (see
/// [`unique_symbol_of`]).
fn unique_symbol(ws: &Workspace, from: &str, name: &str) -> (r: Option<Symbol>)
    ensures
        match r {
            Some(s) => unique_symbol_of(*ws, from@, name@) == Some(sym_view(s)),
            None => unique_symbol_of(*ws, from@, name@) is None,
        },
{
    let all = ws.symbols();
    let ghost sv = sym_views(all@);
    let ghost ext = ws.external_seq();
    let mut count: usize = 0;
    let mut first: Option<Symbol> = None;
    let mut i: usize = 0;
    assert(sv.take(0) =~= seq![]);
    while i < all.len()
        invariant
            i <= all@.len(),
            sv == sym_views(all@),
            ext == ws.external_seq(),
            count == name_matches(sv.take(i as int), name@, ext, from@).len(),
            count <= i,
            count > 0 ==> (first matches Some(f) && sym_view(f) == name_matches(sv.take(i as int), name@, ext, from@)[0]),
        decreases all@.len() - i,
    {
        let s = &all[i];
        let ghost before = name_matches(sv.take(i as int), name@, ext, from@);
        assert(sv.take(i + 1).drop_last() =~= sv.take(i as int));
        assert(sv.take(i + 1).last() == sym_view(*s));
        let m = symbol_module(s.fqn.as_str());
        if crate::strs::str_eq(s.name.as_str(), name) && !ws.is_external_module(m.as_str()) && visible(s, from) {
            if count == 0 {
                first = Some(s.clone());
            }
            count = count + 1;
            assert(name_matches(sv.take(i + 1), name@, ext, from@) =~= before.push(sym_view(*s)));
        } else {
            assert(name_matches(sv.take(i + 1), name@, ext, from@) =~= before);
        }
        i = i + 1;
    }
    assert(sv.take(all@.len() as int) =~= sv);
    if count == 1 {
        first
    } else {
        None
    }
}

/// The symbol a `::` path names (see [`resolve_node_of`]).
fn resolve_node(ws: &Workspace, from: &str, segs: &Vec<String>) -> (r: Option<Symbol>)
    ensures
        match r {
            Some(s) => resolve_node_of(*ws, from@, strs_view(segs@)) == Some(sym_view(s)),
            None => resolve_node_of(*ws, from@, strs_view(segs@)) is None,
        },
{
    if segs.len() == 1 {
        let entry = match ws.module(from) {
            Some(e) => e,
            None => return None,
        };
        match entry.model.symbol(segs[0].as_str()) {
            Some(s) => Some(s.clone()),
            None => unique_symbol(ws, from, segs[0].as_str()),
        }
    } else {
        let fqn = join_segments(segs);
        match ws.symbol(fqn.as_str()) {
            Some(s) => if visible(s, from) {
                Some(s.clone())
            } else {
                None
            },
            None => None,
        }
    }
}

/// The `(module, name)` of the node or `data` a `::` path names.
pub fn resolve_owner(ws: &Workspace, from_fqn: &str, segments: &Vec<String>) -> (r: Option<(String, String)>)
    ensures
        match r {
            Some(p) => resolve_node_of(*ws, from_fqn@, strs_view(segments@)) matches Some(s) && p.0@
                == symbol_module_of(s.1) && p.1@ == s.0,
            None => resolve_node_of(*ws, from_fqn@, strs_view(segments@)) is None,
        },
{
    match resolve_node(ws, from_fqn, segments) {
        Some(s) => Some((symbol_module(s.fqn.as_str()), s.name)),
        None => None,
    }
}

/// The module portion of an FQN (`a::b::C` gives `a::b`); empty for a bare
/// name.
pub fn module_of(fqn: &str) -> (r: String)
    ensures
        r@ == symbol_module_of(fqn@),
{
    symbol_module(fqn)
}

// ----- enclosing node and doc summaries --------------------------------------------

/// The innermost node around `offset` after visiting a declaration, given
/// the one found before it.
pub open spec fn enc_decl(d: Decl, offset: int, found: Option<Seq<char>>) -> Option<Seq<char>>
    decreases d,
{
    match d.kind {
        DeclKind::Person(n) => enc_node(n, offset, found),
        DeclKind::System(n) => enc_node(n, offset, found),
        DeclKind::Container(n) => enc_node(n, offset, found),
        DeclKind::Component(n) => enc_node(n, offset, found),
        _ => found,
    }
}

/// The innermost node around `offset` after visiting a node: itself when
/// its span holds the offset, then its nested declarations.
pub open spec fn enc_node(n: Node, offset: int, found: Option<Seq<char>>) -> Option<Seq<char>>
    decreases n,
{
    if n.span.start <= offset < n.span.end {
        match n.body {
            Some(ms) => enc_members(ms@, offset, Some(n.name.name@)),
            None => Some(n.name.name@),
        }
    } else {
        found
    }
}

/// The innermost node around `offset` after visiting body members.
pub open spec fn enc_members(ms: Seq<BodyMember>, offset: int, found: Option<Seq<char>>) -> Option<Seq<char>>
    decreases ms,
{
    if ms.len() == 0 {
        found
    } else {
        let f = enc_members(ms.subrange(0, ms.len() - 1), offset, found);
        match ms[ms.len() - 1] {
            BodyMember::Decl(d) => enc_decl(d, offset, f),
            BodyMember::Callable(_) => f,
        }
    }
}

/// The innermost node around `offset` after visiting items.
pub open spec fn enc_items(items: Seq<Item>, offset: int) -> Option<Seq<char>>
    decreases items.len(),
{
    if items.len() == 0 {
        None
    } else {
        let f = enc_items(items.drop_last(), offset);
        match items.last() {
            Item::Decl(d) => enc_decl(d, offset, f),
            Item::Feature(_) => f,
        }
    }
}

/// The node a declaration introduces, if it is one.
pub open spec fn decl_node(d: Decl) -> Option<Node> {
    match d.kind {
        DeclKind::Person(n) => Some(n),
        DeclKind::System(n) => Some(n),
        DeclKind::Container(n) => Some(n),
        DeclKind::Component(n) => Some(n),
        _ => None,
    }
}

/// Whether the span of node `n` holds `offset`.
pub open spec fn holds(n: Node, offset: int) -> bool {
    n.span.start <= offset < n.span.end
}

/// Whether some node declared among `ms` holds `offset`.
pub open spec fn member_holds(ms: Seq<BodyMember>, offset: int) -> bool {
    exists|i: int|
        0 <= i < ms.len() && (#[trigger] ms[i] matches BodyMember::Decl(d) && decl_node(d) matches Some(m) && holds(
            m,
            offset,
        ))
}

/// Whether `n` is an innermost node around `offset`: it holds the offset
/// and no node declared in its body does.
pub open spec fn innermost(n: Node, offset: int) -> bool {
    holds(n, offset) && match n.body {
        None => true,
        Some(ms) => !member_holds(ms@, offset),
    }
}

/// The name of an optional node.
pub open spec fn name_of(n: Option<Node>) -> Option<Seq<char>> {
    match n {
        Some(m) => Some(m.name.name@),
        None => None,
    }
}

/// [`enc_decl`], giving the node rather than its name.
pub open spec fn enc_decl_n(d: Decl, offset: int, found: Option<Node>) -> Option<Node>
    decreases d,
{
    match d.kind {
        DeclKind::Person(n) => enc_node_n(n, offset, found),
        DeclKind::System(n) => enc_node_n(n, offset, found),
        DeclKind::Container(n) => enc_node_n(n, offset, found),
        DeclKind::Component(n) => enc_node_n(n, offset, found),
        _ => found,
    }
}

/// [`enc_node`], giving the node rather than its name.
pub open spec fn enc_node_n(n: Node, offset: int, found: Option<Node>) -> Option<Node>
    decreases n,
{
    if holds(n, offset) {
        match n.body {
            Some(ms) => enc_members_n(ms@, offset, Some(n)),
            None => Some(n),
        }
    } else {
        found
    }
}

/// [`enc_members`], giving the node rather than its name.
pub open spec fn enc_members_n(ms: Seq<BodyMember>, offset: int, found: Option<Node>) -> Option<Node>
    decreases ms,
{
    if ms.len() == 0 {
        found
    } else {
        let f = enc_members_n(ms.subrange(0, ms.len() - 1), offset, found);
        match ms[ms.len() - 1] {
            BodyMember::Decl(d) => enc_decl_n(d, offset, f),
            BodyMember::Callable(_) => f,
        }
    }
}

/// [`enc_items`], giving the node rather than its name.
pub open spec fn enc_items_n(items: Seq<Item>, offset: int) -> Option<Node>
    decreases items.len(),
{
    if items.len() == 0 {
        None
    } else {
        let f = enc_items_n(items.drop_last(), offset);
        match items.last() {
            Item::Decl(d) => enc_decl_n(d, offset, f),
            Item::Feature(_) => f,
        }
    }
}

/// Whether an optional node is innermost around `offset`.
pub open spec fn inner_opt(n: Option<Node>, offset: int) -> bool {
    match n {
        Some(m) => innermost(m, offset),
        None => false,
    }
}

proof fn lemma_enc_decl(d: Decl, offset: int, found: Option<Node>)
    ensures
        enc_decl(d, offset, name_of(found)) == name_of(enc_decl_n(d, offset, found)),
        (decl_node(d) matches Some(m) && holds(m, offset)) ==> inner_opt(enc_decl_n(d, offset, found), offset),
        !(decl_node(d) matches Some(m) && holds(m, offset)) ==> enc_decl_n(d, offset, found) == found,
    decreases d,
{
    match d.kind {
        DeclKind::Person(n) => lemma_enc_node(n, offset, found),
        DeclKind::System(n) => lemma_enc_node(n, offset, found),
        DeclKind::Container(n) => lemma_enc_node(n, offset, found),
        DeclKind::Component(n) => lemma_enc_node(n, offset, found),
        _ => {},
    }
}

proof fn lemma_enc_node(n: Node, offset: int, found: Option<Node>)
    ensures
        enc_node(n, offset, name_of(found)) == name_of(enc_node_n(n, offset, found)),
        holds(n, offset) ==> inner_opt(enc_node_n(n, offset, found), offset),
        !holds(n, offset) ==> enc_node_n(n, offset, found) == found,
    decreases n,
{
    if holds(n, offset) {
        match n.body {
            Some(ms) => {
                assert(decreases_to!(n => n.body));
                lemma_enc_members(ms@, offset, Some(n));
            },
            None => {},
        }
    }
}

proof fn lemma_enc_members(ms: Seq<BodyMember>, offset: int, found: Option<Node>)
    ensures
        enc_members(ms, offset, name_of(found)) == name_of(enc_members_n(ms, offset, found)),
        member_holds(ms, offset) ==> inner_opt(enc_members_n(ms, offset, found), offset),
        !member_holds(ms, offset) ==> enc_members_n(ms, offset, found) == found,
    decreases ms,
{
    if ms.len() > 0 {
        let pre = ms.subrange(0, ms.len() - 1);
        assert(decreases_to!(ms => pre));
        lemma_enc_members(pre, offset, found);
        let f = enc_members_n(pre, offset, found);
        let last = ms[ms.len() - 1];
        assert(member_holds(ms, offset) <==> member_holds(pre, offset) || (last matches BodyMember::Decl(d)
            && decl_node(d) matches Some(m) && holds(m, offset))) by {
            if member_holds(pre, offset) {
                let i = choose|i: int|
                    0 <= i < pre.len() && (#[trigger] pre[i] matches BodyMember::Decl(d) && decl_node(d) matches Some(
                        m,
                    ) && holds(m, offset));
                assert(ms[i] == pre[i]);
            }
            if member_holds(ms, offset) {
                let i = choose|i: int|
                    0 <= i < ms.len() && (#[trigger] ms[i] matches BodyMember::Decl(d) && decl_node(d) matches Some(
                        m,
                    ) && holds(m, offset));
                if i < ms.len() - 1 {
                    assert(pre[i] == ms[i]);
                }
            }
            if last matches BodyMember::Decl(d) && decl_node(d) matches Some(m) && holds(m, offset) {
                assert(ms[ms.len() - 1] == last);
            }
        }
        match last {
            BodyMember::Decl(d) => {
                assert(decreases_to!(ms => ms[ms.len() - 1]));
                lemma_enc_decl(d, offset, f);
            },
            BodyMember::Callable(_) => {},
        }
    }
}

/// `enclosing_node` picks an innermost node: when it finds one, that node
/// of the module holds the offset and no node declared in its body does.
pub proof fn law_enclosing_is_innermost(items: Seq<Item>, offset: int)
    ensures
        enc_items(items, offset) == name_of(enc_items_n(items, offset)),
        enc_items_n(items, offset) is Some ==> inner_opt(enc_items_n(items, offset), offset),
    decreases items.len(),
{
    if items.len() > 0 {
        law_enclosing_is_innermost(items.drop_last(), offset);
        match items.last() {
            Item::Decl(d) => lemma_enc_decl(d, offset, enc_items_n(items.drop_last(), offset)),
            Item::Feature(_) => {},
        }
    }
}

/// Visits a declaration for [`enclosing_node`].
fn visit_decl(decl: &Decl, offset: u32, found: &mut Option<String>)
    ensures
        match *final(found) {
            Some(s) => enc_decl(*decl, offset as int, match *old(found) {
                Some(t) => Some(t@),
                None => None,
            }) == Some(s@),
            None => enc_decl(*decl, offset as int, match *old(found) {
                Some(t) => Some(t@),
                None => None,
            }) is None,
        },
    decreases decl,
{
    match &decl.kind {
        DeclKind::Person(node) | DeclKind::System(node) | DeclKind::Container(node) | DeclKind::Component(node) => {
            proof {
                if decl.kind is Person {
                    assert(decreases_to!(decl.kind => decl.kind->Person_0));
                } else if decl.kind is System {
                    assert(decreases_to!(decl.kind => decl.kind->System_0));
                } else if decl.kind is Container {
                    assert(decreases_to!(decl.kind => decl.kind->Container_0));
                } else {
                    assert(decreases_to!(decl.kind => decl.kind->Component_0));
                }
            }
            visit_node(node, offset, found);
        },
        _ => {},
    }
}

/// Visits a node for [`enclosing_node`].
fn visit_node(node: &Node, offset: u32, found: &mut Option<String>)
    ensures
        match *final(found) {
            Some(s) => enc_node(*node, offset as int, match *old(found) {
                Some(t) => Some(t@),
                None => None,
            }) == Some(s@),
            None => enc_node(*node, offset as int, match *old(found) {
                Some(t) => Some(t@),
                None => None,
            }) is None,
        },
    decreases node,
{
    if node.span.start <= offset && offset < node.span.end {
        *found = Some(node.name.name.clone());
        match &node.body {
            Some(ms) => {
                proof {
                    assert(decreases_to!(*node => node.body));
                    assert(decreases_to!(node.body => node.body->0));
                }
                let mut i: usize = 0;
                assert(ms@.subrange(0, 0) =~= seq![]);
                while i < ms.len()
                    invariant
                        i <= ms@.len(),
                        node.body == Some(*ms),
                        decreases_to!(*node => *ms),
                        match *found {
                            Some(s) => enc_members(ms@.subrange(0, i as int), offset as int, Some(node.name.name@))
                                == Some(s@),
                            None => enc_members(ms@.subrange(0, i as int), offset as int, Some(node.name.name@)) is None,
                        },
                    decreases ms@.len() - i,
                {
                    let ghost t = ms@.subrange(0, i + 1);
                    assert(t.subrange(0, t.len() - 1) =~= ms@.subrange(0, i as int));
                    match &ms[i] {
                        BodyMember::Decl(inner) => {
                            proof {
                                assert(decreases_to!(*ms => ms@));
                                assert(decreases_to!(ms@ => ms@[i as int]));
                                assert(decreases_to!(ms@[i as int] => *inner));
                            }
                            visit_decl(inner, offset, found);
                        },
                        BodyMember::Callable(_) => {},
                    }
                    i = i + 1;
                }
                assert(ms@.subrange(0, ms@.len() as int) =~= ms@);
            },
            None => {},
        }
    }
}

/// The name of the innermost node whose span holds `offset` (the node a
/// `self` reference there means).
pub fn enclosing_node(module: &Module, offset: u32) -> (r: Option<String>)
    ensures
        match r {
            Some(s) => enc_items(module.items@, offset as int) == Some(s@),
            None => enc_items(module.items@, offset as int) is None,
        },
{
    let mut found: Option<String> = None;
    let mut i: usize = 0;
    assert(module.items@.take(0) =~= seq![]);
    while i < module.items.len()
        invariant
            i <= module.items@.len(),
            match found {
                Some(s) => enc_items(module.items@.take(i as int), offset as int) == Some(s@),
                None => enc_items(module.items@.take(i as int), offset as int) is None,
            },
        decreases module.items@.len() - i,
    {
        assert(module.items@.take(i + 1).drop_last() =~= module.items@.take(i as int));
        match &module.items[i] {
            Item::Decl(d) => visit_decl(d, offset, &mut found),
            Item::Feature(_) => {},
        }
        i = i + 1;
    }
    assert(module.items@.take(module.items@.len() as int) =~= module.items@);
    found
}

/// The name a declaration introduces.
pub open spec fn decl_name_of(k: DeclKind) -> Seq<char> {
    match k {
        DeclKind::Person(n) => n.name.name@,
        DeclKind::System(n) => n.name.name@,
        DeclKind::Container(n) => n.name.name@,
        DeclKind::Component(n) => n.name.name@,
        DeclKind::Data(d) => d.name.name@,
        DeclKind::Constant(c) => c.name.name@,
    }
}

/// The `///` summary of the first declaration named `name` that has one, in
/// a declaration and its nested ones.
pub open spec fn doc_in_decl(d: Decl, name: Seq<char>) -> Option<Seq<char>>
    decreases d,
{
    if decl_name_of(d.kind) == name && d.doc.summary@.len() > 0 {
        summary_of(d.doc)
    } else {
        match d.kind {
            DeclKind::Person(n) => doc_in_node(n, name),
            DeclKind::System(n) => doc_in_node(n, name),
            DeclKind::Container(n) => doc_in_node(n, name),
            DeclKind::Component(n) => doc_in_node(n, name),
            _ => None,
        }
    }
}

/// The summary found among a node's nested declarations.
pub open spec fn doc_in_node(n: Node, name: Seq<char>) -> Option<Seq<char>>
    decreases n,
{
    match n.body {
        Some(ms) => doc_in_members(ms@, name),
        None => None,
    }
}

/// The summary found among body members, the first in order.
pub open spec fn doc_in_members(ms: Seq<BodyMember>, name: Seq<char>) -> Option<Seq<char>>
    decreases ms,
{
    if ms.len() == 0 {
        None
    } else {
        let p = doc_in_members(ms.subrange(0, ms.len() - 1), name);
        if p is Some {
            p
        } else {
            match ms[ms.len() - 1] {
                BodyMember::Decl(d) => doc_in_decl(d, name),
                BodyMember::Callable(_) => None,
            }
        }
    }
}

/// The summary found among a module's items, the first in order.
pub open spec fn doc_in_items(items: Seq<Item>, name: Seq<char>) -> Option<Seq<char>>
    decreases items.len(),
{
    if items.len() == 0 {
        None
    } else {
        let p = doc_in_items(items.drop_last(), name);
        if p is Some {
            p
        } else {
            match items.last() {
                Item::Decl(d) => doc_in_decl(d, name),
                Item::Feature(_) => None,
            }
        }
    }
}

/// The summary of the first declaration named `name` (see [`doc_in_decl`]).
fn doc_from_decl(decl: &Decl, name: &str) -> (r: Option<String>)
    ensures
        match r {
            Some(s) => doc_in_decl(*decl, name@) == Some(s@),
            None => doc_in_decl(*decl, name@) is None,
        },
    decreases decl,
{
    let dn: &str = match &decl.kind {
        DeclKind::Person(n) | DeclKind::System(n) | DeclKind::Container(n) | DeclKind::Component(n) => n.name.name.as_str(),
        DeclKind::Data(d) => d.name.name.as_str(),
        DeclKind::Constant(c) => c.name.name.as_str(),
    };
    if crate::strs::str_eq(dn, name) && decl.doc.summary.len() > 0 {
        return summary_text(&decl.doc);
    }
    match &decl.kind {
        DeclKind::Person(node) | DeclKind::System(node) | DeclKind::Container(node) | DeclKind::Component(node) => {
            proof {
                if decl.kind is Person {
                    assert(decreases_to!(decl.kind => decl.kind->Person_0));
                } else if decl.kind is System {
                    assert(decreases_to!(decl.kind => decl.kind->System_0));
                } else if decl.kind is Container {
                    assert(decreases_to!(decl.kind => decl.kind->Container_0));
                } else {
                    assert(decreases_to!(decl.kind => decl.kind->Component_0));
                }
            }
            let ms = match &node.body {
                Some(ms) => ms,
                None => return None,
            };
            proof {
                assert(decreases_to!(*node => node.body));
                assert(decreases_to!(node.body => node.body->0));
            }
            assert(doc_in_decl(*decl, name@) == doc_in_members(ms@, name@));
            let mut i: usize = 0;
            assert(ms@.subrange(0, 0) =~= seq![]);
            while i < ms.len()
                invariant
                    i <= ms@.len(),
                    node.body == Some(*ms),
                    decreases_to!(*decl => *ms),
                    doc_in_decl(*decl, name@) == doc_in_members(ms@, name@),
                    doc_in_members(ms@.subrange(0, i as int), name@) is None,
                decreases ms@.len() - i,
            {
                let ghost t = ms@.subrange(0, i + 1);
                assert(t.subrange(0, t.len() - 1) =~= ms@.subrange(0, i as int));
                match &ms[i] {
                    BodyMember::Decl(inner) => {
                        proof {
                            assert(decreases_to!(*ms => ms@));
                            assert(decreases_to!(ms@ => ms@[i as int]));
                            assert(decreases_to!(ms@[i as int] => *inner));
                        }
                        match doc_from_decl(inner, name) {
                            Some(s) => {
                                assert(doc_in_members(t, name@) == Some(s@));
                                proof {
                                    lemma_doc_members_prefix(ms@, name@, i + 1);
                                }
                                return Some(s);
                            },
                            None => {},
                        }
                    },
                    BodyMember::Callable(_) => {},
                }
                i = i + 1;
            }
            assert(ms@.subrange(0, ms@.len() as int) =~= ms@);
            None
        },
        _ => None,
    }
}

/// A summary found in a prefix of the members is the one found in all.
proof fn lemma_doc_members_prefix(ms: Seq<BodyMember>, name: Seq<char>, k: int)
    requires
        0 <= k <= ms.len(),
        doc_in_members(ms.subrange(0, k), name) is Some,
    ensures
        doc_in_members(ms, name) == doc_in_members(ms.subrange(0, k), name),
    decreases ms.len() - k,
{
    if k < ms.len() {
        let t = ms.subrange(0, k + 1);
        assert(t.subrange(0, t.len() - 1) =~= ms.subrange(0, k));
        lemma_doc_members_prefix(ms, name, k + 1);
    } else {
        assert(ms.subrange(0, k) =~= ms);
    }
}

/// The summary of the first declaration named `name` in a module.
fn doc_summary(module: &Module, name: &str) -> (r: Option<String>)
    ensures
        match r {
            Some(s) => doc_in_items(module.items@, name@) == Some(s@),
            None => doc_in_items(module.items@, name@) is None,
        },
{
    let mut i: usize = 0;
    assert(module.items@.take(0) =~= seq![]);
    while i < module.items.len()
        invariant
            i <= module.items@.len(),
            doc_in_items(module.items@.take(i as int), name@) is None,
        decreases module.items@.len() - i,
    {
        assert(module.items@.take(i + 1).drop_last() =~= module.items@.take(i as int));
        match &module.items[i] {
            Item::Decl(d) => match doc_from_decl(d, name) {
                Some(s) => {
                    assert(doc_in_items(module.items@.take(i + 1), name@) == Some(s@));
                    proof {
                        lemma_doc_items_prefix(module.items@, name@, i + 1);
                    }
                    return Some(s);
                },
                None => {},
            },
            Item::Feature(_) => {},
        }
        i = i + 1;
    }
    assert(module.items@.take(module.items@.len() as int) =~= module.items@);
    None
}

/// A summary found in a prefix of the items is the one found in all.
proof fn lemma_doc_items_prefix(items: Seq<Item>, name: Seq<char>, k: int)
    requires
        0 <= k <= items.len(),
        doc_in_items(items.take(k), name) is Some,
    ensures
        doc_in_items(items, name) == doc_in_items(items.take(k), name),
    decreases items.len() - k,
{
    if k < items.len() {
        assert(items.take(k + 1).drop_last() =~= items.take(k));
        lemma_doc_items_prefix(items, name, k + 1);
    } else {
        assert(items.take(k) =~= items);
    }
}


// ----- building hits -------------------------------------------------------------

/// The word naming a member kind in a hit's title.
pub open spec fn member_kind_word(k: MemberKind) -> Seq<char> {
    match k {
        MemberKind::Callable => "callable"@,
        MemberKind::Field => "field"@,
    }
}

/// The hit for a node or `data` symbol, with its doc summary from the
/// module that declares it; the clicked span is left empty.
pub open spec fn symbol_hit_of(ws: Workspace, s: SymView) -> HitView {
    let module = symbol_module_of(s.1);
    (
        Span { start: 0, end: 0 },
        module,
        s.4,
        s.1,
        symbol_keyword(s.2) + " "@ + ticked(s.1),
        match ws.any_entry(module) {
            Some(e) => doc_in_items(e.ast.items@, s.0),
            None => None,
        },
    )
}

/// The hit for the member `m` of the owner named `owner` (FQN `owner_fqn`)
/// declared in module `module`: its signature, then its summary.
pub open spec fn member_hit_of(m: MemberView, owner: Seq<char>, owner_fqn: Seq<char>, module: Seq<char>) -> HitView {
    (
        Span { start: 0, end: 0 },
        module,
        m.2,
        owner_fqn + "::"@ + m.0,
        member_kind_word(m.1) + " "@ + ticked(owner + "."@ + m.0),
        Some(
            m.3 + match m.6 {
                Some(d) => "\n\n"@ + d,
                None => seq![],
            },
        ),
    )
}

/// A hit with its clicked span set.
pub open spec fn clicked_at(h: HitView, c: Span) -> HitView {
    (c, h.1, h.2, h.3, h.4, h.5)
}

/// Builds the hit for a node or `data` symbol.
fn symbol_hit(ws: &Workspace, s: &Symbol) -> (h: Hit)
    ensures
        hit_view(h) == symbol_hit_of(*ws, sym_view(*s)),
{
    let module = symbol_module(s.fqn.as_str());
    let body = match ws.module_any(module.as_str()) {
        Some(entry) => doc_summary(&entry.ast, s.name.as_str()),
        None => None,
    };
    let mut title = String::from_str(s.kind.keyword());
    title.append(" ");
    title.append(tick(s.fqn.as_str()).as_str());
    let h = Hit {
        clicked: Span { start: 0, end: 0 },
        target_module: module,
        target_span: s.span,
        target_fqn: s.fqn.clone(),
        title,
        body,
    };
    assert(hit_view(h).4 =~= symbol_hit_of(*ws, sym_view(*s)).4);
    h
}

/// Builds the hit for a member (see [`member_hit_of`]).
fn member_hit(m: &Member, owner: &str, owner_fqn: &str, module: String) -> (h: Hit)
    ensures
        hit_view(h) == member_hit_of(member_view(*m), owner@, owner_fqn@, module@),
{
    let kind: &str = match m.kind {
        MemberKind::Callable => "callable",
        MemberKind::Field => "field",
    };
    let mut body = m.detail.clone();
    match &m.doc {
        Some(d) => {
            body.append("\n\n");
            body.append(d.as_str());
        },
        None => {},
    }
    let mut fqn = String::from_str(owner_fqn);
    fqn.append("::");
    fqn.append(m.name.as_str());
    let mut path = String::from_str(owner);
    path.append(".");
    path.append(m.name.as_str());
    let mut title = String::from_str(kind);
    title.append(" ");
    title.append(tick(path.as_str()).as_str());
    let h = Hit { clicked: Span { start: 0, end: 0 }, target_module: module, target_span: m.span, target_fqn: fqn, title, body: Some(body) };
    assert(hit_view(h) =~= member_hit_of(member_view(*m), owner@, owner_fqn@, module@));
    h
}

/// Sets a hit's clicked span.
fn with_clicked(h: Hit, c: Span) -> (r: Hit)
    ensures
        hit_view(r) == clicked_at(hit_view(h), c),
{
    Hit { clicked: c, ..h }
}

// ----- the two reference forms ---------------------------------------------------------

/// The index of the first member from `i` on named `name`.
pub open spec fn first_member(ms: Seq<MemberView>, name: Seq<char>, i: int) -> Option<int>
    decreases ms.len() - i,
{
    if i < 0 || i >= ms.len() {
        None
    } else if ms[i].0 == name {
        Some(i)
    } else {
        first_member(ms, name, i + 1)
    }
}

pub(crate) proof fn lemma_first_member(ms: Seq<MemberView>, name: Seq<char>, i: int)
    requires
        0 <= i,
    ensures
        first_member(ms, name, i) matches Some(j) ==> i <= j < ms.len() && ms[j].0 == name,
    decreases ms.len() - i,
{
    if i < ms.len() && ms[i].0 != name {
        lemma_first_member(ms, name, i + 1);
    }
}

/// The node a `self` at `offset` in module `from` means, as a symbol of
/// that module.
pub open spec fn self_symbol_of(ws: Workspace, from: Seq<char>, offset: int) -> Option<SymView> {
    let k = first_entry(ws.entry_seq(), from);
    if k < 0 {
        None
    } else {
        let e = ws.entry_seq()[k];
        match enc_items(e.ast.items@, offset) {
            Some(node) => {
                let sv = sym_views(e.model.declared_seq());
                let j = last_sym(sv, node, false);
                if j >= 0 {
                    Some(sv[j])
                } else {
                    None
                }
            },
            None => None,
        }
    }
}

/// The hit for `.member` at token `idx` (`idx - 1` being the `.`): the
/// member, by name, of the node that `self` or the path before the `.`
/// names, looked up in the module declaring that node.
pub open spec fn resolve_member_of(ws: Workspace, from: Seq<char>, ts: Seq<TokView>, idx: int) -> Option<HitView> {
    if idx < 2 || idx >= ts.len() {
        None
    } else {
        let b = idx - 2;
        let sym = if ts[b].0 == TokenKind::KwSelf {
            self_symbol_of(ws, from, ts[b].1.start as int)
        } else if ts[b].0 == TokenKind::Ident {
            resolve_node_of(ws, from, path_segments_of(ts, b))
        } else {
            None
        };
        match sym {
            Some(s) => {
                let module = symbol_module_of(s.1);
                match ws.any_entry(module) {
                    Some(e) => {
                        let ms = members_of(members_views(e.model.member_lists@), s.0);
                        match first_member(ms, ts[idx].2, 0) {
                            Some(j) => Some(member_hit_of(ms[j], s.0, s.1, module)),
                            None => None,
                        }
                    },
                    None => None,
                }
            },
            None => None,
        }
    }
}

/// The hit for a member's own declaration at `clicked` in module `from`.
pub open spec fn declared_member_of(ws: Workspace, from: Seq<char>, clicked: Span) -> Option<HitView> {
    let k = first_entry(ws.entry_seq(), from);
    if k < 0 {
        None
    } else {
        let e = ws.entry_seq()[k];
        match member_at_from(members_views(e.model.member_lists@), clicked, 0) {
            Some(p) => {
                let sv = sym_views(e.model.declared_seq());
                let j = last_sym(sv, p.0, false);
                let owner_fqn = if j >= 0 {
                    sv[j].1
                } else {
                    p.0
                };
                Some(member_hit_of(p.1, p.0, owner_fqn, from))
            },
            None => None,
        }
    }
}

/// What the identifier at `offset` in module `from`'s tokens `ts` refers
/// to: after a `.`, a member; at a member's own declaration, that member;
/// otherwise the node or `data` its `::` path names.
pub open spec fn resolve_spec(ws: Workspace, from: Seq<char>, ts: Seq<TokView>, offset: int) -> Option<HitView> {
    match ident_index_of(ts, offset) {
        None => None,
        Some(idx) => {
            let clicked = ts[idx].1;
            let found = if idx >= 1 && ts[idx - 1].0 == TokenKind::Dot {
                resolve_member_of(ws, from, ts, idx)
            } else if declared_member_of(ws, from, clicked) is Some {
                declared_member_of(ws, from, clicked)
            } else {
                match resolve_node_of(ws, from, path_segments_of(ts, idx)) {
                    Some(s) => Some(symbol_hit_of(ws, s)),
                    None => None,
                }
            };
            match found {
                Some(h) => Some(clicked_at(h, clicked)),
                None => None,
            }
        },
    }
}

/// The member of the node that `self` or a path before token `idx - 1`
/// names (see [`resolve_member_of`]).
fn resolve_member(ws: &Workspace, from: &str, tokens: &Vec<Token>, idx: usize) -> (r: Option<Hit>)
    requires
        idx < tokens@.len(),
    ensures
        match r {
            Some(h) => resolve_member_of(*ws, from@, tok_views(tokens@), idx as int) == Some(hit_view(h)),
            None => resolve_member_of(*ws, from@, tok_views(tokens@), idx as int) is None,
        },
{
    let ghost tv = tok_views(tokens@);
    if idx < 2 {
        return None;
    }
    let b = idx - 2;
    let base = &tokens[b];
    let sym: Option<Symbol> = if base.kind == TokenKind::KwSelf {
        match ws.module(from) {
            Some(entry) => match enclosing_node(&entry.ast, base.span.start) {
                Some(node) => match entry.model.symbol(node.as_str()) {
                    Some(s) => Some(s.clone()),
                    None => None,
                },
                None => None,
            },
            None => None,
        }
    } else if base.kind == TokenKind::Ident {
        let segs = path_segments(tokens, b);
        resolve_node(ws, from, &segs)
    } else {
        None
    };
    assert(match sym {
        Some(s) => Some(sym_view(s)) == (if tv[b as int].0 == TokenKind::KwSelf {
            self_symbol_of(*ws, from@, tv[b as int].1.start as int)
        } else if tv[b as int].0 == TokenKind::Ident {
            resolve_node_of(*ws, from@, path_segments_of(tv, b as int))
        } else {
            None
        }),
        None => (if tv[b as int].0 == TokenKind::KwSelf {
            self_symbol_of(*ws, from@, tv[b as int].1.start as int)
        } else if tv[b as int].0 == TokenKind::Ident {
            resolve_node_of(*ws, from@, path_segments_of(tv, b as int))
        } else {
            None
        }) is None,
    });
    let s = match sym {
        Some(s) => s,
        None => return None,
    };
    let module = symbol_module(s.fqn.as_str());
    let model = match ws.module_model(module.as_str()) {
        Some(m) => m,
        None => return None,
    };
    let ms = model.members(s.name.as_str());
    let ghost mv = member_views(ms@);
    let name = tokens[idx].text.as_str();
    let mut i: usize = 0;
    proof {
        lemma_first_member(mv, name@, 0);
    }
    assert(tv[idx as int].2 == name@);
    assert(resolve_member_of(*ws, from@, tv, idx as int) == match first_member(mv, name@, 0) {
        Some(j) => Some(member_hit_of(mv[j], s.name@, s.fqn@, module@)),
        None => None,
    });
    while i < ms.len()
        invariant
            i <= ms@.len(),
            mv == member_views(ms@),
            tv == tok_views(tokens@),
            resolve_member_of(*ws, from@, tv, idx as int) == match first_member(mv, name@, 0) {
                Some(j) => Some(member_hit_of(mv[j], s.name@, s.fqn@, module@)),
                None => None,
            },
            first_member(mv, name@, 0) == first_member(mv, name@, i as int),
        decreases ms@.len() - i,
    {
        if crate::strs::str_eq(ms[i].name.as_str(), name) {
            let h = member_hit(&ms[i], s.name.as_str(), s.fqn.as_str(), module);
            return Some(h);
        }
        i = i + 1;
    }
    None
}

/// What the identifier at `offset` in `tokens`, module `from`'s token
/// stream, refers to (see [`resolve_spec`]).
pub fn resolve_tokens(ws: &Workspace, from_fqn: &str, tokens: &Vec<Token>, offset: u32) -> (r: Option<Hit>)
    ensures
        match r {
            Some(h) => resolve_spec(*ws, from_fqn@, tok_views(tokens@), offset as int) == Some(hit_view(h)),
            None => resolve_spec(*ws, from_fqn@, tok_views(tokens@), offset as int) is None,
        },
{
    let ghost tv = tok_views(tokens@);
    let idx = match ident_index(tokens, offset) {
        Some(i) => i,
        None => return None,
    };
    let clicked = tokens[idx].span;
    if idx >= 1 && tokens[idx - 1].kind == TokenKind::Dot {
        return match resolve_member(ws, from_fqn, tokens, idx) {
            Some(h) => Some(with_clicked(h, clicked)),
            None => None,
        };
    }
    match ws.module(from_fqn) {
        Some(entry) => match entry.model.member_at(clicked) {
            Some((owner, member)) => {
                let owner_fqn = match entry.model.symbol(owner) {
                    Some(s) => s.fqn.clone(),
                    None => String::from_str(owner),
                };
                let h = member_hit(member, owner, owner_fqn.as_str(), String::from_str(from_fqn));
                return Some(with_clicked(h, clicked));
            },
            None => {},
        },
        None => {},
    }
    let segs = path_segments(tokens, idx);
    match resolve_node(ws, from_fqn, &segs) {
        Some(s) => Some(with_clicked(symbol_hit(ws, &s), clicked)),
        None => None,
    }
}

/// The token views of plain lexemes.
pub open spec fn four_views(fs: Seq<TokFour>) -> Seq<TokView> {
    fs.map_values(|f: TokFour| (f.0, Span { start: f.1 as u32, end: f.2 as u32 }, f.3))
}

/// What the identifier at byte `offset` of `src`, the source of module
/// `from`, resolves to: the source's lexemes resolved as [`resolve_spec`]
/// says.
pub open spec fn resolve_src(ws: Workspace, from: Seq<char>, src: Seq<u8>, offset: int) -> Option<HitView> {
    resolve_spec(ws, from, four_views(lex_tokens(src)), offset)
}

/// Token views are the views of the tokens' plain lexemes.
proof fn lemma_four_views(ts: Seq<Token>)
    ensures
        tok_views(ts) == four_views(tok_fours(ts)),
{
    assert forall|i: int| 0 <= i < ts.len() implies tok_views(ts)[i] == four_views(tok_fours(ts))[i] by {
        let t = ts[i];
        assert(t.span == Span { start: (t.span.start as int) as u32, end: (t.span.end as int) as u32 });
    }
    assert(tok_views(ts) =~= four_views(tok_fours(ts)));
}

/// Resolves the identifier at byte `offset` of `src`, the source of module
/// `from_fqn`, as [`resolve_src`] says.
pub fn resolve_at(ws: &Workspace, from_fqn: &str, src: &str, offset: u32) -> (r: Option<Hit>)
    requires
        src.spec_bytes().len() < u32::MAX,
    ensures
        match r {
            Some(h) => resolve_src(*ws, from_fqn@, src.spec_bytes(), offset as int) == Some(hit_view(h)),
            None => resolve_src(*ws, from_fqn@, src.spec_bytes(), offset as int) is None,
        },
{
    let tokens = tokenize(src);
    let r = resolve_tokens(ws, from_fqn, &tokens, offset);
    proof {
        lemma_four_views(tokens@);
    }
    r
}

} // verus!
