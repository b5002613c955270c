//! Context-aware completion.
//!
//! The completion context is read from the token immediately left of the
//! caret:
//!
//! - after `.` → the base node's callables and fields;
//! - after `::` → the named module's (public) symbols and the next segment
//!   of deeper module paths;
//! - after `#[` → the built-in macros;
//! - after `:` or `<` (type position), or in a macro's argument list →
//!   primitive types, `Result`, `Option`, and every declared type;
//! - after `for` → the nodes a parent (or feature target) may name;
//! - otherwise → keywords, this module's symbols, the enclosing node's
//!   callables, and the other workspace modules.
//!
//! The caller filters the returned set against the prefix being typed, so
//! the full candidate list is offered. Positions are byte offsets.

use crate::lexer::{TokFour, lex_tokens, tok_fours, tokenize};
use crate::model::check::BUILTIN_MACROS;
use crate::model::symbols::{
    MemberKind, MemberView, ModuleEntry, SymView, Symbol, SymbolKind, Workspace, first_entry, last_sym, latest,
    member_views, members_of, members_views, sym_view, sym_views, symbol_module, symbol_module_of,
};
use crate::model::infer::{
    OwnerView, binding_type_at, collect_locals, first_local, items_owner_spec, local_types_of, opt_owner, owner_at_dot,
    type_owner, type_owner_of,
};
use crate::model::resolve::{enc_items, enclosing_node};
use crate::parser::parsed_from;
use crate::ast::Module;
use crate::strs::str_eq;
use crate::token::{Token, TokenKind};
use vstd::prelude::*;
use vstd::string::{StringExecFns, StringSliceAdditionalSpecFns};

verus! {

/// What a completion candidate denotes: it drives the icon each surface
/// renders.
#[derive(Debug, Clone, Copy, PartialEq, Eq, Structural)]
pub enum CompletionKind {
    /// A callable member reached through `.`.
    Method,
    /// A record field reached through `.`.
    Field,
    /// A language keyword.
    Keyword,
    /// A built-in macro (`#[...]`).
    Macro,
    /// A primitive type, `Result` or `Option`.
    Type,
    /// A `data` declaration.
    Class,
    /// A node declaration or a module.
    Module,
    /// A `constant` declaration.
    Constant,
}

/// One completion candidate: its insert text, what it is, and a one-line
/// detail.
#[derive(Debug)]
pub struct CompletionItem {
    /// The text offered (and inserted).
    pub label: String,
    /// What the candidate denotes.
    pub kind: CompletionKind,
    /// A one-line detail (signature, FQN, or category).
    pub detail: String,
}

/// A candidate as plain values.
pub type ItemView = (Seq<char>, CompletionKind, Seq<char>);

/// The plain views of candidates.
pub open spec fn item_views(is: Seq<CompletionItem>) -> Seq<ItemView> {
    is.map_values(|i: CompletionItem| (i.label@, i.kind, i.detail@))
}

/// The completion kind for a declared symbol.
pub open spec fn kind_of_symbol(k: SymbolKind) -> CompletionKind {
    match k {
        SymbolKind::Data => CompletionKind::Class,
        SymbolKind::Constant => CompletionKind::Constant,
        _ => CompletionKind::Module,
    }
}

/// The candidate a declared symbol offers: its name, labelled with its FQN.
pub open spec fn sym_item(s: SymView) -> ItemView {
    (s.0, kind_of_symbol(s.2), s.1)
}

/// The candidates for declared symbols.
pub open spec fn sym_items(ss: Seq<SymView>) -> Seq<ItemView> {
    ss.map_values(|s: SymView| sym_item(s))
}

/// The candidates for plain words of one kind and detail.
pub open spec fn word_items(ws: Seq<&str>, kind: CompletionKind, detail: Seq<char>) -> Seq<ItemView> {
    ws.map_values(|w: &str| (w@, kind, detail))
}

/// Every module's FQN: the local ones, then the dependency ones.
pub open spec fn all_module_fqns(ws: Workspace) -> Seq<Seq<char>> {
    ws.entry_seq().map_values(|e: ModuleEntry| e.fqn@) + ws.external_seq()
}

/// The module candidates among the first `n` FQNs, leaving out `from`.
pub open spec fn others_upto(fqns: Seq<Seq<char>>, from: Seq<char>, n: int) -> Seq<ItemView>
    decreases n,
{
    if n <= 0 {
        seq![]
    } else {
        let pre = others_upto(fqns, from, n - 1);
        if fqns[n - 1] != from {
            pre.push((fqns[n - 1], CompletionKind::Module, "module"@))
        } else {
            pre
        }
    }
}

/// The other workspace modules, local and dependency ones, offered to
/// start a cross-module reference.
pub open spec fn other_modules_spec(ws: Workspace, from: Seq<char>) -> Seq<ItemView> {
    others_upto(all_module_fqns(ws), from, all_module_fqns(ws).len() as int)
}

/// Whether a symbol may be named after `for`: a node of the required kind
/// (any node, never a `data`, when none is required), visible from `from`.
pub open spec fn node_ok(s: SymView, from: Seq<char>, required: Option<SymbolKind>) -> bool {
    let kind_ok = match required {
        Some(k) => s.2 == k,
        None => s.2 != SymbolKind::Data,
    };
    kind_ok && (symbol_module_of(s.1) == from || s.3)
}

/// The node candidates among the first `n` symbols.
pub open spec fn nodes_upto(ss: Seq<SymView>, from: Seq<char>, required: Option<SymbolKind>, n: int) -> Seq<ItemView>
    decreases n,
{
    if n <= 0 {
        seq![]
    } else {
        let pre = nodes_upto(ss, from, required, n - 1);
        if node_ok(ss[n - 1], from, required) {
            pre.push(sym_item(ss[n - 1]))
        } else {
            pre
        }
    }
}

/// Every symbol of the workspace, one per FQN.
pub open spec fn ws_symbols(ws: Workspace) -> Seq<SymView> {
    latest(sym_views(ws.index_seq()), true)
}

/// The candidates after `for`: the visible nodes of the required kind, then
/// the other modules.
pub open spec fn node_items_spec(ws: Workspace, from: Seq<char>, required: Option<SymbolKind>) -> Seq<ItemView> {
    nodes_upto(ws_symbols(ws), from, required, ws_symbols(ws).len() as int) + other_modules_spec(ws, from)
}

/// The candidate `it` names a symbol of `ss` that may follow `for` in
/// module `from`: a node of the required kind (any node but a `data` when
/// none is required) that is declared in `from` or is public.
pub open spec fn visible_node_candidate(it: ItemView, ss: Seq<SymView>, from: Seq<char>, required: Option<SymbolKind>) -> bool {
    exists|j: int|
        0 <= j < ss.len() && it == sym_item(#[trigger] ss[j]) && match required {
            Some(k) => ss[j].2 == k,
            None => ss[j].2 != SymbolKind::Data,
        } && (symbol_module_of(ss[j].1) == from || ss[j].3)
}

proof fn lemma_nodes_upto_visible(ss: Seq<SymView>, from: Seq<char>, required: Option<SymbolKind>, n: int)
    requires
        n <= ss.len(),
    ensures
        forall|k: int|
            0 <= k < nodes_upto(ss, from, required, n).len() ==> visible_node_candidate(
                #[trigger] nodes_upto(ss, from, required, n)[k],
                ss,
                from,
                required,
            ),
    decreases n,
{
    if n > 0 {
        lemma_nodes_upto_visible(ss, from, required, n - 1);
        let pre = nodes_upto(ss, from, required, n - 1);
        if node_ok(ss[n - 1], from, required) {
            let all = pre.push(sym_item(ss[n - 1]));
            assert forall|k: int| 0 <= k < all.len() implies visible_node_candidate(#[trigger] all[k], ss, from, required) by {
                if k < pre.len() {
                    assert(all[k] == pre[k]);
                } else {
                    assert(all[k] == sym_item(ss[n - 1]));
                }
            }
        }
    }
}

proof fn lemma_others_upto_modules(fqns: Seq<Seq<char>>, from: Seq<char>, n: int)
    requires
        n <= fqns.len(),
    ensures
        forall|k: int|
            0 <= k < others_upto(fqns, from, n).len() ==> (#[trigger] others_upto(fqns, from, n)[k]).1
                == CompletionKind::Module && others_upto(fqns, from, n)[k].2 == "module"@ && others_upto(
                fqns,
                from,
                n,
            )[k].0 != from,
    decreases n,
{
    if n > 0 {
        lemma_others_upto_modules(fqns, from, n - 1);
        let pre = others_upto(fqns, from, n - 1);
        if fqns[n - 1] != from {
            let all = pre.push((fqns[n - 1], CompletionKind::Module, "module"@));
            assert forall|k: int| 0 <= k < all.len() implies (#[trigger] all[k]).1 == CompletionKind::Module
                && all[k].2 == "module"@ && all[k].0 != from by {
                if k < pre.len() {
                    assert(all[k] == pre[k]);
                }
            }
        }
    }
}

/// Every candidate offered after `for` is visible from the module being
/// edited: either a node of the required kind declared in that module or
/// public (a private symbol of another module is never offered), or
/// another module to start a cross-module path.
pub proof fn law_for_candidates_are_visible(ws: Workspace, from: Seq<char>, required: Option<SymbolKind>)
    ensures
        forall|k: int|
            0 <= k < node_items_spec(ws, from, required).len() ==> visible_node_candidate(
                #[trigger] node_items_spec(ws, from, required)[k],
                ws_symbols(ws),
                from,
                required,
            ) || (node_items_spec(ws, from, required)[k].1 == CompletionKind::Module && node_items_spec(
                ws,
                from,
                required,
            )[k].2 == "module"@ && node_items_spec(ws, from, required)[k].0 != from),
{
    let ss = ws_symbols(ws);
    let a = nodes_upto(ss, from, required, ss.len() as int);
    let b = other_modules_spec(ws, from);
    lemma_nodes_upto_visible(ss, from, required, ss.len() as int);
    lemma_others_upto_modules(all_module_fqns(ws), from, all_module_fqns(ws).len() as int);
    let all = node_items_spec(ws, from, required);
    assert(all == a + b);
    assert forall|k: int| 0 <= k < all.len() implies visible_node_candidate(#[trigger] all[k], ss, from, required) || (
    all[k].1 == CompletionKind::Module && all[k].2 == "module"@ && all[k].0 != from) by {
        if k < a.len() {
            assert(all[k] == a[k]);
        } else {
            assert(all[k] == b[k - a.len()]);
        }
    }
}

/// The candidates in type position: the primitive types, `Result` and
/// `Option`, then every declared symbol.
pub open spec fn type_items_spec(ws: Workspace) -> Seq<ItemView> {
    word_items(TokenKind::PRIMITIVE_TYPES@, CompletionKind::Type, "primitive type"@) + seq![
        ("Result"@, CompletionKind::Type, "built-in generic"@),
        ("Option"@, CompletionKind::Type, "built-in generic"@),
    ] + sym_items(ws_symbols(ws))
}

/// The candidates after `#[`: the built-in macros.
pub open spec fn macro_items_spec() -> Seq<ItemView> {
    word_items(BUILTIN_MACROS@, CompletionKind::Macro, "built-in macro"@)
}

/// The callable candidates among the first `n` members.
pub open spec fn calls_upto(ms: Seq<MemberView>, n: int) -> Seq<ItemView>
    decreases n,
{
    if n <= 0 {
        seq![]
    } else {
        let pre = calls_upto(ms, n - 1);
        if ms[n - 1].1 == MemberKind::Callable {
            pre.push((ms[n - 1].0, CompletionKind::Method, ms[n - 1].3))
        } else {
            pre
        }
    }
}

/// The local module named `fqn`, if any.
pub open spec fn local_entry(ws: Workspace, fqn: Seq<char>) -> Option<ModuleEntry> {
    if first_entry(ws.entry_seq(), fqn) >= 0 {
        Some(ws.entry_seq()[first_entry(ws.entry_seq(), fqn)])
    } else {
        None
    }
}

/// The callables of the node enclosing `offset` in module entry `e`,
/// reachable there as bare same-node calls.
pub open spec fn own_calls_spec(e: ModuleEntry, offset: int) -> Seq<ItemView> {
    match enc_items(e.ast.items@, offset) {
        None => seq![],
        Some(n) => {
            let ms = members_of(members_views(e.model.member_lists@), n);
            calls_upto(ms, ms.len() as int)
        },
    }
}

/// The general candidates: keywords, then (in a local module) its symbols
/// and the enclosing node's callables, then the other modules.
pub open spec fn general_items_spec(ws: Workspace, from: Seq<char>, offset: int) -> Seq<ItemView> {
    word_items(TokenKind::KEYWORDS@, CompletionKind::Keyword, "keyword"@) + match local_entry(ws, from) {
        None => seq![],
        Some(e) => sym_items(latest(sym_views(e.model.declared_seq()), false)) + own_calls_spec(e, offset),
    } + other_modules_spec(ws, from)
}

/// Builds a candidate.
fn item(label: &str, kind: CompletionKind, detail: &str) -> (r: CompletionItem)
    ensures
        (r.label@, r.kind, r.detail@) == (label@, kind, detail@),
{
    CompletionItem { label: String::from_str(label), kind, detail: String::from_str(detail) }
}

/// The candidate a declared symbol offers.
fn sym_candidate(s: &Symbol) -> (r: CompletionItem)
    ensures
        (r.label@, r.kind, r.detail@) == sym_item(sym_view(*s)),
{
    let kind = match s.kind {
        SymbolKind::Data => CompletionKind::Class,
        SymbolKind::Constant => CompletionKind::Constant,
        _ => CompletionKind::Module,
    };
    CompletionItem { label: s.name.clone(), kind, detail: s.fqn.clone() }
}

/// Appends the candidates of `ss` to `out`.
fn push_syms(ss: &Vec<Symbol>, out: &mut Vec<CompletionItem>)
    ensures
        item_views(final(out)@) == item_views(old(out)@) + sym_items(sym_views(ss@)),
{
    let ghost base = item_views(out@);
    let mut i: usize = 0;
    while i < ss.len()
        invariant
            i <= ss@.len(),
            item_views(out@) == base + sym_items(sym_views(ss@).take(i as int)),
        decreases ss@.len() - i,
    {
        let c = sym_candidate(&ss[i]);
        let ghost o0 = item_views(out@);
        out.push(c);
        assert(item_views(out@) =~= o0.push(sym_item(sym_view(ss@[i as int]))));
        assert(sym_items(sym_views(ss@).take(i + 1)) =~= sym_items(sym_views(ss@).take(i as int)).push(
            sym_item(sym_view(ss@[i as int])),
        ));
        i = i + 1;
    }
    assert(sym_views(ss@).take(ss@.len() as int) =~= sym_views(ss@));
}

/// Appends the candidates for `words`, of one kind and detail, to `out`.
fn push_words(words: &[&str], kind: CompletionKind, detail: &str, out: &mut Vec<CompletionItem>)
    ensures
        item_views(final(out)@) == item_views(old(out)@) + word_items(words@, kind, detail@),
{
    let ghost base = item_views(out@);
    let mut i: usize = 0;
    while i < words.len()
        invariant
            i <= words@.len(),
            item_views(out@) == base + word_items(words@.take(i as int), kind, detail@),
        decreases words@.len() - i,
    {
        let c = item(words[i], kind, detail);
        let ghost o0 = item_views(out@);
        out.push(c);
        assert(item_views(out@) =~= o0.push((words@[i as int]@, kind, detail@)));
        assert(word_items(words@.take(i + 1), kind, detail@) =~= word_items(words@.take(i as int), kind, detail@).push(
            (words@[i as int]@, kind, detail@),
        ));
        i = i + 1;
    }
    assert(words@.take(words@.len() as int) =~= words@);
}

/// Appends the other modules' candidates to `out`.
fn push_other_modules(ws: &Workspace, from_fqn: &str, out: &mut Vec<CompletionItem>)
    ensures
        item_views(final(out)@) == item_views(old(out)@) + other_modules_spec(*ws, from_fqn@),
{
    let ghost base = item_views(out@);
    let ghost fqns = all_module_fqns(*ws);
    let entries = ws.modules();
    let externals = ws.external_module_fqns();
    let ghost ne = entries@.len();
    assert(fqns.len() == entries@.len() + externals@.len());
    let mut i: usize = 0;
    while i < entries.len()
        invariant
            i <= entries@.len(),
            fqns == all_module_fqns(*ws),
            entries@ == ws.entry_seq(),
            fqns.len() == entries@.len() + externals@.len(),
            item_views(out@) == base + others_upto(fqns, from_fqn@, i as int),
        decreases entries@.len() - i,
    {
        assert(fqns[i as int] == entries@[i as int].fqn@);
        let f = entries[i].fqn.as_str();
        if !str_eq(f, from_fqn) {
            let c = item(f, CompletionKind::Module, "module");
            let ghost o0 = item_views(out@);
            out.push(c);
            assert(item_views(out@) =~= o0.push((f@, CompletionKind::Module, "module"@)));
        }
        i = i + 1;
    }
    let mut j: usize = 0;
    while j < externals.len()
        invariant
            j <= externals@.len(),
            fqns == all_module_fqns(*ws),
            entries@ == ws.entry_seq(),
            externals@.map_values(|s: String| s@) == ws.external_seq(),
            fqns.len() == entries@.len() + externals@.len(),
            item_views(out@) == base + others_upto(fqns, from_fqn@, entries@.len() + j),
        decreases externals@.len() - j,
    {
        assert(fqns[entries@.len() + j] == externals@[j as int]@);
        let f = externals[j].as_str();
        if !str_eq(f, from_fqn) {
            let c = item(f, CompletionKind::Module, "module");
            let ghost o0 = item_views(out@);
            out.push(c);
            assert(item_views(out@) =~= o0.push((f@, CompletionKind::Module, "module"@)));
        }
        j = j + 1;
    }
}

/// The nodes a `for` may name (see [`node_items_spec`]).
fn node_items(ws: &Workspace, from_fqn: &str, required: Option<SymbolKind>) -> (r: Vec<CompletionItem>)
    ensures
        item_views(r@) == node_items_spec(*ws, from_fqn@, required),
{
    let syms = ws.symbols();
    let ghost ss = sym_views(syms@);
    let mut out: Vec<CompletionItem> = Vec::new();
    let mut i: usize = 0;
    assert(item_views(out@) =~= seq![]);
    while i < syms.len()
        invariant
            i <= syms@.len(),
            ss == sym_views(syms@),
            ss == ws_symbols(*ws),
            item_views(out@) == nodes_upto(ss, from_fqn@, required, i as int),
        decreases syms@.len() - i,
    {
        let s = &syms[i];
        assert(ss[i as int] == sym_view(*s));
        let kind_ok = match required {
            Some(k) => s.kind == k,
            None => s.kind != SymbolKind::Data,
        };
        if kind_ok {
            let m = symbol_module(s.fqn.as_str());
            if str_eq(m.as_str(), from_fqn) || s.is_public {
                let c = sym_candidate(s);
                let ghost o0 = item_views(out@);
                out.push(c);
                assert(item_views(out@) =~= o0.push(sym_item(ss[i as int])));
            }
        }
        i = i + 1;
    }
    push_other_modules(ws, from_fqn, &mut out);
    out
}

/// Primitive types, `Result`, `Option`, and every declared symbol.
fn type_items(ws: &Workspace) -> (r: Vec<CompletionItem>)
    ensures
        item_views(r@) == type_items_spec(*ws),
{
    let mut out: Vec<CompletionItem> = Vec::new();
    assert(item_views(out@) =~= seq![]);
    push_words(&TokenKind::PRIMITIVE_TYPES, CompletionKind::Type, "primitive type", &mut out);
    let ghost o1 = item_views(out@);
    out.push(item("Result", CompletionKind::Type, "built-in generic"));
    out.push(item("Option", CompletionKind::Type, "built-in generic"));
    assert(item_views(out@) =~= o1 + seq![
        ("Result"@, CompletionKind::Type, "built-in generic"@),
        ("Option"@, CompletionKind::Type, "built-in generic"@),
    ]);
    let syms = ws.symbols();
    push_syms(&syms, &mut out);
    out
}

/// The built-in macros.
fn macro_items() -> (r: Vec<CompletionItem>)
    ensures
        item_views(r@) == macro_items_spec(),
{
    let mut out: Vec<CompletionItem> = Vec::new();
    assert(item_views(out@) =~= seq![]);
    push_words(&BUILTIN_MACROS, CompletionKind::Macro, "built-in macro", &mut out);
    out
}

/// Keywords, this module's symbols, the enclosing node's callables, and
/// the other modules (see [`general_items_spec`]).
fn general_items(ws: &Workspace, from_fqn: &str, offset: u32) -> (r: Vec<CompletionItem>)
    ensures
        item_views(r@) == general_items_spec(*ws, from_fqn@, offset as int),
{
    let mut out: Vec<CompletionItem> = Vec::new();
    assert(item_views(out@) =~= seq![]);
    push_words(&TokenKind::KEYWORDS, CompletionKind::Keyword, "keyword", &mut out);
    let ghost o1 = item_views(out@);
    match ws.module(from_fqn) {
        None => {
            assert(item_views(out@) =~= o1 + seq![]);
        },
        Some(entry) => {
            let syms = entry.model.symbols();
            push_syms(&syms, &mut out);
            let ghost o2 = item_views(out@);
            match enclosing_node(&entry.ast, offset) {
                None => {
                    assert(item_views(out@) =~= o2 + seq![]);
                },
                Some(node) => {
                    let members = entry.model.members(node.as_str());
                    let ghost ms = member_views(members@);
                    let mut j: usize = 0;
                    while j < members.len()
                        invariant
                            j <= members@.len(),
                            ms == member_views(members@),
                            item_views(out@) == o2 + calls_upto(ms, j as int),
                        decreases members@.len() - j,
                    {
                        if members[j].kind == MemberKind::Callable {
                            let c = item(members[j].name.as_str(), CompletionKind::Method, members[j].detail.as_str());
                            let ghost o0 = item_views(out@);
                            out.push(c);
                            assert(item_views(out@) =~= o0.push((ms[j as int].0, CompletionKind::Method, ms[j as int].3)));
                        }
                        j = j + 1;
                    }
                },
            }
        },
    }
    push_other_modules(ws, from_fqn, &mut out);
    out
}

// ----- the token left of the caret ---------------------------------------------

/// Whether a lexeme kind is prose: a string literal or a doc comment.
pub open spec fn is_prose(k: TokenKind) -> bool {
    k == TokenKind::String || k == TokenKind::Doc || k == TokenKind::InnerDoc
}

/// Whether `offset` falls strictly inside a string literal or a doc
/// comment, where completion stays silent.
pub open spec fn inside_prose_spec(fs: Seq<TokFour>, offset: int) -> bool {
    exists|i: int| 0 <= i < fs.len() && is_prose((#[trigger] fs[i]).0) && fs[i].1 < offset < fs[i].2
}

/// The last of the first `n` lexemes ending at or before `offset`, or -1.
pub open spec fn last_ending(fs: Seq<TokFour>, offset: int, n: int) -> int
    decreases n,
{
    if n <= 0 {
        -1
    } else if fs[n - 1].2 <= offset {
        n - 1
    } else {
        last_ending(fs, offset, n - 1)
    }
}

/// The lexeme whose kind governs completion at `offset`, or -1: the last
/// one ending at or before the caret, unless that is an identifier ending
/// exactly at the caret (the prefix being typed), whose predecessor then
/// governs.
pub open spec fn trigger_spec(fs: Seq<TokFour>, offset: int) -> int {
    let l = last_ending(fs, offset, fs.len() as int);
    if l >= 0 && fs[l].0 == TokenKind::Ident && fs[l].2 == offset {
        l - 1
    } else {
        l
    }
}

/// Whether lexeme `lp` opens a built-in macro's argument list (`#[name(`).
pub open spec fn macro_arg_spec(fs: Seq<TokFour>, lp: int) -> bool {
    lp >= 2 && fs[lp - 1].0 == TokenKind::Ident && fs[lp - 2].0 == TokenKind::HashLBracket
}

/// The parent kind a `for` at lexeme `f` admits, from the construct
/// keyword before the name (`container <name> for` → a system, `component
/// <name> for` → a container); none for a feature target or an incomplete
/// construct.
pub open spec fn parent_kind_spec(fs: Seq<TokFour>, f: int) -> Option<SymbolKind> {
    if f < 2 || fs[f - 1].0 != TokenKind::Ident {
        None
    } else if fs[f - 2].0 == TokenKind::KwContainer {
        Some(SymbolKind::System)
    } else if fs[f - 2].0 == TokenKind::KwComponent {
        Some(SymbolKind::Container)
    } else {
        None
    }
}

/// The `::`-separated identifiers of a path ending at lexeme `i`, left to
/// right.
pub open spec fn prefix_segs(fs: Seq<TokFour>, i: int) -> Seq<Seq<char>>
    decreases (if i < 0 { 0 } else { i + 1 }),
{
    if i < 0 || i >= fs.len() || fs[i].0 != TokenKind::Ident {
        seq![]
    } else if i >= 1 && fs[i - 1].0 == TokenKind::ColonColon {
        prefix_segs(fs, i - 2).push(fs[i].3)
    } else {
        seq![fs[i].3]
    }
}

/// Segments joined by `::`.
pub open spec fn join_path(segs: Seq<Seq<char>>) -> Seq<char>
    decreases segs.len(),
{
    if segs.len() == 0 {
        seq![]
    } else if segs.len() == 1 {
        segs[0]
    } else {
        join_path(segs.drop_last()) + seq![':', ':'] + segs.last()
    }
}

/// The module path written immediately before lexeme `cc` (a `::`).
pub open spec fn module_prefix_spec(fs: Seq<TokFour>, cc: int) -> Seq<char> {
    join_path(prefix_segs(fs, cc - 1))
}

// ----- path completion -------------------------------------------------------------

/// The symbol candidates after `prefix::` among the first `n` symbols: those
/// of the module named `prefix`, public ones only across modules.
pub open spec fn paths_upto(ss: Seq<SymView>, prefix: Seq<char>, from: Seq<char>, n: int) -> Seq<ItemView>
    decreases n,
{
    if n <= 0 {
        seq![]
    } else {
        let pre = paths_upto(ss, prefix, from, n - 1);
        if symbol_module_of(ss[n - 1].1) == prefix && (prefix == from || ss[n - 1].3) {
            pre.push(sym_item(ss[n - 1]))
        } else {
            pre
        }
    }
}

/// Every candidate offered after `prefix::` is a symbol of the module
/// `prefix` that is visible from `from`: `prefix` is `from` itself, or the
/// symbol is public.
pub proof fn law_path_candidates_are_visible(ss: Seq<SymView>, prefix: Seq<char>, from: Seq<char>, n: int)
    requires
        n <= ss.len(),
    ensures
        forall|k: int|
            0 <= k < paths_upto(ss, prefix, from, n).len() ==> exists|j: int|
                0 <= j < ss.len() && #[trigger] paths_upto(ss, prefix, from, n)[k] == sym_item(#[trigger] ss[j])
                    && symbol_module_of(ss[j].1) == prefix && (prefix == from || ss[j].3),
    decreases n,
{
    if n > 0 {
        law_path_candidates_are_visible(ss, prefix, from, n - 1);
        let pre = paths_upto(ss, prefix, from, n - 1);
        if symbol_module_of(ss[n - 1].1) == prefix && (prefix == from || ss[n - 1].3) {
            let all = pre.push(sym_item(ss[n - 1]));
            assert forall|k: int| 0 <= k < all.len() implies exists|j: int|
                0 <= j < ss.len() && #[trigger] all[k] == sym_item(#[trigger] ss[j]) && symbol_module_of(ss[j].1)
                    == prefix && (prefix == from || ss[j].3) by {
                if k < pre.len() {
                    assert(all[k] == pre[k]);
                } else {
                    assert(all[k] == sym_item(ss[n - 1]));
                }
            }
        }
    }
}

/// The text of `s` before its first `::`.
pub open spec fn first_piece(s: Seq<char>) -> Seq<char>
    decreases s.len(),
{
    if s.len() == 0 || (s.len() >= 2 && s[0] == ':' && s[1] == ':') {
        seq![]
    } else {
        seq![s[0]] + first_piece(s.drop_first())
    }
}

/// The next path segment `fqn` offers after `with`, if it starts with it.
pub open spec fn next_seg(fqn: Seq<char>, with: Seq<char>) -> Option<Seq<char>> {
    if with.len() <= fqn.len() && fqn.take(with.len() as int) == with {
        Some(first_piece(fqn.skip(with.len() as int)))
    } else {
        None
    }
}

/// Lexicographic order of strings by code point.
pub open spec fn str_less(a: Seq<char>, b: Seq<char>) -> bool
    decreases a.len(),
{
    if a.len() == 0 {
        b.len() > 0
    } else if b.len() == 0 {
        false
    } else if a[0] != b[0] {
        (a[0] as u32) < (b[0] as u32)
    } else {
        str_less(a.drop_first(), b.drop_first())
    }
}

/// Distinct strings are ordered one way or the other.
proof fn lemma_str_less_total(a: Seq<char>, b: Seq<char>)
    requires
        a != b,
    ensures
        str_less(a, b) || str_less(b, a),
    decreases a.len(),
{
    if a.len() == 0 && b.len() == 0 {
        assert(a =~= b);
    } else if a.len() > 0 && b.len() > 0 && a[0] == b[0] {
        if a.drop_first() == b.drop_first() {
            assert(a =~= seq![a[0]] + a.drop_first());
            assert(b =~= seq![b[0]] + b.drop_first());
        }
        lemma_str_less_total(a.drop_first(), b.drop_first());
    } else if a.len() > 0 && b.len() > 0 {
        let x = a[0];
        let y = b[0];
        assert((x as u32) != (y as u32)) by {
            if (x as u32) == (y as u32) {
                vstd::utf8::char_u32_cast(x, x as u32);
                vstd::utf8::char_u32_cast(y, y as u32);
            }
        }
    }
}

/// Each string strictly before the next.
pub open spec fn ascending(l: Seq<Seq<char>>) -> bool {
    forall|i: int| 0 <= i < l.len() - 1 ==> str_less(#[trigger] l[i], l[i + 1])
}

/// The next segments offered by the first `n` FQNs after `with`.
pub open spec fn segs_upto(fqns: Seq<Seq<char>>, with: Seq<char>, n: int) -> Set<Seq<char>>
    decreases n,
{
    if n <= 0 {
        Set::empty()
    } else {
        let pre = segs_upto(fqns, with, n - 1);
        match next_seg(fqns[n - 1], with) {
            Some(g) => pre.insert(g),
            None => pre,
        }
    }
}

/// The candidates after `prefix::`: the symbols of the module named
/// `prefix` (public ones only across modules), then, in ascending order and
/// once each, the next segments of the module paths below `prefix`.
pub open spec fn path_items_ok(ws: Workspace, from: Seq<char>, prefix: Seq<char>, r: Seq<ItemView>) -> bool {
    let ss = ws_symbols(ws);
    let head = paths_upto(ss, prefix, from, ss.len() as int);
    let fqns = all_module_fqns(ws);
    let segs = segs_upto(fqns, prefix + seq![':', ':'], fqns.len() as int);
    let tail = r.skip(head.len() as int);
    &&& head.len() <= r.len()
    &&& r.take(head.len() as int) == head
    &&& forall|i: int| 0 <= i < tail.len() ==> (#[trigger] tail[i]).1 == CompletionKind::Module && tail[i].2 == "module"@
    &&& ascending(tail.map_values(|t: ItemView| t.0))
    &&& tail.map_values(|t: ItemView| t.0).to_set() == segs
}

/// `a` before `b` in code-point order.
fn less_than(a: &str, b: &str) -> (r: bool)
    ensures
        r == str_less(a@, b@),
{
    let x = crate::strs::chars_of(a);
    let y = crate::strs::chars_of(b);
    let mut i: usize = 0;
    assert(a@.skip(0) =~= a@);
    assert(b@.skip(0) =~= b@);
    while i < x.len() && i < y.len() && x[i] == y[i]
        invariant
            i <= x@.len(),
            i <= y@.len(),
            x@ == a@,
            y@ == b@,
            str_less(a@, b@) == str_less(a@.skip(i as int), b@.skip(i as int)),
        decreases x@.len() - i,
    {
        assert(a@.skip(i as int).drop_first() =~= a@.skip(i + 1));
        assert(b@.skip(i as int).drop_first() =~= b@.skip(i + 1));
        i = i + 1;
    }
    if i == x.len() {
        i < y.len()
    } else if i == y.len() {
        false
    } else {
        (x[i] as u32) < (y[i] as u32)
    }
}

/// Whether `offset` falls strictly inside prose (see
/// [`inside_prose_spec`]).
fn inside_prose(tokens: &Vec<Token>, offset: u32) -> (r: bool)
    ensures
        r == inside_prose_spec(tok_fours(tokens@), offset as int),
{
    let ghost fs = tok_fours(tokens@);
    let mut i: usize = 0;
    while i < tokens.len()
        invariant
            i <= tokens@.len(),
            fs == tok_fours(tokens@),
            forall|j: int| 0 <= j < i ==> !(is_prose((#[trigger] fs[j]).0) && fs[j].1 < offset < fs[j].2),
        decreases tokens@.len() - i,
    {
        let t = &tokens[i];
        let k = t.kind;
        if (k == TokenKind::String || k == TokenKind::Doc || k == TokenKind::InnerDoc) && t.span.start < offset
            && offset < t.span.end {
            assert(is_prose(fs[i as int].0) && fs[i as int].1 < offset < fs[i as int].2);
            return true;
        }
        i = i + 1;
    }
    false
}

/// The index of the lexeme governing completion at `offset` (see
/// [`trigger_spec`]).
fn governing_trigger(tokens: &Vec<Token>, offset: u32) -> (r: Option<usize>)
    ensures
        match r {
            Some(i) => trigger_spec(tok_fours(tokens@), offset as int) == i && i < tokens@.len(),
            None => trigger_spec(tok_fours(tokens@), offset as int) == -1,
        },
{
    let ghost fs = tok_fours(tokens@);
    let mut n: usize = tokens.len();
    let mut found: Option<usize> = None;
    while n > 0 && found.is_none()
        invariant
            n <= tokens@.len(),
            fs == tok_fours(tokens@),
            match found {
                Some(l) => last_ending(fs, offset as int, fs.len() as int) == l && l < fs.len(),
                None => last_ending(fs, offset as int, fs.len() as int) == last_ending(fs, offset as int, n as int),
            },
        decreases n + (if found is None { 1int } else { 0int }),
    {
        if tokens[n - 1].span.end <= offset {
            found = Some(n - 1);
        } else {
            n = n - 1;
        }
    }
    match found {
        None => None,
        Some(last) => {
            if tokens[last].kind == TokenKind::Ident && tokens[last].span.end == offset {
                if last >= 1 {
                    Some(last - 1)
                } else {
                    None
                }
            } else {
                Some(last)
            }
        },
    }
}

/// Whether lexeme `lp` opens a macro's argument list.
fn is_macro_arg(tokens: &Vec<Token>, lp: usize) -> (r: bool)
    requires
        lp < tokens@.len(),
    ensures
        r == macro_arg_spec(tok_fours(tokens@), lp as int),
{
    lp >= 2 && tokens[lp - 1].kind == TokenKind::Ident && tokens[lp - 2].kind == TokenKind::HashLBracket
}

/// The parent kind a `for` at lexeme `f` admits.
fn parent_kind(tokens: &Vec<Token>, f: usize) -> (r: Option<SymbolKind>)
    requires
        f < tokens@.len(),
    ensures
        r == parent_kind_spec(tok_fours(tokens@), f as int),
{
    if f < 2 || tokens[f - 1].kind != TokenKind::Ident {
        None
    } else if tokens[f - 2].kind == TokenKind::KwContainer {
        Some(SymbolKind::System)
    } else if tokens[f - 2].kind == TokenKind::KwComponent {
        Some(SymbolKind::Container)
    } else {
        None
    }
}

/// Appends the segments of the path ending at lexeme `i` to `out`.
fn push_prefix_segs(tokens: &Vec<Token>, i: usize, out: &mut Vec<String>)
    requires
        i < tokens@.len(),
    ensures
        final(out)@.map_values(|s: String| s@) == old(out)@.map_values(|s: String| s@) + prefix_segs(
            tok_fours(tokens@),
            i as int,
        ),
    decreases i,
{
    let ghost fs = tok_fours(tokens@);
    let ghost o0 = out@.map_values(|s: String| s@);
    if tokens[i].kind != TokenKind::Ident {
        assert(out@.map_values(|s: String| s@) =~= o0 + seq![]);
        return;
    }
    if i >= 1 && tokens[i - 1].kind == TokenKind::ColonColon {
        if i >= 2 {
            push_prefix_segs(tokens, i - 2, out);
        } else {
            assert(prefix_segs(fs, i - 2) =~= seq![]);
            assert(out@.map_values(|s: String| s@) =~= o0 + seq![]);
        }
    } else {
        assert(out@.map_values(|s: String| s@) =~= o0 + seq![]);
    }
    let ghost o1 = out@.map_values(|s: String| s@);
    out.push(tokens[i].text.clone());
    assert(out@.map_values(|s: String| s@) =~= o1.push(fs[i as int].3));
}

/// The module path written immediately before lexeme `cc`.
fn module_prefix(tokens: &Vec<Token>, cc: usize) -> (r: String)
    requires
        cc < tokens@.len(),
    ensures
        r@ == module_prefix_spec(tok_fours(tokens@), cc as int),
{
    let ghost fs = tok_fours(tokens@);
    let mut segs: Vec<String> = Vec::new();
    if cc >= 1 {
        push_prefix_segs(tokens, cc - 1, &mut segs);
    }
    let ghost sv = segs@.map_values(|s: String| s@);
    assert(sv =~= prefix_segs(fs, cc - 1));
    let mut r = String::new();
    let mut k: usize = 0;
    assert(join_path(sv.take(0)) =~= seq![]);
    while k < segs.len()
        invariant
            k <= segs@.len(),
            sv == segs@.map_values(|s: String| s@),
            r@ == join_path(sv.take(k as int)),
        decreases segs@.len() - k,
    {
        assert(sv.take(k + 1).drop_last() =~= sv.take(k as int));
        if k > 0 {
            r.append("::");
        }
        r.append(segs[k].as_str());
        proof {
            reveal_strlit("::");
            if k == 0 {
                assert(sv.take(1) =~= seq![sv[0]]);
            }
        }
        assert(r@ =~= join_path(sv.take(k + 1)));
        k = k + 1;
    }
    assert(sv.take(segs@.len() as int) =~= sv);
    r
}

/// The views of strings.
pub open spec fn str_views(v: Seq<String>) -> Seq<Seq<char>> {
    v.map_values(|s: String| s@)
}

/// Inserting into a sequence adds the element to its set.
proof fn lemma_insert_to_set(s: Seq<Seq<char>>, p: int, x: Seq<char>)
    requires
        0 <= p <= s.len(),
    ensures
        s.insert(p, x).to_set() == s.to_set().insert(x),
{
    let t = s.insert(p, x);
    assert forall|y: Seq<char>| t.to_set().contains(y) <==> s.to_set().insert(x).contains(y) by {
        if t.to_set().contains(y) {
            let k = choose|k: int| 0 <= k < t.len() && t[k] == y;
            if k < p {
                assert(s[k] == y);
            } else if k > p {
                assert(s[k - 1] == y);
            }
        }
        if s.to_set().contains(y) {
            let k = choose|k: int| 0 <= k < s.len() && s[k] == y;
            if k < p {
                assert(t[k] == y);
            } else {
                assert(t[k + 1] == y);
            }
        }
        if y == x {
            assert(t[p] == x);
        }
    }
    assert(t.to_set() =~= s.to_set().insert(x));
}

/// Adds `x` to the ascending list `v`, keeping it ascending; nothing
/// changes when `x` is already there.
fn insert_sorted(v: &mut Vec<String>, x: String)
    requires
        ascending(str_views(old(v)@)),
    ensures
        ascending(str_views(final(v)@)),
        str_views(final(v)@).to_set() == str_views(old(v)@).to_set().insert(x@),
{
    let ghost s0 = str_views(v@);
    let mut p: usize = 0;
    while p < v.len() && less_than(v[p].as_str(), x.as_str())
        invariant
            p <= v@.len(),
            s0 == str_views(v@),
            p > 0 ==> str_less(s0[p - 1], x@),
        decreases v@.len() - p,
    {
        p = p + 1;
    }
    if p < v.len() && str_eq(v[p].as_str(), x.as_str()) {
        assert(s0.to_set().contains(x@)) by {
            assert(s0[p as int] == x@);
        }
        assert(s0.to_set().insert(x@) =~= s0.to_set());
        return;
    }
    proof {
        if p < s0.len() {
            assert(!str_less(s0[p as int], x@));
            assert(s0[p as int] != x@);
            lemma_str_less_total(s0[p as int], x@);
        }
        lemma_insert_to_set(s0, p as int, x@);
    }
    let ghost xv = x@;
    v.insert(p, x);
    assert(str_views(v@) =~= s0.insert(p as int, xv));
    let ghost t = str_views(v@);
    assert forall|i: int| 0 <= i < t.len() - 1 implies str_less(#[trigger] t[i], t[i + 1]) by {
        if i < p - 1 {
            assert(t[i] == s0[i] && t[i + 1] == s0[i + 1]);
        } else if i == p - 1 {
            assert(t[i] == s0[i] && t[i + 1] == xv);
        } else if i == p {
            assert(t[i] == xv && t[i + 1] == s0[i]);
        } else {
            assert(t[i] == s0[i - 1] && t[i + 1] == s0[i]);
        }
    }
}

/// The next path segment `fqn` offers after `with` (see [`next_seg`]).
fn next_segment(fqn: &str, with: &str) -> (r: Option<String>)
    ensures
        match r {
            Some(g) => next_seg(fqn@, with@) == Some(g@),
            None => next_seg(fqn@, with@) is None,
        },
{
    let f = crate::strs::chars_of(fqn);
    let w = crate::strs::chars_of(with);
    if w.len() > f.len() {
        return None;
    }
    let mut i: usize = 0;
    while i < w.len()
        invariant
            i <= w@.len(),
            w@.len() <= f@.len(),
            f@ == fqn@,
            w@ == with@,
            forall|j: int| 0 <= j < i ==> f@[j] == w@[j],
        decreases w@.len() - i,
    {
        if f[i] != w[i] {
            assert(f@.take(w@.len() as int)[i as int] != w@[i as int]);
            return None;
        }
        i = i + 1;
    }
    assert(f@.take(w@.len() as int) =~= w@);
    let ghost rest = f@.skip(w@.len() as int);
    let mut seg: Vec<char> = Vec::new();
    let mut k: usize = w.len();
    assert(first_piece(rest) == seg@ + first_piece(f@.skip(k as int)));
    while k < f.len() && !(k + 1 < f.len() && f[k] == ':' && f[k + 1] == ':')
        invariant
            w@.len() <= k <= f@.len(),
            f@ == fqn@,
            rest == f@.skip(w@.len() as int),
            first_piece(rest) == seg@ + first_piece(f@.skip(k as int)),
        decreases f@.len() - k,
    {
        assert(f@.skip(k as int).drop_first() =~= f@.skip(k + 1));
        assert(f@.skip(k as int)[0] == f@[k as int]);
        seg.push(f[k]);
        assert(first_piece(rest) =~= seg@ + first_piece(f@.skip(k + 1)));
        k = k + 1;
    }
    assert(first_piece(f@.skip(k as int)) =~= seq![]);
    assert(first_piece(rest) =~= seg@);
    Some(crate::strs::string_of(&seg))
}

/// Adds the next segment `fqn` offers after `with` to `next`.
fn add_segment(fqn: &str, with: &str, next: &mut Vec<String>)
    requires
        ascending(str_views(old(next)@)),
    ensures
        ascending(str_views(final(next)@)),
        str_views(final(next)@).to_set() == match next_seg(fqn@, with@) {
            Some(g) => str_views(old(next)@).to_set().insert(g),
            None => str_views(old(next)@).to_set(),
        },
{
    match next_segment(fqn, with) {
        Some(g) => insert_sorted(next, g),
        None => {},
    }
}

/// The candidates after `::` (see [`path_items_ok`]).
fn path_items(ws: &Workspace, from_fqn: &str, tokens: &Vec<Token>, cc: usize) -> (r: Vec<CompletionItem>)
    requires
        cc < tokens@.len(),
    ensures
        path_items_ok(*ws, from_fqn@, module_prefix_spec(tok_fours(tokens@), cc as int), item_views(r@)),
{
    let prefix = module_prefix(tokens, cc);
    let syms = ws.symbols();
    let ghost ss = sym_views(syms@);
    let mut out: Vec<CompletionItem> = Vec::new();
    let mut i: usize = 0;
    assert(item_views(out@) =~= seq![]);
    while i < syms.len()
        invariant
            i <= syms@.len(),
            ss == sym_views(syms@),
            item_views(out@) == paths_upto(ss, prefix@, from_fqn@, i as int),
        decreases syms@.len() - i,
    {
        let s = &syms[i];
        assert(ss[i as int] == sym_view(*s));
        let m = symbol_module(s.fqn.as_str());
        if str_eq(m.as_str(), prefix.as_str()) && (str_eq(prefix.as_str(), from_fqn) || s.is_public) {
            let c = sym_candidate(s);
            let ghost o0 = item_views(out@);
            out.push(c);
            assert(item_views(out@) =~= o0.push(sym_item(ss[i as int])));
        }
        i = i + 1;
    }
    let ghost head = item_views(out@);
    let mut with = prefix.clone();
    with.append("::");
    proof {
        reveal_strlit("::");
    }
    assert(with@ =~= prefix@ + seq![':', ':']);
    let ghost fqns = all_module_fqns(*ws);
    let entries = ws.modules();
    let externals = ws.external_module_fqns();
    let mut next: Vec<String> = Vec::new();
    assert(str_views(next@).to_set() =~= Set::<Seq<char>>::empty());
    let mut e: usize = 0;
    while e < entries.len()
        invariant
            e <= entries@.len(),
            fqns == all_module_fqns(*ws),
            entries@ == ws.entry_seq(),
            fqns.len() == entries@.len() + externals@.len(),
            ascending(str_views(next@)),
            str_views(next@).to_set() == segs_upto(fqns, with@, e as int),
        decreases entries@.len() - e,
    {
        assert(fqns[e as int] == entries@[e as int].fqn@);
        add_segment(entries[e].fqn.as_str(), with.as_str(), &mut next);
        e = e + 1;
    }
    let mut x: usize = 0;
    while x < externals.len()
        invariant
            x <= externals@.len(),
            fqns == all_module_fqns(*ws),
            entries@ == ws.entry_seq(),
            externals@.map_values(|s: String| s@) == ws.external_seq(),
            fqns.len() == entries@.len() + externals@.len(),
            ascending(str_views(next@)),
            str_views(next@).to_set() == segs_upto(fqns, with@, entries@.len() + x),
        decreases externals@.len() - x,
    {
        assert(fqns[entries@.len() + x] == externals@[x as int]@);
        add_segment(externals[x].as_str(), with.as_str(), &mut next);
        x = x + 1;
    }
    let ghost nv = str_views(next@);
    let mut k: usize = 0;
    while k < next.len()
        invariant
            k <= next@.len(),
            nv == str_views(next@),
            item_views(out@) == head + nv.take(k as int).map_values(
                |g: Seq<char>| (g, CompletionKind::Module, "module"@),
            ),
        decreases next@.len() - k,
    {
        let c = item(next[k].as_str(), CompletionKind::Module, "module");
        let ghost o0 = item_views(out@);
        out.push(c);
        assert(nv.take(k + 1).map_values(|g: Seq<char>| (g, CompletionKind::Module, "module"@)) =~= nv.take(
            k as int,
        ).map_values(|g: Seq<char>| (g, CompletionKind::Module, "module"@)).push((nv[k as int], CompletionKind::Module, "module"@)));
        assert(item_views(out@) =~= o0.push((nv[k as int], CompletionKind::Module, "module"@)));
        k = k + 1;
    }
    proof {
        let r = item_views(out@);
        let tail_v = nv.map_values(|g: Seq<char>| (g, CompletionKind::Module, "module"@));
        assert(nv.take(nv.len() as int) =~= nv);
        assert(r.take(head.len() as int) =~= head);
        assert(r.skip(head.len() as int) =~= tail_v);
        assert(tail_v.map_values(|t: ItemView| t.0) =~= nv);
    }
    out
}

// ----- member completion -----------------------------------------------------------

/// The `(module, node)` the base lexeme before the `.` at lexeme `dot`
/// denotes: a `::`-qualified node in the module its qualifiers spell
/// (public, or in this module), a node declared in this module, or the
/// node a local binding of that name is typed as.
pub open spec fn owner_before_spec(ws: Workspace, from: Seq<char>, fs: Seq<TokFour>, dot: int) -> Option<OwnerView> {
    if dot < 1 || fs[dot - 1].0 != TokenKind::Ident {
        None
    } else if dot >= 2 && fs[dot - 2].0 == TokenKind::ColonColon {
        let module = module_prefix_spec(fs, dot - 2);
        match ws.any_entry(module) {
            None => None,
            Some(e) => {
                let ds = sym_views(e.model.declared_seq());
                let k = last_sym(ds, fs[dot - 1].3, false);
                if k >= 0 && (module == from || ds[k].3) {
                    Some((module, ds[k].0))
                } else {
                    None
                }
            },
        }
    } else {
        match local_entry(ws, from) {
            None => None,
            Some(e) => {
                let ds = sym_views(e.model.declared_seq());
                let k = last_sym(ds, fs[dot - 1].3, false);
                if k >= 0 {
                    Some((symbol_module_of(ds[k].1), ds[k].0))
                } else {
                    match local_types_of(ws, from) {
                        None => None,
                        Some(ls) => match first_local(ls, fs[dot - 1].3) {
                            None => None,
                            Some(l) => type_owner_of(ws, from, l.2),
                        },
                    }
                }
            },
        }
    }
}

/// The member candidates among the first `n` members: all of them in the
/// owner's own module, only public ones across modules.
pub open spec fn members_upto(ms: Seq<MemberView>, same: bool, n: int) -> Seq<ItemView>
    decreases n,
{
    if n <= 0 {
        seq![]
    } else {
        let pre = members_upto(ms, same, n - 1);
        if same || ms[n - 1].7 {
            pre.push(
                (
                    ms[n - 1].0,
                    if ms[n - 1].1 == MemberKind::Callable {
                        CompletionKind::Method
                    } else {
                        CompletionKind::Field
                    },
                    ms[n - 1].3,
                ),
            )
        } else {
            pre
        }
    }
}

/// The callables and fields of `owner` offered in module `from`.
pub open spec fn member_items_spec(ws: Workspace, from: Seq<char>, owner: Option<OwnerView>) -> Seq<ItemView> {
    match owner {
        None => seq![],
        Some(o) => match ws.any_entry(o.0) {
            None => seq![],
            Some(e) => {
                let ms = members_of(members_views(e.model.member_lists@), o.1);
                members_upto(ms, o.0 == from, ms.len() as int)
            },
        },
    }
}

/// The member candidates of an owner.
fn member_list(ws: &Workspace, from_fqn: &str, owner: Option<(String, String)>) -> (r: Vec<CompletionItem>)
    ensures
        item_views(r@) == member_items_spec(*ws, from_fqn@, opt_owner(owner)),
{
    let mut out: Vec<CompletionItem> = Vec::new();
    assert(item_views(out@) =~= seq![]);
    let (owner_module, owner_name) = match owner {
        None => return out,
        Some(o) => o,
    };
    let model = match ws.module_model(owner_module.as_str()) {
        None => return out,
        Some(m) => m,
    };
    let same = str_eq(owner_module.as_str(), from_fqn);
    let members = model.members(owner_name.as_str());
    let ghost ms = member_views(members@);
    let mut j: usize = 0;
    while j < members.len()
        invariant
            j <= members@.len(),
            ms == member_views(members@),
            item_views(out@) == members_upto(ms, same, j as int),
        decreases members@.len() - j,
    {
        let m = &members[j];
        if same || m.is_public {
            let kind = if m.kind == MemberKind::Callable {
                CompletionKind::Method
            } else {
                CompletionKind::Field
            };
            let c = item(m.name.as_str(), kind, m.detail.as_str());
            let ghost o0 = item_views(out@);
            out.push(c);
            assert(item_views(out@) =~= o0.push((ms[j as int].0, kind, ms[j as int].3)));
        }
        j = j + 1;
    }
    out
}

/// The owner named by the base lexeme before the `.` at lexeme `dot` (see
/// [`owner_before_spec`]).
fn owner_before(ws: &Workspace, from_fqn: &str, tokens: &Vec<Token>, dot: usize) -> (r: Option<(String, String)>)
    requires
        dot < tokens@.len(),
    ensures
        opt_owner(r) == owner_before_spec(*ws, from_fqn@, tok_fours(tokens@), dot as int),
{
    if dot < 1 || tokens[dot - 1].kind != TokenKind::Ident {
        return None;
    }
    let base = &tokens[dot - 1];
    if dot >= 2 && tokens[dot - 2].kind == TokenKind::ColonColon {
        let module = module_prefix(tokens, dot - 2);
        let model = match ws.module_model(module.as_str()) {
            None => return None,
            Some(m) => m,
        };
        match model.symbol(base.text.as_str()) {
            None => None,
            Some(symbol) => {
                if str_eq(module.as_str(), from_fqn) || symbol.is_public {
                    Some((module, symbol.name.clone()))
                } else {
                    None
                }
            },
        }
    } else {
        let entry = match ws.module(from_fqn) {
            None => return None,
            Some(e) => e,
        };
        match entry.model.symbol(base.text.as_str()) {
            Some(symbol) => Some((symbol_module(symbol.fqn.as_str()), symbol.name.clone())),
            None => {
                // Not a declared node: a local binding, typed as the node
                // whose members it offers.
                if collect_locals(ws, from_fqn).is_none() {
                    return None;
                }
                match binding_type_at(ws, from_fqn, base.text.as_str()) {
                    None => None,
                    Some(local) => type_owner(ws, from_fqn, local.ty.as_str()),
                }
            },
        }
    }
}

// ----- the engine ------------------------------------------------------------

/// The completion candidates `r` for byte `offset` of `src`, the source of
/// module `from`: nothing inside prose; otherwise by the governing lexeme
/// (see [`trigger_spec`]): after `.` the members of the base's owner (the
/// owner of the receiver chain of the parsed source when the base names
/// none, and nothing when local typing is stuck); after `::` the path
/// candidates; after `#[` the macros; in a macro's argument list or after
/// `:` or `<` the types; after `for` the admissible nodes; else the
/// general candidates.
pub open spec fn completion_ok(ws: Workspace, from: Seq<char>, src: Seq<u8>, offset: int, r: Seq<ItemView>) -> bool {
    let fs = lex_tokens(src);
    let t = trigger_spec(fs, offset);
    if inside_prose_spec(fs, offset) {
        r == Seq::<ItemView>::empty()
    } else if t >= 0 && fs[t].0 == TokenKind::Dot {
        match owner_before_spec(ws, from, fs, t) {
            Some(o) => r == member_items_spec(ws, from, Some(o)),
            None => match local_types_of(ws, from) {
                None => r == Seq::<ItemView>::empty(),
                Some(ls) => exists|m: Module|
                    #[trigger] parsed_from(src, m) && r == member_items_spec(
                        ws,
                        from,
                        items_owner_spec(ws, from, ls, m.items@, fs[t].1),
                    ),
            },
        }
    } else if t >= 0 && fs[t].0 == TokenKind::ColonColon {
        path_items_ok(ws, from, module_prefix_spec(fs, t), r)
    } else if t >= 0 && fs[t].0 == TokenKind::HashLBracket {
        r == macro_items_spec()
    } else if t >= 0 && fs[t].0 == TokenKind::LParen && macro_arg_spec(fs, t) {
        r == type_items_spec(ws)
    } else if t >= 0 && (fs[t].0 == TokenKind::Colon || fs[t].0 == TokenKind::LAngle) {
        r == type_items_spec(ws)
    } else if t >= 0 && fs[t].0 == TokenKind::KwFor {
        r == node_items_spec(ws, from, parent_kind_spec(fs, t))
    } else {
        r == general_items_spec(ws, from, offset)
    }
}

/// Completion candidates for byte `offset` in module `from_fqn`'s `src`, as
/// [`completion_ok`] says.
pub fn completion(ws: &Workspace, from_fqn: &str, src: &str, offset: u32) -> (r: Vec<CompletionItem>)
    requires
        src.spec_bytes().len() < u32::MAX,
    ensures
        completion_ok(*ws, from_fqn@, src.spec_bytes(), offset as int, item_views(r@)),
{
    let tokens = tokenize(src);
    let ghost fs = tok_fours(tokens@);
    assert(fs == lex_tokens(src.spec_bytes()));
    // Inside a string literal or a doc comment the caret is in prose, not
    // code: offer nothing.
    if inside_prose(&tokens, offset) {
        let none: Vec<CompletionItem> = Vec::new();
        assert(item_views(none@) =~= Seq::<ItemView>::empty());
        return none;
    }
    let trigger = governing_trigger(&tokens, offset);
    match trigger {
        None => general_items(ws, from_fqn, offset),
        Some(i) => {
            let kind = tokens[i].kind;
            if kind == TokenKind::Dot {
                match owner_before(ws, from_fqn, &tokens, i) {
                    Some(o) => member_list(ws, from_fqn, Some(o)),
                    None => {
                        if collect_locals(ws, from_fqn).is_none() {
                            let none: Vec<CompletionItem> = Vec::new();
                            assert(item_views(none@) =~= Seq::<ItemView>::empty());
                            return none;
                        }
                        let owner = owner_at_dot(ws, from_fqn, src, tokens[i].span.start);
                        let r = member_list(ws, from_fqn, owner);
                        proof {
                            let ls = local_types_of(*ws, from_fqn@)->0;
                            let m = choose|m: Module|
                                #[trigger] parsed_from(src.spec_bytes(), m) && opt_owner(owner) == items_owner_spec(
                                    *ws,
                                    from_fqn@,
                                    ls,
                                    m.items@,
                                    tokens@[i as int].span.start as int,
                                );
                            assert(parsed_from(src.spec_bytes(), m));
                        }
                        r
                    },
                }
            } else if kind == TokenKind::ColonColon {
                path_items(ws, from_fqn, &tokens, i)
            } else if kind == TokenKind::HashLBracket {
                macro_items()
            } else if kind == TokenKind::LParen && is_macro_arg(&tokens, i) {
                // A built-in macro's argument is a type path.
                type_items(ws)
            } else if kind == TokenKind::Colon || kind == TokenKind::LAngle {
                type_items(ws)
            } else if kind == TokenKind::KwFor {
                // A `for` parent (or feature target) names a node.
                let required = parent_kind(&tokens, i);
                node_items(ws, from_fqn, required)
            } else {
                general_items(ws, from_fqn, offset)
            }
        },
    }
}

} // verus!
