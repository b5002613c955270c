//! Cursor features over source text: rename ranges, go-to-definition,
//! hover content and inlay hints. Positions are 0-based lines and UTF-16
//! characters (see [`crate::convert`]).

use crate::convert::{Position, Range, offset_to_position, position_of, position_to_offset, offset_of, span_to_range};
use crate::lexer::{TokFour, lex_tokens, tok_fours, tokenize};
use crate::model::infer::{
    LocalView, binding_type_at, first_local, local_types, local_types_known, local_types_of, local_view,
    local_views,
};
use crate::model::resolve::{HitView, resolve_at, resolve_src};
use crate::model::symbols::Workspace;
use crate::refs::{four_span, mod_sources_fit};
use crate::model::symbols::{SymView, SymbolKind, latest, sym_view, sym_views, symbol_module, symbol_module_of};
use crate::strs::str_eq;
use vstd::utf8::encode_utf8;
use crate::span::{LineIndex, Span};
use crate::token::{Token, TokenKind};
use vstd::prelude::*;
use vstd::string::{StringExecFns, StringSliceAdditionalSpecFns};

verus! {

/// The range of a byte span of `src`.
pub open spec fn range_of(src: Seq<u8>, s: Span) -> Range {
    Range { start: position_of(src, s.start as int), end: position_of(src, s.end as int) }
}

/// The editor range of the identifier under `position`, if it resolves to
/// a symbol (which can then be renamed).
pub fn renameable(ws: &Workspace, from_fqn: &str, src: &str, position: Position) -> (r: Option<Range>)
    requires
        src.spec_bytes().len() < u32::MAX,
    ensures
        match resolve_src(*ws, from_fqn@, src.spec_bytes(), offset_of(src.spec_bytes(), position)) {
            None => r is None,
            Some(h) => r == Some(range_of(src.spec_bytes(), h.0)),
        },
{
    let offset = position_to_offset(src, position);
    let hit = match resolve_at(ws, from_fqn, src, offset) {
        None => return None,
        Some(h) => h,
    };
    let index = LineIndex::new(src);
    Some(span_to_range(src, &index, hit.clicked))
}

/// A go-to-definition target: the module the definition lives in and its
/// span in that module's source.
#[derive(Debug)]
pub struct DefTarget {
    /// FQN of the module containing the definition.
    pub fqn: String,
    /// Span of the definition within that module's source.
    pub span: Span,
}

/// The definition of the identifier at `position` in module `from_fqn`,
/// across modules and into node members.
pub fn definition(ws: &Workspace, from_fqn: &str, src: &str, position: Position) -> (r: Option<DefTarget>)
    requires
        src.spec_bytes().len() < u32::MAX,
    ensures
        match resolve_src(*ws, from_fqn@, src.spec_bytes(), offset_of(src.spec_bytes(), position)) {
            None => r is None,
            Some(h) => r matches Some(d) && d.fqn@ == h.1 && d.span == h.2,
        },
{
    let offset = position_to_offset(src, position);
    match resolve_at(ws, from_fqn, src, offset) {
        None => None,
        Some(hit) => Some(DefTarget { fqn: hit.target_module, span: hit.target_span }),
    }
}

/// Hover content: Markdown text and the range it describes.
#[derive(Debug)]
pub struct Hover {
    /// The Markdown text.
    pub value: String,
    /// The range of the hovered identifier.
    pub range: Range,
}

/// The hover text of a resolved symbol: its title in bold, then its doc
/// summary or signature after a blank line.
pub open spec fn hit_text(h: HitView) -> Seq<char> {
    "**"@ + h.4 + "**"@ + match h.5 {
        None => Seq::<char>::empty(),
        Some(b) => "\n\n"@ + b,
    }
}

/// The first identifier lexeme whose span holds `o`, if any.
pub open spec fn ident_holding(fs: Seq<TokFour>, o: int, n: int) -> Option<int>
    decreases n,
{
    if n <= 0 {
        None
    } else {
        match ident_holding(fs, o, n - 1) {
            Some(i) => Some(i),
            None => if fs[n - 1].0 == TokenKind::Ident && fs[n - 1].1 <= o < fs[n - 1].2 {
                Some(n - 1)
            } else {
                None
            },
        }
    }
}

/// The identifier lexeme at `o`, or else just before it (the caret just
/// past an identifier).
pub open spec fn ident_at_spec(fs: Seq<TokFour>, o: int) -> Option<int> {
    match ident_holding(fs, o, fs.len() as int) {
        Some(i) => Some(i),
        None => if o >= 1 {
            ident_holding(fs, o - 1, fs.len() as int)
        } else {
            None
        },
    }
}

/// The hover of a local binding named `name` at `span` typed `ty`.
pub open spec fn local_text(name: Seq<char>, ty: Seq<char>) -> Seq<char> {
    "**`"@ + name + ": "@ + ty + "`**\n\nlocal binding"@
}

/// The hover at byte `o` of `src`: the resolved symbol's text over the
/// clicked identifier; else, for an identifier naming a local binding, its
/// name and inferred type; else nothing (also when local typing is stuck).
pub open spec fn hover_spec(ws: Workspace, from: Seq<char>, src: Seq<u8>, o: int) -> Option<(Seq<char>, Range)> {
    let fs = lex_tokens(src);
    match resolve_src(ws, from, src, o) {
        Some(h) => Some((hit_text(h), range_of(src, h.0))),
        None => match ident_at_spec(fs, o) {
            None => None,
            Some(i) => match local_types_of(ws, from) {
                None => None,
                Some(ls) => match first_local(ls, fs[i].3) {
                    None => None,
                    Some(l) => Some((local_text(fs[i].3, l.2), range_of(src, four_span(fs[i])))),
                },
            },
        },
    }
}

/// The first identifier token whose span holds `o`.
fn ident_holding_exec(tokens: &Vec<Token>, o: u32) -> (r: Option<usize>)
    ensures
        match r {
            Some(i) => ident_holding(tok_fours(tokens@), o as int, tokens@.len() as int) == Some(i as int) && i
                < tokens@.len(),
            None => ident_holding(tok_fours(tokens@), o as int, tokens@.len() as int) is None,
        },
{
    let ghost fs = tok_fours(tokens@);
    let mut i: usize = 0;
    while i < tokens.len()
        invariant
            i <= tokens@.len(),
            fs == tok_fours(tokens@),
            ident_holding(fs, o as int, i as int) is None,
        decreases tokens@.len() - i,
    {
        let t = &tokens[i];
        if t.kind == TokenKind::Ident && t.span.start <= o && o < t.span.end {
            proof {
                lemma_ident_holding_mono(fs, o as int, i + 1, tokens@.len() as int);
            }
            return Some(i);
        }
        i = i + 1;
    }
    None
}

/// A hit among the first `n` lexemes stays the hit among more.
proof fn lemma_ident_holding_mono(fs: Seq<TokFour>, o: int, n: int, m: int)
    requires
        0 <= n <= m,
        ident_holding(fs, o, n) is Some,
    ensures
        ident_holding(fs, o, m) == ident_holding(fs, o, n),
    decreases m - n,
{
    if m > n {
        lemma_ident_holding_mono(fs, o, n, m - 1);
    }
}

/// `a`, `b` and `c` in sequence, as a new string.
fn concat3(a: &str, b: &str, c: &str) -> (s: String)
    ensures
        s@ == a@ + b@ + c@,
{
    let mut s = String::from_str(a);
    s.append(b);
    s.append(c);
    s
}

/// Hover content for the identifier at `position` (see [`hover_spec`]).
pub fn hover(ws: &Workspace, from_fqn: &str, src: &str, position: Position) -> (r: Option<Hover>)
    requires
        src.spec_bytes().len() < u32::MAX,
    ensures
        match hover_spec(*ws, from_fqn@, src.spec_bytes(), offset_of(src.spec_bytes(), position)) {
            None => r is None,
            Some(v) => r matches Some(h) && h.value@ == v.0 && h.range == v.1,
        },
{
    let offset = position_to_offset(src, position);
    let index = LineIndex::new(src);
    if let Some(hit) = resolve_at(ws, from_fqn, src, offset) {
        let mut text = concat3("**", hit.title.as_str(), "**");
        match &hit.body {
            Some(body) => {
                text.append("\n\n");
                text.append(body.as_str());
            },
            None => {},
        }
        proof {
            reveal_strlit("**");
            reveal_strlit("\n\n");
        }
        assert(text@ =~= hit_text(crate::model::resolve::hit_view(hit)));
        return Some(Hover { value: text, range: span_to_range(src, &index, hit.clicked) });
    }
    let tokens = tokenize(src);
    let ghost fs = tok_fours(tokens@);
    let at = match ident_holding_exec(&tokens, offset) {
        Some(i) => Some(i),
        None => if offset >= 1 {
            ident_holding_exec(&tokens, offset - 1)
        } else {
            None
        },
    };
    let i = match at {
        None => return None,
        Some(i) => i,
    };
    if !local_types_known(ws, from_fqn) {
        return None;
    }
    let name = tokens[i].text.as_str();
    let local = match binding_type_at(ws, from_fqn, name) {
        None => return None,
        Some(l) => l,
    };
    let mut text = concat3("**`", name, ": ");
    text.append(local.ty.as_str());
    text.append("`**\n\nlocal binding");
    assert(text@ =~= local_text(fs[i as int].3, local.ty@));
    assert(four_span(fs[i as int]) == tokens@[i as int].span);
    Some(Hover { value: text, range: span_to_range(src, &index, tokens[i].span) })
}

/// An inlay hint: a label shown at a position.
#[derive(Debug)]
pub struct InlayHint {
    /// Where the hint is shown.
    pub position: Position,
    /// The text shown (`: Type`).
    pub label: String,
}

/// An inlay hint as plain values.
pub open spec fn hint_view(h: InlayHint) -> (Position, Seq<char>) {
    (h.position, h.label@)
}

/// The hint a local binding gets: its inferred type after its name.
pub open spec fn local_hint(src: Seq<u8>, l: LocalView) -> (Position, Seq<char>) {
    (position_of(src, l.1.end as int), ": "@ + l.2)
}

/// Inlay hints: an inferred `: Type` after each typed local binding, in
/// walk order; none when local typing is stuck.
pub fn inlay_hints(ws: &Workspace, from_fqn: &str, src: &str) -> (r: Vec<InlayHint>)
    requires
        src.spec_bytes().len() < u32::MAX,
    ensures
        match local_types_of(*ws, from_fqn@) {
            None => r@.len() == 0,
            Some(ls) => r@.map_values(|h: InlayHint| hint_view(h)) == ls.map_values(
                |l: LocalView| local_hint(src.spec_bytes(), l),
            ),
        },
{
    let mut out: Vec<InlayHint> = Vec::new();
    if !local_types_known(ws, from_fqn) {
        return out;
    }
    let index = LineIndex::new(src);
    let locals = local_types(ws, from_fqn);
    let ghost lv = local_views(locals@);
    let mut i: usize = 0;
    while i < locals.len()
        invariant
            i <= locals@.len(),
            lv == local_views(locals@),
            index.starts() == crate::span::line_starts_of(src.spec_bytes(), src.spec_bytes().len()),
            index.source_len() == src.spec_bytes().len(),
            out@.map_values(|h: InlayHint| hint_view(h)) == lv.take(i as int).map_values(
                |l: LocalView| local_hint(src.spec_bytes(), l),
            ),
        decreases locals@.len() - i,
    {
        let l = &locals[i];
        let position = offset_to_position(src, &index, l.name_span.end);
        let mut label = String::from_str(": ");
        label.append(l.ty.as_str());
        proof {
            reveal_strlit(": ");
        }
        let ghost o0 = out@.map_values(|h: InlayHint| hint_view(h));
        out.push(InlayHint { position, label });
        assert(lv[i as int] == local_view(locals@[i as int]));
        assert(out@.map_values(|h: InlayHint| hint_view(h)) =~= o0.push(local_hint(src.spec_bytes(), lv[i as int])));
        assert(lv.take(i + 1).map_values(|l: LocalView| local_hint(src.spec_bytes(), l)) =~= lv.take(i as int).map_values(
            |l: LocalView| local_hint(src.spec_bytes(), l),
        ).push(local_hint(src.spec_bytes(), lv[i as int])));
        i = i + 1;
    }
    assert(lv.take(locals@.len() as int) =~= lv);
    out
}

// ----- workspace symbol search ------------------------------------------------

/// What `str::to_lowercase` gives for a string.
pub uninterp spec fn lowercase(s: Seq<char>) -> Seq<char>;

/// std's `str::to_lowercase`: the Unicode lowercase mapping of `s`. Its
/// result is named, not stated: it is a function of `s` alone.
#[verifier::external_body]
fn to_lower(s: &str) -> (r: String)
    ensures
        r@ == lowercase(s@),
{
    s.to_lowercase()
}

/// Whether `needle` occurs in `hay` as a contiguous run.
pub open spec fn contains_sub(hay: Seq<char>, needle: Seq<char>) -> bool {
    exists|i: int| 0 <= i <= hay.len() - needle.len() && #[trigger] hay.subrange(i, i + needle.len()) == needle
}

/// Whether `needle` occurs in `hay` (see [`contains_sub`]).
fn contains_str(hay: &str, needle: &str) -> (r: bool)
    ensures
        r == contains_sub(hay@, needle@),
{
    let h = crate::strs::chars_of(hay);
    let n = crate::strs::chars_of(needle);
    if n.len() > h.len() {
        return false;
    }
    let hl = h.len();
    let mut i: usize = 0;
    while i <= h.len() - n.len()
        invariant
            hl == h@.len(),
            h@ == hay@,
            n@ == needle@,
            n@.len() <= h@.len(),
            i <= h@.len() - n@.len() + 1,
            forall|k: int| 0 <= k < i ==> #[trigger] h@.subrange(k, k + n@.len()) != n@,
        decreases h@.len() - n@.len() + 1 - i,
    {
        let mut j: usize = 0;
        let mut same = true;
        while j < n.len() && same
            invariant
                hl == h@.len(),
                h@ == hay@,
                n@ == needle@,
                n@.len() <= h@.len(),
                i <= h@.len() - n@.len(),
                j <= n@.len(),
                forall|q: int| 0 <= q < j ==> h@[i + q] == n@[q],
                !same ==> j < n@.len() && h@[i + j] != n@[j as int],
            decreases n@.len() - j + (if same { 1int } else { 0int }),
        {
            assert(i + j < h@.len());
            let a = h[i + j];
            if a == n[j] {
                j = j + 1;
            } else {
                same = false;
            }
        }
        if same {
            assert(h@.subrange(i as int, i + n@.len()) =~= n@);
            return true;
        }
        assert(h@.subrange(i as int, i + n@.len())[j as int] != n@[j as int]);
        i = i + 1;
    }
    assert(!contains_sub(hay@, needle@)) by {
        if contains_sub(hay@, needle@) {
            let k = choose|k: int| 0 <= k <= hay@.len() - needle@.len() && #[trigger] hay@.subrange(k, k + needle@.len())
                == needle@;
            assert(h@.subrange(k, k + n@.len()) != n@);
        }
    }
    false
}

/// A workspace symbol found by search: its name, whether it is a `data`
/// (else a node), the module it is declared in, its range in that module's
/// source, and its FQN.
#[derive(Debug)]
pub struct SymbolInformation {
    /// The symbol's name.
    pub name: String,
    /// Whether the symbol is a `data` declaration.
    pub is_class: bool,
    /// The module whose source holds the declaration.
    pub module: String,
    /// The declaration's range in that source.
    pub range: Range,
    /// The symbol's FQN.
    pub container_name: String,
}

/// A found symbol as plain values.
pub type InfoView = (Seq<char>, bool, Seq<char>, Range, Seq<char>);

/// The plain views of found symbols.
pub open spec fn info_views(is: Seq<SymbolInformation>) -> Seq<InfoView> {
    is.map_values(|i: SymbolInformation| (i.name@, i.is_class, i.module@, i.range, i.container_name@))
}

/// The index of the first `(fqn, source)` pair of `mods` for `fqn`, or -1.
pub open spec fn locate_in(mods: Seq<(String, String)>, fqn: Seq<char>, n: int) -> int
    decreases n,
{
    if n <= 0 {
        -1
    } else if locate_in(mods, fqn, n - 1) >= 0 {
        locate_in(mods, fqn, n - 1)
    } else if mods[n - 1].0@ == fqn {
        n - 1
    } else {
        -1
    }
}

/// The search hits among the first `n` symbols: those whose lowercased
/// name contains `needle` (every one for an empty needle) and whose module
/// has a source in `mods`.
pub open spec fn hits_upto(ss: Seq<SymView>, needle: Seq<char>, mods: Seq<(String, String)>, n: int) -> Seq<InfoView>
    decreases n,
{
    if n <= 0 {
        seq![]
    } else {
        let pre = hits_upto(ss, needle, mods, n - 1);
        let s = ss[n - 1];
        let module = symbol_module_of(s.1);
        let k = locate_in(mods, module, mods.len() as int);
        if (needle.len() == 0 || contains_sub(lowercase(s.0), needle)) && k >= 0 {
            pre.push((s.0, s.2 == SymbolKind::Data, module, range_of(encode_utf8(mods[k].1@), s.4), s.1))
        } else {
            pre
        }
    }
}

/// The first pair of `mods` for `fqn`.
fn locate(mods: &[(String, String)], fqn: &str) -> (r: Option<usize>)
    ensures
        match r {
            Some(k) => locate_in(mods@, fqn@, mods@.len() as int) == k && k < mods@.len(),
            None => locate_in(mods@, fqn@, mods@.len() as int) == -1,
        },
{
    let mut i: usize = 0;
    while i < mods.len()
        invariant
            i <= mods@.len(),
            locate_in(mods@, fqn@, i as int) == -1,
        decreases mods@.len() - i,
    {
        if str_eq(mods[i].0.as_str(), fqn) {
            proof {
                lemma_locate_mono(mods@, fqn@, i + 1, mods@.len() as int);
            }
            return Some(i);
        }
        i = i + 1;
    }
    None
}

/// A pair found among the first `n` stays the one found among more.
proof fn lemma_locate_mono(mods: Seq<(String, String)>, fqn: Seq<char>, n: int, m: int)
    requires
        0 <= n <= m,
        locate_in(mods, fqn, n) >= 0,
    ensures
        locate_in(mods, fqn, m) == locate_in(mods, fqn, n),
    decreases m - n,
{
    if m > n {
        lemma_locate_mono(mods, fqn, n, m - 1);
    }
}

/// Workspace symbols whose lowercased name contains the lowercased `query`
/// (every symbol for an empty query), one per FQN, each located in its
/// module's source among `modules` (`(fqn, source)` pairs); symbols of a
/// module without a source are left out.
pub fn workspace_symbols(ws: &Workspace, query: &str, modules: &[(String, String)]) -> (r: Vec<SymbolInformation>)
    requires
        mod_sources_fit(modules@),
    ensures
        ({
            let ss = latest(sym_views(ws.index_seq()), true);
            info_views(r@) == hits_upto(ss, lowercase(query@), modules@, ss.len() as int)
        }),
{
    let needle = to_lower(query);
    let syms = ws.symbols();
    let ghost ss = sym_views(syms@);
    let mut out: Vec<SymbolInformation> = Vec::new();
    let mut i: usize = 0;
    assert(info_views(out@) =~= seq![]);
    while i < syms.len()
        invariant
            i <= syms@.len(),
            ss == sym_views(syms@),
            mod_sources_fit(modules@),
            info_views(out@) == hits_upto(ss, needle@, modules@, i as int),
        decreases syms@.len() - i,
    {
        let symbol = &syms[i];
        assert(ss[i as int] == sym_view(*symbol));
        let matches = needle.as_str().unicode_len() == 0 || contains_str(to_lower(symbol.name.as_str()).as_str(), needle.as_str());
        if matches {
            let module = symbol_module(symbol.fqn.as_str());
            match locate(modules, module.as_str()) {
                None => {},
                Some(k) => {
                    let source = modules[k].1.as_str();
                    assert(encode_utf8(modules@[k as int].1@).len() < u32::MAX);
                    let index = LineIndex::new(source);
                    let range = span_to_range(source, &index, symbol.span);
                    let info = SymbolInformation {
                        name: symbol.name.clone(),
                        is_class: symbol.kind == SymbolKind::Data,
                        module,
                        range,
                        container_name: symbol.fqn.clone(),
                    };
                    let ghost o0 = info_views(out@);
                    out.push(info);
                    assert(info_views(out@) =~= o0.push(
                        (
                            ss[i as int].0,
                            ss[i as int].2 == SymbolKind::Data,
                            symbol_module_of(ss[i as int].1),
                            range_of(encode_utf8(modules@[k as int].1@), ss[i as int].4),
                            ss[i as int].1,
                        ),
                    ));
                },
            }
        }
        i = i + 1;
    }
    out
}

} // verus!
