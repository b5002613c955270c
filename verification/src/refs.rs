//! Find-references and document-highlight.
//!
//! Both share one engine: resolve the definition under the cursor, then scan
//! every name-position identifier of the given sources and keep those that
//! resolve to the same definition. A `::` qualifier (an identifier followed
//! by `::`) names a module, not the symbol, so it is never an occurrence.

use crate::lexer::{TokFour, lex_tokens, tokenize};
use crate::model::resolve::{resolve_at, resolve_src};
use crate::model::symbols::Workspace;
use crate::span::Span;
use crate::strs::str_eq;
use crate::token::TokenKind;
use vstd::prelude::*;
use vstd::string::{StringExecFns, StringSliceAdditionalSpecFns};
use vstd::utf8::encode_utf8;

verus! {

/// One occurrence of a symbol: its span in module `fqn`'s source.
#[derive(Debug)]
pub struct Occurrence {
    /// FQN of the module the occurrence lies in.
    pub fqn: String,
    /// Span of the identifier in that module's source.
    pub span: Span,
}

/// An occurrence as plain values.
pub type OccView = (Seq<char>, Span);

/// The plain views of occurrences.
pub open spec fn occ_views(os: Seq<Occurrence>) -> Seq<OccView> {
    os.map_values(|o: Occurrence| (o.fqn@, o.span))
}

/// The span of a lexeme.
pub open spec fn four_span(f: TokFour) -> Span {
    Span { start: f.1 as u32, end: f.2 as u32 }
}

/// Whether lexeme `i` of `fs` is in name position: an identifier that is not
/// a module qualifier (followed by `::`).
pub open spec fn name_at(fs: Seq<TokFour>, i: int) -> bool {
    fs[i].0 == TokenKind::Ident && !(i + 1 < fs.len() && fs[i + 1].0 == TokenKind::ColonColon)
}

/// Whether lexeme `i` of module `fqn`'s source `src` is an occurrence of the
/// definition at span `tspan` of module `tm`: a name that resolves there,
/// and, unless `include_decl`, not the definition itself.
pub open spec fn occurs_at(
    ws: Workspace,
    fqn: Seq<char>,
    src: Seq<u8>,
    tm: Seq<char>,
    tspan: Span,
    include_decl: bool,
    i: int,
) -> bool {
    let fs = lex_tokens(src);
    &&& name_at(fs, i)
    &&& (resolve_src(ws, fqn, src, fs[i].1) matches Some(h) && h.1 == tm && h.2 == tspan)
    &&& (include_decl || !(fqn == tm && four_span(fs[i]) == tspan))
}

/// The occurrences among the first `n` lexemes of module `fqn`'s source
/// `src` of the definition at span `tspan` of module `tm`, in source order.
pub open spec fn occs_in(
    ws: Workspace,
    fqn: Seq<char>,
    src: Seq<u8>,
    tm: Seq<char>,
    tspan: Span,
    include_decl: bool,
    n: int,
) -> Seq<OccView>
    decreases n,
{
    if n <= 0 {
        seq![]
    } else {
        let pre = occs_in(ws, fqn, src, tm, tspan, include_decl, n - 1);
        if occurs_at(ws, fqn, src, tm, tspan, include_decl, n - 1) {
            pre.push((fqn, four_span(lex_tokens(src)[n - 1])))
        } else {
            pre
        }
    }
}

/// The occurrences of the definition at span `tspan` of module `tm` in the
/// first `k` of the `(fqn, source)` pairs, module after module.
pub open spec fn occs_over(
    ws: Workspace,
    mods: Seq<(String, String)>,
    tm: Seq<char>,
    tspan: Span,
    include_decl: bool,
    k: int,
) -> Seq<OccView>
    decreases k,
{
    if k <= 0 {
        seq![]
    } else {
        let src = encode_utf8(mods[k - 1].1@);
        occs_over(ws, mods, tm, tspan, include_decl, k - 1) + occs_in(
            ws,
            mods[k - 1].0@,
            src,
            tm,
            tspan,
            include_decl,
            lex_tokens(src).len() as int,
        )
    }
}

/// The occurrences found in a module all lie in that module.
proof fn lemma_occs_in_module(
    ws: Workspace,
    fqn: Seq<char>,
    src: Seq<u8>,
    tm: Seq<char>,
    tspan: Span,
    include_decl: bool,
    n: int,
)
    ensures
        forall|j: int|
            0 <= j < occs_in(ws, fqn, src, tm, tspan, include_decl, n).len() ==> (#[trigger] occs_in(
                ws,
                fqn,
                src,
                tm,
                tspan,
                include_decl,
                n,
            )[j]).0 == fqn,
    decreases n,
{
    if n > 0 {
        lemma_occs_in_module(ws, fqn, src, tm, tspan, include_decl, n - 1);
        let pre = occs_in(ws, fqn, src, tm, tspan, include_decl, n - 1);
        let res = occs_in(ws, fqn, src, tm, tspan, include_decl, n);
        assert forall|j: int| 0 <= j < res.len() implies (#[trigger] res[j]).0 == fqn by {
            if j < pre.len() {
                assert(res[j] == pre[j]);
            }
        }
    }
}

/// Whether every source fits the `u32` spans of the syntax tree.
pub open spec fn mod_sources_fit(mods: Seq<(String, String)>) -> bool {
    forall|k: int| 0 <= k < mods.len() ==> encode_utf8((#[trigger] mods[k]).1@).len() < u32::MAX
}

/// Whether two `(module, span)` pairs denote the same definition site.
fn same(a_mod: &str, a: Span, b_mod: &str, b: Span) -> (r: bool)
    ensures
        r == (a_mod@ == b_mod@ && a == b),
{
    str_eq(a_mod, b_mod) && a.start == b.start && a.end == b.end
}

/// The occurrences, in module `fqn`'s source `source`, of the definition at
/// `tspan` of module `tm`, appended to `out`.
fn scan_module(
    ws: &Workspace,
    fqn: &String,
    source: &String,
    tm: &String,
    tspan: Span,
    include_decl: bool,
    out: &mut Vec<Occurrence>,
)
    requires
        encode_utf8(source@).len() < u32::MAX,
    ensures
        occ_views(final(out)@) == occ_views(old(out)@) + occs_in(
            *ws,
            fqn@,
            encode_utf8(source@),
            tm@,
            tspan,
            include_decl,
            lex_tokens(encode_utf8(source@)).len() as int,
        ),
{
    let ghost src = encode_utf8(source@);
    let ghost base = occ_views(out@);
    let tokens = tokenize(source.as_str());
    let ghost fs = lex_tokens(src);
    assert(fs.len() == tokens@.len());
    let mut i: usize = 0;
    assert(occ_views(out@) =~= base + occs_in(*ws, fqn@, src, tm@, tspan, include_decl, 0));
    while i < tokens.len()
        invariant
            i <= tokens@.len(),
            fs == lex_tokens(src),
            src == encode_utf8(source@),
            src.len() < u32::MAX,
            fs.len() == tokens@.len(),
            forall|j: int|
                0 <= j < tokens@.len() ==> (#[trigger] tokens@[j]).kind == fs[j].0 && tokens@[j].span.start
                    == fs[j].1 && tokens@[j].span.end == fs[j].2,
            occ_views(out@) == base + occs_in(*ws, fqn@, src, tm@, tspan, include_decl, i as int),
        decreases tokens@.len() - i,
    {
        let t = &tokens[i];
        let ghost before = occ_views(out@);
        assert(four_span(fs[i as int]) == t.span);
        let qualifier = i + 1 < tokens.len() && tokens[i + 1].kind == TokenKind::ColonColon;
        if t.kind == TokenKind::Ident && !qualifier {
            match resolve_at(ws, fqn.as_str(), source.as_str(), t.span.start) {
                Some(hit) => {
                    if same(hit.target_module.as_str(), hit.target_span, tm.as_str(), tspan) {
                        let is_decl = same(fqn.as_str(), t.span, tm.as_str(), tspan);
                        if include_decl || !is_decl {
                            out.push(Occurrence { fqn: fqn.clone(), span: t.span });
                            assert(occ_views(out@) =~= before.push((fqn@, t.span)));
                        }
                    }
                },
                None => {},
            }
        }
        assert(occ_views(out@) == base + occs_in(*ws, fqn@, src, tm@, tspan, include_decl, i + 1));
        i = i + 1;
    }
}

/// Every occurrence of the symbol under `offset` of `src`, the source of
/// module `from_fqn`, across `modules` (`(fqn, source)` pairs), module
/// after module in source order. With `include_decl` false, the defining
/// occurrence is omitted. Nothing when no symbol is under the cursor.
pub fn references(
    ws: &Workspace,
    modules: &[(String, String)],
    from_fqn: &str,
    src: &str,
    offset: u32,
    include_decl: bool,
) -> (r: Vec<Occurrence>)
    requires
        src.spec_bytes().len() < u32::MAX,
        mod_sources_fit(modules@),
    ensures
        occ_views(r@) == match resolve_src(*ws, from_fqn@, src.spec_bytes(), offset as int) {
            None => seq![],
            Some(t) => occs_over(*ws, modules@, t.1, t.2, include_decl, modules@.len() as int),
        },
{
    let target = match resolve_at(ws, from_fqn, src, offset) {
        None => {
            let none: Vec<Occurrence> = Vec::new();
            assert(occ_views(none@) =~= seq![]);
            return none;
        },
        Some(h) => h,
    };
    let mut out: Vec<Occurrence> = Vec::new();
    let mut k: usize = 0;
    assert(occ_views(out@) =~= seq![]);
    while k < modules.len()
        invariant
            k <= modules@.len(),
            mod_sources_fit(modules@),
            occ_views(out@) == occs_over(
                *ws,
                modules@,
                target.target_module@,
                target.target_span,
                include_decl,
                k as int,
            ),
        decreases modules@.len() - k,
    {
        let pair = &modules[k];
        assert(encode_utf8(modules@[k as int].1@).len() < u32::MAX);
        scan_module(ws, &pair.0, &pair.1, &target.target_module, target.target_span, include_decl, &mut out);
        k = k + 1;
    }
    out
}

/// The occurrences of the symbol under `offset` within the current file
/// only (document highlight): its spans in source order, the definition's
/// own included when it lies in this file.
pub fn highlights(ws: &Workspace, from_fqn: &str, src: &str, offset: u32) -> (r: Vec<Span>)
    requires
        src.spec_bytes().len() < u32::MAX,
    ensures
        r@ == match resolve_src(*ws, from_fqn@, src.spec_bytes(), offset as int) {
            None => seq![],
            Some(t) => occs_in(
                *ws,
                from_fqn@,
                src.spec_bytes(),
                t.1,
                t.2,
                true,
                lex_tokens(src.spec_bytes()).len() as int,
            ).map_values(|o: OccView| o.1),
        },
{
    let modules = vec![(String::from_str(from_fqn), String::from_str(src))];
    assert(modules@[0].1@ == src@);
    assert(modules@.len() == 1);
    let occs = references(ws, modules.as_slice(), from_fqn, src, offset, true);
    let ghost all = occ_views(occs@);
    proof {
        if let Some(t) = resolve_src(*ws, from_fqn@, src.spec_bytes(), offset as int) {
            assert(occs_over(*ws, modules@, t.1, t.2, true, 0) =~= seq![]);
            lemma_occs_in_module(
                *ws,
                from_fqn@,
                src.spec_bytes(),
                t.1,
                t.2,
                true,
                lex_tokens(src.spec_bytes()).len() as int,
            );
            assert(occs_over(*ws, modules@, t.1, t.2, true, 1) =~= occs_in(
                *ws,
                from_fqn@,
                src.spec_bytes(),
                t.1,
                t.2,
                true,
                lex_tokens(src.spec_bytes()).len() as int,
            ));
        }
    }
    let mut spans: Vec<Span> = Vec::new();
    let mut i: usize = 0;
    while i < occs.len()
        invariant
            i <= occs@.len(),
            all == occ_views(occs@),
            forall|j: int| 0 <= j < all.len() ==> (#[trigger] all[j]).0 == from_fqn@,
            spans@ == all.take(i as int).map_values(|o: OccView| o.1),
        decreases occs@.len() - i,
    {
        assert(all[i as int] == (occs@[i as int].fqn@, occs@[i as int].span));
        // Every occurrence lies in this file; keep those that say so.
        if str_eq(occs[i].fqn.as_str(), from_fqn) {
            spans.push(occs[i].span);
        }
        assert(all.take(i + 1).map_values(|o: OccView| o.1) =~= all.take(i as int).map_values(|o: OccView| o.1).push(
            occs@[i as int].span,
        ));
        i = i + 1;
    }
    assert(all.take(occs@.len() as int) =~= all);
    spans
}

} // verus!
