//! Cross-module visibility resolution.
//!
//! The single-module checks cannot see other files. This pass walks each
//! module's qualified references (`for` parents, feature targets, call
//! targets and their first member, value-position variant paths, and type
//! annotations) and judges them against the workspace index: a reference
//! into another module resolves only to a `public` symbol; a dangling or
//! structurally drilled path is reported.

use crate::ast::{
    Block, BodyMember, Callable, DataBody, Decl, DeclKind, Expr, ExprKind, Field, FromSource, Item, Node,
    Param, Path, PostfixSeg, Ref, Stmt, StmtKind, Type, Variant,
};
use crate::diagnostic::{Diagnostic, Severity};
use crate::model::arch::{diag_view, diag_views, DiagView};
use crate::model::graph::{path_str, path_text};
use crate::model::symbols::{
    fieldless_of, first_entry, last_sym, latest, member_views, members_of, members_views, qualified, qualify,
    sym_view, sym_views, symbol_module, symbol_module_of, union_views, MemberView, Model, ModuleEntry,
    Resolution, SymView, SymbolKind, Workspace,
};
use crate::span::Span;
use vstd::prelude::*;
use vstd::string::{StrSliceExecFns, StringExecFns};

verus! {

// ----- strings --------------------------------------------------------------

/// The end of the last `::` of `s` (the index just past it), or -1.
pub open spec fn last_sep(s: Seq<char>) -> int
    decreases s.len(),
{
    if s.len() < 2 {
        -1
    } else if s[s.len() - 2] == ':' && s[s.len() - 1] == ':' {
        s.len() as int
    } else {
        last_sep(s.drop_last())
    }
}

proof fn lemma_last_sep(s: Seq<char>)
    ensures
        last_sep(s) == -1 || (2 <= last_sep(s) <= s.len() && s[last_sep(s) - 2] == ':' && s[last_sep(s) - 1]
            == ':'),
    decreases s.len(),
{
    if s.len() >= 2 && !(s[s.len() - 2] == ':' && s[s.len() - 1] == ':') {
        lemma_last_sep(s.drop_last());
    }
}

/// `s` split at its last `::`: what precedes it and what follows it.
pub open spec fn split_last_of(s: Seq<char>) -> Option<(Seq<char>, Seq<char>)> {
    let k = last_sep(s);
    if k >= 2 {
        Some((s.take(k - 2), s.skip(k)))
    } else {
        None
    }
}

/// The last `::`-delimited segment of `s` (all of `s` when it has none).
pub open spec fn leaf_of(s: Seq<char>) -> Seq<char> {
    match split_last_of(s) {
        Some(p) => p.1,
        None => s,
    }
}

/// The characters `cs[a..b]` as a string.
pub(crate) fn sub_string(cs: &Vec<char>, a: usize, b: usize) -> (s: String)
    requires
        a <= b <= cs@.len(),
    ensures
        s@ == cs@.subrange(a as int, b as int),
{
    let mut out: Vec<char> = Vec::new();
    let mut i: usize = a;
    while i < b
        invariant
            a <= i <= b,
            b <= cs@.len(),
            out@ == cs@.subrange(a as int, i as int),
        decreases b - i,
    {
        out.push(cs[i]);
        i = i + 1;
        assert(out@ =~= cs@.subrange(a as int, i as int));
    }
    crate::strs::string_of(&out)
}

/// Splits `s` at its last `::` (see [`split_last_of`]).
pub(crate) fn split_last(s: &str) -> (r: Option<(String, String)>)
    ensures
        match r {
            Some(p) => split_last_of(s@) == Some((p.0@, p.1@)),
            None => split_last_of(s@) is None,
        },
{
    let cs = crate::strs::chars_of(s);
    proof {
        lemma_last_sep(s@);
    }
    let mut k: usize = cs.len();
    assert(cs@.take(k as int) =~= cs@);
    while k >= 2 && !(cs[k - 2] == ':' && cs[k - 1] == ':')
        invariant
            k <= cs@.len(),
            cs@ == s@,
            last_sep(s@) == last_sep(cs@.take(k as int)),
        decreases k,
    {
        assert(cs@.take(k as int).drop_last() =~= cs@.take(k - 1));
        k = k - 1;
    }
    if k < 2 {
        return None;
    }
    let before = sub_string(&cs, 0, k - 2);
    let after = sub_string(&cs, k, cs.len());
    assert(cs@.subrange(0, k - 2) =~= s@.take(k - 2));
    assert(cs@.subrange(k as int, cs@.len() as int) =~= s@.skip(k as int));
    Some((before, after))
}

/// The last `::`-delimited segment of `s`.
pub(crate) fn leaf(s: &str) -> (r: String)
    ensures
        r@ == leaf_of(s@),
{
    match split_last(s) {
        Some(p) => p.1,
        None => String::from_str(s),
    }
}

/// Whether `m` names a local or a dependency module of `ws`.
pub open spec fn known_module(ws: Workspace, m: Seq<char>) -> bool {
    first_entry(ws.entry_seq(), m) >= 0 || ws.external_seq().contains(m)
}

/// The longest prefix of `s` that ends at one of its `::` boundaries (taken
/// left to right from `pos`, not overlapping) and names a known module;
/// `found` is the best one before `pos`.
pub open spec fn prefix_scan(ws: Workspace, s: Seq<char>, pos: int, found: Option<Seq<char>>) -> Option<Seq<char>>
    decreases s.len() - pos,
{
    if pos < 0 || pos + 1 >= s.len() {
        found
    } else if s[pos] == ':' && s[pos + 1] == ':' {
        prefix_scan(ws, s, pos + 2, if known_module(ws, s.take(pos)) { Some(s.take(pos)) } else { found })
    } else {
        prefix_scan(ws, s, pos + 1, found)
    }
}

/// Whether the reference `fqn` points into a known module other than
/// `from`.
pub open spec fn references_other(ws: Workspace, fqn: Seq<char>, from: Seq<char>) -> bool {
    match prefix_scan(ws, fqn, 0, None) {
        Some(m) => m != from,
        None => false,
    }
}

/// The longest `::`-delimited prefix of `fqn` that names a known module.
fn known_module_prefix(ws: &Workspace, fqn: &str) -> (r: Option<String>)
    ensures
        match r {
            Some(m) => prefix_scan(*ws, fqn@, 0, None) == Some(m@),
            None => prefix_scan(*ws, fqn@, 0, None) is None,
        },
{
    let cs = crate::strs::chars_of(fqn);
    let mut found: Option<String> = None;
    let mut pos: usize = 0;
    while pos < cs.len() && pos + 1 < cs.len()
        invariant
            cs@ == fqn@,
            pos <= cs@.len(),
            prefix_scan(*ws, fqn@, 0, None) == prefix_scan(
                *ws,
                fqn@,
                pos as int,
                match found {
                    Some(m) => Some(m@),
                    None => None,
                },
            ),
        decreases cs@.len() - pos,
    {
        if cs[pos] == ':' && cs[pos + 1] == ':' {
            let pre = sub_string(&cs, 0, pos);
            assert(pre@ =~= fqn@.take(pos as int));
            if ws.is_known_module(pre.as_str()) {
                found = Some(pre);
            }
            pos = pos + 2;
        } else {
            pos = pos + 1;
        }
    }
    found
}

/// Whether `fqn`'s module portion names a known module other than `from`.
fn references_other_module(fqn: &str, from_module: &str, ws: &Workspace) -> (b: bool)
    ensures
        b == references_other(*ws, fqn@, from_module@),
{
    match known_module_prefix(ws, fqn) {
        Some(m) => !crate::strs::str_eq(m.as_str(), from_module),
        None => false,
    }
}

/// The module portion of an FQN (`a::b::C` gives `a::b`); empty for a bare
/// name.
pub fn module_portion(fqn: &str) -> (r: String)
    ensures
        r@ == symbol_module_of(fqn@),
{
    symbol_module(fqn)
}

// ----- diagnostics ----------------------------------------------------------

/// An error with no code, as plain values.
pub open spec fn err(span: Span, message: Seq<char>) -> DiagView {
    (Severity::Error, span, None, None, message)
}

/// `` `text` `` quoted in backticks.
pub open spec fn ticked(text: Seq<char>) -> Seq<char> {
    "`"@ + text + "`"@
}

proof fn lemma_diags_push(ds: Seq<Diagnostic>, d: Diagnostic)
    ensures
        diag_views(ds.push(d)) == diag_views(ds).push(diag_view(d)),
{
    assert(diag_views(ds.push(d)) =~= diag_views(ds).push(diag_view(d)));
}

/// Appends an error with `message` at `span`.
pub(crate) fn push_error(out: &mut Vec<Diagnostic>, span: Span, message: String)
    ensures
        diag_views(final(out)@) == diag_views(old(out)@).push(err(span, message@)),
{
    let d = Diagnostic::error(span, message.as_str());
    proof {
        lemma_diags_push(out@, d);
    }
    out.push(d);
}

/// `a + b + c` as one string.
pub(crate) fn cat3(a: &str, b: &str, c: &str) -> (s: String)
    ensures
        s@ == a@ + b@ + c@,
{
    let mut s = String::from_str(a);
    s.append(b);
    s.append(c);
    s
}

/// `` `text` ``.
pub(crate) fn tick(text: &str) -> (s: String)
    ensures
        s@ == ticked(text@),
{
    cat3("`", text, "`")
}

// ----- judging one reference ------------------------------------------------

/// The symbol index of `ws`.
pub open spec fn index_of(ws: Workspace) -> Seq<SymView> {
    sym_views(ws.index_seq())
}

/// Whether `fqn` names an indexed symbol that a reference from `from` may
/// address: one of `from` itself, or a `public` one.
pub open spec fn addressable(ws: Workspace, from: Seq<char>, fqn: Seq<char>) -> bool {
    let k = last_sym(index_of(ws), fqn, true);
    k >= 0 && (symbol_module_of(fqn) == from || index_of(ws)[k].3)
}

/// The `public` symbols of `ss` named `leaf` outside the dependency
/// modules `ext`, in order.
pub open spec fn leaf_matches(ss: Seq<SymView>, leaf: Seq<char>, ext: Seq<Seq<char>>) -> Seq<SymView>
    decreases ss.len(),
{
    if ss.len() == 0 {
        seq![]
    } else {
        leaf_matches(ss.drop_last(), leaf, ext) + if ss.last().0 == leaf && !ext.contains(
            symbol_module_of(ss.last().1),
        ) && ss.last().3 {
            seq![ss.last()]
        } else {
            seq![]
        }
    }
}

/// The flat FQN a structural drill `fqn` means: its leaf in `from` when
/// that is a symbol, else the one `public` local symbol bearing the leaf.
pub open spec fn flat_suggestion(ws: Workspace, from: Seq<char>, fqn: Seq<char>) -> Option<Seq<char>> {
    let local = qualified(from, leaf_of(fqn));
    if last_sym(index_of(ws), local, true) >= 0 {
        Some(local)
    } else {
        let c = leaf_matches(latest(index_of(ws), true), leaf_of(fqn), ws.external_seq());
        if c.len() == 1 {
            Some(c[0].1)
        } else {
            None
        }
    }
}

/// The error a node-naming reference `p` (a `what`) written in `from`
/// raises: none for a bare name or an addressable FQN; a private target; a
/// structural drill, with its flat FQN; a dangling reference into another
/// known module; or an FQN that resolves nowhere.
pub open spec fn ref_errs(ws: Workspace, from: Seq<char>, p: Path, what: Seq<char>) -> Seq<DiagView> {
    let fqn = path_text(p);
    if p.segments@.len() == 1 {
        seq![]
    } else if last_sym(index_of(ws), fqn, true) >= 0 {
        if addressable(ws, from, fqn) {
            seq![]
        } else {
            seq![err(p.span, what + " "@ + ticked(fqn) + " is private to its module"@)]
        }
    } else {
        match flat_suggestion(ws, from, fqn) {
            Some(flat) => seq![
                err(p.span, what + " "@ + ticked(fqn) + " is not a fully-qualified name; use "@ + ticked(flat)),
            ],
            None => if references_other(ws, fqn, from) {
                seq![err(p.span, "dangling cross-module reference "@ + ticked(fqn) + ": target does not resolve"@)]
            } else {
                seq![err(p.span, what + " "@ + ticked(fqn) + " does not resolve"@)]
            },
        }
    }
}

/// Whether the union `u` (an FQN) declares the fieldless variant `v`.
pub open spec fn fieldless_known(ws: Workspace, u: Seq<char>, v: Seq<char>) -> bool {
    match split_last_of(u) {
        Some(q) => match ws.any_entry(q.0) {
            Some(e) => fieldless_of(union_views(e.model.union_lists@), q.1).contains(v),
            None => false,
        },
        None => false,
    }
}

/// The error a value-position path `p` written in `from` raises. A bare
/// name is a local. A path naming a symbol is no value (a `data` is
/// composed with `from`; a node never is one), or is private. Otherwise it
/// must name a fieldless variant through its union `module::Union`.
pub open spec fn value_errs(ws: Workspace, from: Seq<char>, p: Path) -> Seq<DiagView> {
    let fqn = path_text(p);
    let idx = index_of(ws);
    let k = last_sym(idx, fqn, true);
    if p.segments@.len() == 1 {
        seq![]
    } else if k >= 0 {
        if addressable(ws, from, fqn) {
            seq![
                err(
                    p.span,
                    if idx[k].2 == SymbolKind::Data {
                        ticked(idx[k].0) + " is not a value: compose it with `from`"@
                    } else {
                        ticked(idx[k].0) + " is a node, not a value"@
                    },
                ),
            ]
        } else {
            seq![err(p.span, "variant "@ + ticked(fqn) + " is private to its module"@)]
        }
    } else {
        match split_last_of(fqn) {
            None => seq![],
            Some(q) => if last_sym(idx, q.0, true) < 0 {
                seq![
                    err(p.span, "variant reference "@ + ticked(fqn) + " does not resolve: no union "@ + ticked(q.0)),
                ]
            } else if addressable(ws, from, q.0) {
                if fieldless_known(ws, q.0, q.1) {
                    seq![]
                } else {
                    seq![err(p.span, ticked(q.0) + " has no fieldless variant "@ + ticked(q.1))]
                }
            } else {
                seq![err(p.span, "variant union "@ + ticked(q.0) + " is private to its module"@)]
            },
        }
    }
}

/// The error the first segment of a chain on the node FQN `base` raises:
/// it must name a member of that node, unless the node discloses none.
pub open spec fn member_errs(ws: Workspace, from: Seq<char>, base: Path, segs: Seq<PostfixSeg>) -> Seq<DiagView> {
    let fqn = path_text(base);
    let idx = index_of(ws);
    if base.segments@.len() == 1 || !addressable(ws, from, fqn) || idx[last_sym(idx, fqn, true)].2
        == SymbolKind::Data || segs.len() == 0 {
        seq![]
    } else {
        match split_last_of(fqn) {
            None => seq![],
            Some(q) => match ws.any_entry(q.0) {
                None => seq![],
                Some(e) => {
                    let ms = members_of(members_views(e.model.member_lists@), q.1);
                    if ms.len() == 0 || exists|i: int| 0 <= i < ms.len() && (#[trigger] ms[i]).0 == segs[0].name.name@ {
                        seq![]
                    } else {
                        seq![
                            err(
                                segs[0].span,
                                "no "@ + (if segs[0].call_args is Some {
                                    "method"@
                                } else {
                                    "field"@
                                }) + " "@ + ticked(segs[0].name.name@) + " on "@ + ticked(fqn),
                            ),
                        ]
                    }
                },
            },
        }
    }
}

/// The checking context: the workspace and the module whose references are
/// judged.
pub struct Ctx<'a> {
    /// The resolved workspace.
    pub workspace: &'a Workspace,
    /// The FQN of the module the references are written in.
    pub from_module: &'a str,
}

impl<'a> Ctx<'a> {
    /// Judges a value-position path (see [`value_errs`]).
    fn check_value_ref(&self, path: &Path, out: &mut Vec<Diagnostic>)
        ensures
            diag_views(final(out)@) == diag_views(old(out)@) + value_errs(*self.workspace, self.from_module@, *path),
    {
        let ghost d0 = diag_views(out@);
        if path.is_simple() {
            assert(d0 + seq![] =~= d0);
            return;
        }
        let fqn = path_str(path);
        match self.workspace.resolve_qualified(self.from_module, fqn.as_str()) {
            Resolution::Public(symbol) => {
                let mut message = tick(symbol.name.as_str());
                match symbol.kind {
                    SymbolKind::Data => message.append(" is not a value: compose it with `from`"),
                    _ => message.append(" is a node, not a value"),
                }
                push_error(out, path.span, message);
                assert(diag_views(out@) =~= d0 + value_errs(*self.workspace, self.from_module@, *path));
                return;
            },
            Resolution::Private(_) => {
                let mut message = String::from_str("variant ");
                message.append(tick(fqn.as_str()).as_str());
                message.append(" is private to its module");
                push_error(out, path.span, message);
                assert(diag_views(out@) =~= d0 + value_errs(*self.workspace, self.from_module@, *path));
                return;
            },
            Resolution::Missing => {},
        }
        let (union_fqn, variant) = match split_last(fqn.as_str()) {
            Some(p) => p,
            None => {
                assert(d0 + seq![] =~= d0);
                return;
            },
        };
        match self.workspace.resolve_qualified(self.from_module, union_fqn.as_str()) {
            Resolution::Public(_) => {
                let known = match split_last(union_fqn.as_str()) {
                    Some((module, union)) => match self.workspace.module_model(module.as_str()) {
                        Some(m) => m.has_fieldless_variant(union.as_str(), variant.as_str()),
                        None => false,
                    },
                    None => false,
                };
                if !known {
                    let mut message = tick(union_fqn.as_str());
                    message.append(" has no fieldless variant ");
                    message.append(tick(variant.as_str()).as_str());
                    push_error(out, path.span, message);
                } else {
                    assert(d0 + seq![] =~= d0);
                }
            },
            Resolution::Private(_) => {
                let mut message = String::from_str("variant union ");
                message.append(tick(union_fqn.as_str()).as_str());
                message.append(" is private to its module");
                push_error(out, path.span, message);
            },
            Resolution::Missing => {
                let mut message = String::from_str("variant reference ");
                message.append(tick(fqn.as_str()).as_str());
                message.append(" does not resolve: no union ");
                message.append(tick(union_fqn.as_str()).as_str());
                push_error(out, path.span, message);
            },
        }
        assert(diag_views(out@) =~= d0 + value_errs(*self.workspace, self.from_module@, *path));
    }

    /// Judges the first segment of a chain on a node FQN (see
    /// [`member_errs`]).
    fn check_fqn_member(&self, base: &Path, segments: &Vec<PostfixSeg>, out: &mut Vec<Diagnostic>)
        ensures
            diag_views(final(out)@) == diag_views(old(out)@) + member_errs(
                *self.workspace,
                self.from_module@,
                *base,
                segments@,
            ),
    {
        let ghost d0 = diag_views(out@);
        assert(d0 + seq![] =~= d0);
        if base.is_simple() {
            return;
        }
        let fqn = path_str(base);
        let symbol = match self.workspace.resolve_qualified(self.from_module, fqn.as_str()) {
            Resolution::Public(s) => s,
            _ => return,
        };
        if symbol.kind == SymbolKind::Data || segments.len() == 0 {
            return;
        }
        let seg = &segments[0];
        let (module, node) = match split_last(fqn.as_str()) {
            Some(p) => p,
            None => return,
        };
        let model = match self.workspace.module_model(module.as_str()) {
            Some(m) => m,
            None => return,
        };
        let members = model.members(node.as_str());
        let ghost ms = member_views(members@);
        if members.len() == 0 {
            return;
        }
        let mut found = false;
        let mut i: usize = 0;
        while i < members.len()
            invariant
                i <= members@.len(),
                ms == member_views(members@),
                found == exists|q: int| 0 <= q < i && (#[trigger] ms[q]).0 == seg.name.name@,
            decreases members@.len() - i,
        {
            if crate::strs::str_eq(members[i].name.as_str(), seg.name.name.as_str()) {
                assert(ms[i as int].0 == seg.name.name@);
                found = true;
            }
            i = i + 1;
        }
        if found {
            return;
        }
        let mut message = String::from_str("no ");
        if seg.call_args.is_some() {
            message.append("method");
        } else {
            message.append("field");
        }
        message.append(" ");
        message.append(tick(seg.name.name.as_str()).as_str());
        message.append(" on ");
        message.append(tick(fqn.as_str()).as_str());
        push_error(out, seg.span, message);
        assert(diag_views(out@) =~= d0 + member_errs(*self.workspace, self.from_module@, *base, segments@));
    }

    /// Judges a node-naming reference (see [`ref_errs`]).
    fn check_ref(&self, path: &Path, what: &str, out: &mut Vec<Diagnostic>)
        ensures
            diag_views(final(out)@) == diag_views(old(out)@) + ref_errs(*self.workspace, self.from_module@, *path, what@),
    {
        let ghost d0 = diag_views(out@);
        let fqn = path_str(path);
        if path.is_simple() {
            assert(d0 + seq![] =~= d0);
            return;
        }
        match self.workspace.resolve_qualified(self.from_module, fqn.as_str()) {
            Resolution::Public(_) => {
                assert(d0 + seq![] =~= d0);
            },
            Resolution::Private(_) => {
                let mut message = String::from_str(what);
                message.append(" ");
                message.append(tick(fqn.as_str()).as_str());
                message.append(" is private to its module");
                push_error(out, path.span, message);
            },
            Resolution::Missing => {
                match self.flat_fqn_suggestion(fqn.as_str()) {
                    Some(flat) => {
                        let mut message = String::from_str(what);
                        message.append(" ");
                        message.append(tick(fqn.as_str()).as_str());
                        message.append(" is not a fully-qualified name; use ");
                        message.append(tick(flat.as_str()).as_str());
                        push_error(out, path.span, message);
                    },
                    None => {
                        if references_other_module(fqn.as_str(), self.from_module, self.workspace) {
                            let mut message = String::from_str("dangling cross-module reference ");
                            message.append(tick(fqn.as_str()).as_str());
                            message.append(": target does not resolve");
                            push_error(out, path.span, message);
                        } else {
                            let mut message = String::from_str(what);
                            message.append(" ");
                            message.append(tick(fqn.as_str()).as_str());
                            message.append(" does not resolve");
                            push_error(out, path.span, message);
                        }
                    },
                }
            },
        }
        assert(diag_views(out@) =~= d0 + ref_errs(*self.workspace, self.from_module@, *path, what@));
    }

    /// The flat FQN a structural drill means (see [`flat_suggestion`]).
    fn flat_fqn_suggestion(&self, fqn: &str) -> (r: Option<String>)
        ensures
            match r {
                Some(f) => flat_suggestion(*self.workspace, self.from_module@, fqn@) == Some(f@),
                None => flat_suggestion(*self.workspace, self.from_module@, fqn@) is None,
            },
    {
        let lf = leaf(fqn);
        let local = qualify(self.from_module, lf.as_str());
        if self.workspace.symbol(local.as_str()).is_some() {
            return Some(local);
        }
        let all = self.workspace.symbols();
        let ghost sv = sym_views(all@);
        let ghost ext = self.workspace.external_seq();
        let mut count: usize = 0;
        let mut first: Option<String> = None;
        let mut i: usize = 0;
        assert(sv.take(0) =~= seq![]);
        while i < all.len()
            invariant
                i <= all@.len(),
                sv == sym_views(all@),
                ext == self.workspace.external_seq(),
                count == leaf_matches(sv.take(i as int), lf@, ext).len(),
                count <= i,
                count > 0 ==> (first matches Some(f) && f@ == leaf_matches(sv.take(i as int), lf@, ext)[0].1),
            decreases all@.len() - i,
        {
            let s = &all[i];
            let ghost before = leaf_matches(sv.take(i as int), lf@, ext);
            assert(sv.take(i + 1).drop_last() =~= sv.take(i as int));
            assert(sv.take(i + 1).last() == sym_view(*s));
            let m = module_portion(s.fqn.as_str());
            if crate::strs::str_eq(s.name.as_str(), lf.as_str()) && s.is_public
                && !self.workspace.is_external_module(m.as_str()) {
                if count == 0 {
                    first = Some(s.fqn.clone());
                }
                count = count + 1;
                assert(leaf_matches(sv.take(i + 1), lf@, ext) =~= before.push(sym_view(*s)));
            } else {
                assert(leaf_matches(sv.take(i + 1), lf@, ext) =~= before);
            }
            i = i + 1;
        }
        assert(sv.take(all@.len() as int) =~= sv);
        if count == 1 {
            first
        } else {
            None
        }
    }
}

// ----- walking a module -----------------------------------------------------

/// The errors of a type annotation and of each of its generic arguments.
pub open spec fn type_errs(ws: Workspace, from: Seq<char>, t: Type) -> Seq<DiagView>
    decreases t,
{
    ref_errs(ws, from, t.name, "type"@) + types_errs(ws, from, t.generics@)
}

/// The errors of types, in order.
pub open spec fn types_errs(ws: Workspace, from: Seq<char>, ts: Seq<Type>) -> Seq<DiagView>
    decreases ts,
{
    if ts.len() == 0 {
        seq![]
    } else {
        types_errs(ws, from, ts.subrange(0, ts.len() - 1)) + type_errs(ws, from, ts[ts.len() - 1])
    }
}

/// The errors of an expression: a call chain's target and first member, a
/// value-position path, and everything nested, left to right.
pub open spec fn expr_errs(ws: Workspace, from: Seq<char>, e: Expr) -> Seq<DiagView>
    decreases e,
{
    match e.kind {
        ExprKind::Postfix { base, segments } => (match base.kind {
            ExprKind::Ref(Ref::Path(p)) => ref_errs(ws, from, p, "call target"@) + member_errs(
                ws,
                from,
                p,
                segments@,
            ),
            _ => expr_errs(ws, from, *base),
        }) + segs_errs(ws, from, segments@),
        ExprKind::From { source, .. } => match source {
            FromSource::Compose(v) => exprs_errs(ws, from, v@),
            FromSource::Convert(b) => expr_errs(ws, from, *b),
        },
        ExprKind::Marker { payload, .. } => match payload {
            Some(p) => expr_errs(ws, from, *p),
            None => seq![],
        },
        ExprKind::OwnCall { args, .. } => exprs_errs(ws, from, args@),
        ExprKind::Unary { expr, .. } => expr_errs(ws, from, *expr),
        ExprKind::Paren(inner) => expr_errs(ws, from, *inner),
        ExprKind::Binary { left, right, .. } => expr_errs(ws, from, *left) + expr_errs(ws, from, *right),
        ExprKind::Ref(r) => match r {
            Ref::Path(p) => value_errs(ws, from, p),
            Ref::SelfNode(_) => seq![],
        },
        ExprKind::Literal(_) => seq![],
    }
}

/// The errors of expressions, in order.
pub open spec fn exprs_errs(ws: Workspace, from: Seq<char>, es: Seq<Expr>) -> Seq<DiagView>
    decreases es,
{
    if es.len() == 0 {
        seq![]
    } else {
        exprs_errs(ws, from, es.subrange(0, es.len() - 1)) + expr_errs(ws, from, es[es.len() - 1])
    }
}

/// The errors of the call arguments of postfix segments, in order.
pub open spec fn segs_errs(ws: Workspace, from: Seq<char>, segs: Seq<PostfixSeg>) -> Seq<DiagView>
    decreases segs,
{
    if segs.len() == 0 {
        seq![]
    } else {
        segs_errs(ws, from, segs.subrange(0, segs.len() - 1)) + match segs[segs.len() - 1].call_args {
            Some(args) => exprs_errs(ws, from, args@),
            None => seq![],
        }
    }
}

/// The errors of a statement.
pub open spec fn stmt_errs(ws: Workspace, from: Seq<char>, s: Stmt) -> Seq<DiagView>
    decreases s,
{
    match s.kind {
        StmtKind::Assign { value, .. } => expr_errs(ws, from, value),
        StmtKind::Expr(value) => expr_errs(ws, from, value),
        StmtKind::Return(value) => match value {
            Some(v) => expr_errs(ws, from, v),
            None => seq![],
        },
        StmtKind::If { cond, then_block, else_block } => expr_errs(ws, from, cond) + stmts_errs(
            ws,
            from,
            then_block.stmts@,
        ) + match else_block {
            Some(b) => stmts_errs(ws, from, b.stmts@),
            None => seq![],
        },
        StmtKind::For { iter, body, .. } => expr_errs(ws, from, iter) + stmts_errs(ws, from, body.stmts@),
        StmtKind::While { cond, body } => expr_errs(ws, from, cond) + stmts_errs(ws, from, body.stmts@),
    }
}

/// The errors of statements, in order.
pub open spec fn stmts_errs(ws: Workspace, from: Seq<char>, ss: Seq<Stmt>) -> Seq<DiagView>
    decreases ss,
{
    if ss.len() == 0 {
        seq![]
    } else {
        stmts_errs(ws, from, ss.subrange(0, ss.len() - 1)) + stmt_errs(ws, from, ss[ss.len() - 1])
    }
}

/// The errors of fields' types, in order.
pub open spec fn fields_errs(ws: Workspace, from: Seq<char>, fs: Seq<Field>) -> Seq<DiagView>
    decreases fs.len(),
{
    if fs.len() == 0 {
        seq![]
    } else {
        fields_errs(ws, from, fs.drop_last()) + type_errs(ws, from, fs.last().ty)
    }
}

/// The errors of union variants' inline record fields, in order.
pub open spec fn variants_errs(ws: Workspace, from: Seq<char>, vs: Seq<Variant>) -> Seq<DiagView>
    decreases vs.len(),
{
    if vs.len() == 0 {
        seq![]
    } else {
        variants_errs(ws, from, vs.drop_last()) + match vs.last().record {
            Some(fs) => fields_errs(ws, from, fs@),
            None => seq![],
        }
    }
}

/// The errors of a `data` body's field types.
pub open spec fn data_errs(ws: Workspace, from: Seq<char>, body: DataBody) -> Seq<DiagView> {
    match body {
        DataBody::Record(fs) => fields_errs(ws, from, fs@),
        DataBody::Union(vs) => variants_errs(ws, from, vs@),
        DataBody::BlackBox => seq![],
    }
}

/// The errors of parameters' types, in order.
pub open spec fn params_errs(ws: Workspace, from: Seq<char>, ps: Seq<Param>) -> Seq<DiagView>
    decreases ps.len(),
{
    if ps.len() == 0 {
        seq![]
    } else {
        params_errs(ws, from, ps.drop_last()) + type_errs(ws, from, ps.last().ty)
    }
}

/// The errors of a callable: its parameter and return types, then its body.
pub open spec fn callable_errs(ws: Workspace, from: Seq<char>, c: Callable) -> Seq<DiagView> {
    params_errs(ws, from, c.params@) + (match c.return_ty {
        Some(t) => type_errs(ws, from, t),
        None => seq![],
    }) + match c.body {
        Some(b) => stmts_errs(ws, from, b.stmts@),
        None => seq![],
    }
}

/// The errors of a declaration: a container's or component's `for` parent,
/// then a node's body; a `data` body's types.
pub open spec fn decl_kind_errs(ws: Workspace, from: Seq<char>, k: DeclKind) -> Seq<DiagView>
    decreases k,
{
    match k {
        DeclKind::Person(n) => node_errs(ws, from, n),
        DeclKind::System(n) => node_errs(ws, from, n),
        DeclKind::Container(n) => parent_errs(ws, from, n) + node_errs(ws, from, n),
        DeclKind::Component(n) => parent_errs(ws, from, n) + node_errs(ws, from, n),
        DeclKind::Data(d) => data_errs(ws, from, d.body),
        DeclKind::Constant(_) => seq![],
    }
}

/// The error of a node's `for` parent, if any.
pub open spec fn parent_errs(ws: Workspace, from: Seq<char>, n: Node) -> Seq<DiagView> {
    match n.parent {
        Some(p) => ref_errs(ws, from, p, "parent"@),
        None => seq![],
    }
}

/// The errors of a node's body members.
pub open spec fn node_errs(ws: Workspace, from: Seq<char>, n: Node) -> Seq<DiagView>
    decreases n,
{
    match n.body {
        Some(ms) => members_errs(ws, from, ms@),
        None => seq![],
    }
}

/// The errors of body members, in order.
pub open spec fn members_errs(ws: Workspace, from: Seq<char>, ms: Seq<BodyMember>) -> Seq<DiagView>
    decreases ms,
{
    if ms.len() == 0 {
        seq![]
    } else {
        members_errs(ws, from, ms.subrange(0, ms.len() - 1)) + match ms[ms.len() - 1] {
            BodyMember::Callable(c) => callable_errs(ws, from, c),
            BodyMember::Decl(d) => decl_kind_errs(ws, from, d.kind),
        }
    }
}

/// The errors of a module's items, in order: each declaration's, and each
/// feature's target.
pub open spec fn items_errs(ws: Workspace, from: Seq<char>, items: Seq<Item>) -> Seq<DiagView>
    decreases items.len(),
{
    if items.len() == 0 {
        seq![]
    } else {
        items_errs(ws, from, items.drop_last()) + match items.last() {
            Item::Decl(d) => decl_kind_errs(ws, from, d.kind),
            Item::Feature(f) => ref_errs(ws, from, f.target, "feature target"@),
        }
    }
}

/// The cross-module errors originating in one module.
pub open spec fn module_errs(ws: Workspace, e: ModuleEntry) -> Seq<DiagView> {
    items_errs(ws, e.fqn@, e.ast.items@)
}

/// The cross-module errors of modules, module after module.
pub open spec fn entries_errs(ws: Workspace, es: Seq<ModuleEntry>) -> Seq<DiagView>
    decreases es.len(),
{
    if es.len() == 0 {
        seq![]
    } else {
        entries_errs(ws, es.drop_last()) + module_errs(ws, es.last())
    }
}

/// Every cross-module reference of every local module that resolves to a
/// private symbol or to nothing, module after module.
pub fn check(workspace: &Workspace) -> (r: Vec<Diagnostic>)
    ensures
        diag_views(r@) == entries_errs(*workspace, workspace.entry_seq()),
{
    let mut out: Vec<Diagnostic> = Vec::new();
    let modules = workspace.modules();
    let mut i: usize = 0;
    assert(modules@.take(0) =~= seq![]);
    assert(diag_views(out@) =~= seq![]);
    while i < modules.len()
        invariant
            i <= modules@.len(),
            modules@ == workspace.entry_seq(),
            diag_views(out@) == entries_errs(*workspace, modules@.take(i as int)),
        decreases modules@.len() - i,
    {
        assert(modules@.take(i + 1).drop_last() =~= modules@.take(i as int));
        check_module(workspace, &modules[i], &mut out);
        i = i + 1;
    }
    assert(modules@.take(modules@.len() as int) =~= modules@);
    out
}

/// The cross-module errors originating in one module; every span lies in
/// that module's source.
pub fn check_one(workspace: &Workspace, entry: &ModuleEntry) -> (r: Vec<Diagnostic>)
    ensures
        diag_views(r@) == module_errs(*workspace, *entry),
{
    let mut out: Vec<Diagnostic> = Vec::new();
    check_module(workspace, entry, &mut out);
    assert(diag_views(out@) =~= module_errs(*workspace, *entry));
    out
}

/// Appends the cross-module errors originating in `entry`.
fn check_module(workspace: &Workspace, entry: &ModuleEntry, out: &mut Vec<Diagnostic>)
    ensures
        diag_views(final(out)@) == diag_views(old(out)@) + module_errs(*workspace, *entry),
{
    let ctx = Ctx { workspace, from_module: entry.fqn.as_str() };
    let ghost d0 = diag_views(out@);
    let items = &entry.ast.items;
    let mut i: usize = 0;
    assert(items@.take(0) =~= seq![]);
    assert(d0 + seq![] =~= d0);
    while i < items.len()
        invariant
            i <= items@.len(),
            ctx.workspace == workspace,
            ctx.from_module@ == entry.fqn@,
            items == &entry.ast.items,
            diag_views(out@) == d0 + items_errs(*workspace, entry.fqn@, items@.take(i as int)),
        decreases items@.len() - i,
    {
        assert(items@.take(i + 1).drop_last() =~= items@.take(i as int));
        match &items[i] {
            Item::Decl(decl) => ctx.check_decl_kind(&decl.kind, out),
            Item::Feature(feature) => ctx.check_ref(&feature.target, "feature target", out),
        }
        assert(diag_views(out@) =~= d0 + items_errs(*workspace, entry.fqn@, items@.take(i + 1)));
        i = i + 1;
    }
    assert(items@.take(items@.len() as int) =~= items@);
}

impl<'a> Ctx<'a> {
    /// Appends the errors of a declaration (see [`decl_kind_errs`]).
    fn check_decl_kind(&self, kind: &DeclKind, out: &mut Vec<Diagnostic>)
        ensures
            diag_views(final(out)@) == diag_views(old(out)@) + decl_kind_errs(*self.workspace, self.from_module@, *kind),
        decreases kind,
    {
        let ghost d0 = diag_views(out@);
        match kind {
            DeclKind::Container(node) | DeclKind::Component(node) => {
                proof {
                    if kind is Container {
                        assert(decreases_to!(*kind => kind->Container_0));
                    } else {
                        assert(decreases_to!(*kind => kind->Component_0));
                    }
                }
                match &node.parent {
                    Some(parent) => self.check_ref(parent, "parent", out),
                    None => {
                        assert(d0 + seq![] =~= d0);
                    },
                }
                self.check_node_body(node, out);
                assert(diag_views(out@) =~= d0 + decl_kind_errs(*self.workspace, self.from_module@, *kind));
            },
            DeclKind::Person(node) | DeclKind::System(node) => {
                proof {
                    if kind is Person {
                        assert(decreases_to!(*kind => kind->Person_0));
                    } else {
                        assert(decreases_to!(*kind => kind->System_0));
                    }
                }
                self.check_node_body(node, out);
            },
            DeclKind::Data(data) => self.check_data_types(&data.body, out),
            DeclKind::Constant(_) => {
                assert(d0 + seq![] =~= d0);
            },
        }
    }

    /// Appends the errors of a node's body members.
    fn check_node_body(&self, node: &Node, out: &mut Vec<Diagnostic>)
        ensures
            diag_views(final(out)@) == diag_views(old(out)@) + node_errs(*self.workspace, self.from_module@, *node),
        decreases node,
    {
        let ghost d0 = diag_views(out@);
        let members = match &node.body {
            Some(ms) => ms,
            None => {
                assert(d0 + seq![] =~= d0);
                return;
            },
        };
        proof {
            assert(decreases_to!(*node => node.body));
            assert(decreases_to!(node.body => node.body->0));
        }
        let ghost ms = members@;
        let mut i: usize = 0;
        assert(ms.subrange(0, 0) =~= seq![]);
        assert(d0 + members_errs(*self.workspace, self.from_module@, ms.subrange(0, 0)) =~= d0);
        while i < members.len()
            invariant
                i <= ms.len(),
                ms == members@,
                node.body == Some(*members),
                decreases_to!(*node => *members),
                diag_views(out@) == d0 + members_errs(*self.workspace, self.from_module@, ms.subrange(0, i as int)),
            decreases ms.len() - i,
        {
            let ghost t = ms.subrange(0, i + 1);
            assert(t.subrange(0, t.len() - 1) =~= ms.subrange(0, i as int));
            match &members[i] {
                BodyMember::Callable(callable) => self.check_callable(callable, out),
                BodyMember::Decl(decl) => {
                    proof {
                        assert(decreases_to!(*members => members@));
                        assert(decreases_to!(members@ => members@[i as int]));
                        assert(decreases_to!(members@[i as int] => *decl));
                        assert(decreases_to!(*decl => decl.kind));
                    }
                    self.check_decl_kind(&decl.kind, out);
                },
            }
            assert(diag_views(out@) =~= d0 + members_errs(*self.workspace, self.from_module@, ms.subrange(0, i + 1)));
            i = i + 1;
        }
        assert(ms.subrange(0, ms.len() as int) =~= ms);
    }

    /// Appends the errors of a callable's types and body.
    fn check_callable(&self, callable: &Callable, out: &mut Vec<Diagnostic>)
        ensures
            diag_views(final(out)@) == diag_views(old(out)@) + callable_errs(*self.workspace, self.from_module@, *callable),
    {
        let ghost d0 = diag_views(out@);
        let ps = &callable.params;
        let mut i: usize = 0;
        assert(ps@.take(0) =~= seq![]);
        assert(d0 + seq![] =~= d0);
        while i < ps.len()
            invariant
                i <= ps@.len(),
                ps == &callable.params,
                diag_views(out@) == d0 + params_errs(*self.workspace, self.from_module@, ps@.take(i as int)),
            decreases ps@.len() - i,
        {
            assert(ps@.take(i + 1).drop_last() =~= ps@.take(i as int));
            self.check_type(&ps[i].ty, out);
            assert(diag_views(out@) =~= d0 + params_errs(*self.workspace, self.from_module@, ps@.take(i + 1)));
            i = i + 1;
        }
        assert(ps@.take(ps@.len() as int) =~= ps@);
        let ghost d1 = diag_views(out@);
        match &callable.return_ty {
            Some(ret) => self.check_type(ret, out),
            None => {
                assert(d1 + seq![] =~= d1);
            },
        }
        let ghost d2 = diag_views(out@);
        match &callable.body {
            Some(body) => self.check_block(body, out),
            None => {
                assert(d2 + seq![] =~= d2);
            },
        }
        assert(diag_views(out@) =~= d0 + callable_errs(*self.workspace, self.from_module@, *callable));
    }

    /// Appends the errors of fields' types.
    fn check_fields(&self, fields: &Vec<Field>, out: &mut Vec<Diagnostic>)
        ensures
            diag_views(final(out)@) == diag_views(old(out)@) + fields_errs(*self.workspace, self.from_module@, fields@),
    {
        let ghost d0 = diag_views(out@);
        let mut i: usize = 0;
        assert(fields@.take(0) =~= seq![]);
        assert(d0 + seq![] =~= d0);
        while i < fields.len()
            invariant
                i <= fields@.len(),
                diag_views(out@) == d0 + fields_errs(*self.workspace, self.from_module@, fields@.take(i as int)),
            decreases fields@.len() - i,
        {
            assert(fields@.take(i + 1).drop_last() =~= fields@.take(i as int));
            self.check_type(&fields[i].ty, out);
            assert(diag_views(out@) =~= d0 + fields_errs(*self.workspace, self.from_module@, fields@.take(i + 1)));
            i = i + 1;
        }
        assert(fields@.take(fields@.len() as int) =~= fields@);
    }

    /// Appends the errors of a `data` body's field types: a record's fields,
    /// a union's inline variant records.
    fn check_data_types(&self, body: &DataBody, out: &mut Vec<Diagnostic>)
        ensures
            diag_views(final(out)@) == diag_views(old(out)@) + data_errs(*self.workspace, self.from_module@, *body),
    {
        let ghost d0 = diag_views(out@);
        match body {
            DataBody::Record(fields) => self.check_fields(fields, out),
            DataBody::Union(variants) => {
                let mut i: usize = 0;
                assert(variants@.take(0) =~= seq![]);
                assert(d0 + seq![] =~= d0);
                while i < variants.len()
                    invariant
                        i <= variants@.len(),
                        diag_views(out@) == d0 + variants_errs(*self.workspace, self.from_module@, variants@.take(i as int)),
                    decreases variants@.len() - i,
                {
                    assert(variants@.take(i + 1).drop_last() =~= variants@.take(i as int));
                    let ghost before = diag_views(out@);
                    match &variants[i].record {
                        Some(fields) => self.check_fields(fields, out),
                        None => {
                            assert(before + seq![] =~= before);
                        },
                    }
                    assert(diag_views(out@) =~= d0 + variants_errs(*self.workspace, self.from_module@, variants@.take(i + 1)));
                    i = i + 1;
                }
                assert(variants@.take(variants@.len() as int) =~= variants@);
            },
            DataBody::BlackBox => {
                assert(d0 + seq![] =~= d0);
            },
        }
    }

    /// Appends the errors of a type annotation and its generic arguments.
    fn check_type(&self, ty: &Type, out: &mut Vec<Diagnostic>)
        ensures
            diag_views(final(out)@) == diag_views(old(out)@) + type_errs(*self.workspace, self.from_module@, *ty),
        decreases ty,
    {
        let ghost d0 = diag_views(out@);
        self.check_ref(&ty.name, "type", out);
        let ghost d1 = diag_views(out@);
        let gs = &ty.generics;
        let mut i: usize = 0;
        assert(gs@.subrange(0, 0) =~= seq![]);
        assert(d1 + seq![] =~= d1);
        while i < gs.len()
            invariant
                i <= gs@.len(),
                gs == &ty.generics,
                diag_views(out@) == d1 + types_errs(*self.workspace, self.from_module@, gs@.subrange(0, i as int)),
            decreases gs@.len() - i,
        {
            proof {
                assert(decreases_to!(*ty => ty.generics));
                assert(decreases_to!(ty.generics => ty.generics@));
                assert(decreases_to!(ty.generics@ => ty.generics@[i as int]));
                let t = gs@.subrange(0, i + 1);
                assert(t.subrange(0, t.len() - 1) =~= gs@.subrange(0, i as int));
            }
            self.check_type(&gs[i], out);
            assert(diag_views(out@) =~= d1 + types_errs(*self.workspace, self.from_module@, gs@.subrange(0, i + 1)));
            i = i + 1;
        }
        assert(gs@.subrange(0, gs@.len() as int) =~= gs@);
        assert(diag_views(out@) =~= d0 + type_errs(*self.workspace, self.from_module@, *ty));
    }

    /// Appends the errors of a block's statements.
    fn check_block(&self, block: &Block, out: &mut Vec<Diagnostic>)
        ensures
            diag_views(final(out)@) == diag_views(old(out)@) + stmts_errs(*self.workspace, self.from_module@, block.stmts@),
        decreases block,
    {
        let ghost d0 = diag_views(out@);
        let ghost ss = block.stmts@;
        let mut i: usize = 0;
        assert(ss.subrange(0, 0) =~= seq![]);
        assert(d0 + seq![] =~= d0);
        while i < block.stmts.len()
            invariant
                i <= ss.len(),
                ss == block.stmts@,
                diag_views(out@) == d0 + stmts_errs(*self.workspace, self.from_module@, ss.subrange(0, i as int)),
            decreases ss.len() - i,
        {
            proof {
                assert(decreases_to!(*block => block.stmts));
                assert(decreases_to!(block.stmts => block.stmts@));
                assert(decreases_to!(block.stmts@ => block.stmts@[i as int]));
                let t = ss.subrange(0, i + 1);
                assert(t.subrange(0, t.len() - 1) =~= ss.subrange(0, i as int));
            }
            self.check_stmt(&block.stmts[i], out);
            assert(diag_views(out@) =~= d0 + stmts_errs(*self.workspace, self.from_module@, ss.subrange(0, i + 1)));
            i = i + 1;
        }
        assert(ss.subrange(0, ss.len() as int) =~= ss);
    }

    /// Appends the errors of a statement.
    fn check_stmt(&self, stmt: &Stmt, out: &mut Vec<Diagnostic>)
        ensures
            diag_views(final(out)@) == diag_views(old(out)@) + stmt_errs(*self.workspace, self.from_module@, *stmt),
        decreases stmt,
    {
        let ghost d0 = diag_views(out@);
        match &stmt.kind {
            StmtKind::Assign { value, .. } => self.check_expr(value, out),
            StmtKind::Expr(value) => self.check_expr(value, out),
            StmtKind::Return(expr) => match expr {
                Some(expr) => self.check_expr(expr, out),
                None => {
                    assert(d0 + seq![] =~= d0);
                },
            },
            StmtKind::If { cond, then_block, else_block } => {
                self.check_expr(cond, out);
                self.check_block(then_block, out);
                let ghost d2 = diag_views(out@);
                match else_block {
                    Some(b) => self.check_block(b, out),
                    None => {
                        assert(d2 + seq![] =~= d2);
                    },
                }
                assert(diag_views(out@) =~= d0 + stmt_errs(*self.workspace, self.from_module@, *stmt));
            },
            StmtKind::For { iter, body, .. } => {
                self.check_expr(iter, out);
                self.check_block(body, out);
                assert(diag_views(out@) =~= d0 + stmt_errs(*self.workspace, self.from_module@, *stmt));
            },
            StmtKind::While { cond, body } => {
                self.check_expr(cond, out);
                self.check_block(body, out);
                assert(diag_views(out@) =~= d0 + stmt_errs(*self.workspace, self.from_module@, *stmt));
            },
        }
    }

    /// Appends the errors of expressions.
    fn check_exprs(&self, es: &Vec<Expr>, out: &mut Vec<Diagnostic>)
        ensures
            diag_views(final(out)@) == diag_views(old(out)@) + exprs_errs(*self.workspace, self.from_module@, es@),
        decreases es,
    {
        let ghost d0 = diag_views(out@);
        let mut i: usize = 0;
        assert(es@.subrange(0, 0) =~= seq![]);
        assert(d0 + seq![] =~= d0);
        while i < es.len()
            invariant
                i <= es@.len(),
                diag_views(out@) == d0 + exprs_errs(*self.workspace, self.from_module@, es@.subrange(0, i as int)),
            decreases es@.len() - i,
        {
            proof {
                assert(decreases_to!(*es => es@));
                assert(decreases_to!(es@ => es@[i as int]));
                let t = es@.subrange(0, i + 1);
                assert(t.subrange(0, t.len() - 1) =~= es@.subrange(0, i as int));
            }
            self.check_expr(&es[i], out);
            assert(diag_views(out@) =~= d0 + exprs_errs(*self.workspace, self.from_module@, es@.subrange(0, i + 1)));
            i = i + 1;
        }
        assert(es@.subrange(0, es@.len() as int) =~= es@);
    }

    /// Appends the errors of postfix segments' call arguments.
    fn check_segs(&self, segments: &Vec<PostfixSeg>, out: &mut Vec<Diagnostic>)
        ensures
            diag_views(final(out)@) == diag_views(old(out)@) + segs_errs(*self.workspace, self.from_module@, segments@),
        decreases segments,
    {
        let ghost d0 = diag_views(out@);
        let mut i: usize = 0;
        assert(segments@.subrange(0, 0) =~= seq![]);
        assert(d0 + seq![] =~= d0);
        while i < segments.len()
            invariant
                i <= segments@.len(),
                diag_views(out@) == d0 + segs_errs(*self.workspace, self.from_module@, segments@.subrange(0, i as int)),
            decreases segments@.len() - i,
        {
            proof {
                let t = segments@.subrange(0, i + 1);
                assert(t.subrange(0, t.len() - 1) =~= segments@.subrange(0, i as int));
            }
            let ghost before = diag_views(out@);
            match &segments[i].call_args {
                Some(args) => {
                    proof {
                        assert(decreases_to!(*segments => segments@));
                        assert(decreases_to!(segments@ => segments@[i as int]));
                        assert(decreases_to!(segments@[i as int] => segments@[i as int].call_args));
                        assert(decreases_to!(segments@[i as int].call_args => segments@[i as int].call_args->0));
                    }
                    self.check_exprs(args, out);
                },
                None => {
                    assert(before + seq![] =~= before);
                },
            }
            assert(diag_views(out@) =~= d0 + segs_errs(*self.workspace, self.from_module@, segments@.subrange(0, i + 1)));
            i = i + 1;
        }
        assert(segments@.subrange(0, segments@.len() as int) =~= segments@);
    }

    /// Appends the errors of an expression (see [`expr_errs`]).
    fn check_expr(&self, expr: &Expr, out: &mut Vec<Diagnostic>)
        ensures
            diag_views(final(out)@) == diag_views(old(out)@) + expr_errs(*self.workspace, self.from_module@, *expr),
        decreases expr,
    {
        let ghost d0 = diag_views(out@);
        match &expr.kind {
            ExprKind::Postfix { base, segments } => {
                match &base.kind {
                    ExprKind::Ref(Ref::Path(path)) => {
                        self.check_ref(path, "call target", out);
                        self.check_fqn_member(path, segments, out);
                    },
                    _ => self.check_expr(base, out),
                }
                self.check_segs(segments, out);
                assert(diag_views(out@) =~= d0 + expr_errs(*self.workspace, self.from_module@, *expr));
            },
            ExprKind::From { source, .. } => match source {
                FromSource::Compose(v) => self.check_exprs(v, out),
                FromSource::Convert(b) => self.check_expr(b, out),
            },
            ExprKind::Marker { payload, .. } => match payload {
                Some(p) => self.check_expr(p, out),
                None => {
                    assert(d0 + seq![] =~= d0);
                },
            },
            ExprKind::OwnCall { args, .. } => self.check_exprs(args, out),
            ExprKind::Unary { expr: inner, .. } => self.check_expr(inner, out),
            ExprKind::Paren(inner) => self.check_expr(inner, out),
            ExprKind::Binary { left, right, .. } => {
                self.check_expr(left, out);
                self.check_expr(right, out);
                assert(diag_views(out@) =~= d0 + expr_errs(*self.workspace, self.from_module@, *expr));
            },
            ExprKind::Ref(Ref::Path(path)) => self.check_value_ref(path, out),
            ExprKind::Ref(Ref::SelfNode(_)) => {
                assert(d0 + seq![] =~= d0);
            },
            ExprKind::Literal(_) => {
                assert(d0 + seq![] =~= d0);
            },
        }
    }
}

} // verus!
