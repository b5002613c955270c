//! Static analysis over parsed modules: symbol tables and the workspace
//! index, the well-formedness checks, the relationship graph and its
//! architecture lints, and the editor services (foldable regions, semantic
//! tokens) and dependency resolution.

pub mod fold;
pub mod semantic;
pub mod lines;
pub mod deps;
pub mod symbols;
pub mod graph;
pub mod arch;
pub mod cross_module;
pub mod check;
pub mod result_flow;
pub mod typing;
pub mod body;
pub mod resolve;
pub mod infer;

use crate::ast::Module;
use crate::diagnostic::Diagnostic;
use crate::model::arch::{diag_views, DiagView};
use crate::model::check::{entries_static_errs, run, run_module, run_workspace, static_errs};
use crate::model::cross_module::{entries_errs, module_errs};
use crate::model::deps::WorkspaceModule;
use crate::model::symbols::{first_entry, items_syms, Model, ModuleEntry, Workspace};
use crate::parser::{diags_owed, parse, parsed_from};
use vstd::prelude::*;
use vstd::string::StringSliceAdditionalSpecFns;
use vstd::utf8::encode_utf8;

verus! {

/// Whether every module's source fits the `u32` spans of the syntax tree.
pub open spec fn sources_fit(ms: Seq<WorkspaceModule>) -> bool {
    forall|i: int| 0 <= i < ms.len() ==> encode_utf8((#[trigger] ms[i]).source@).len() < u32::MAX
}

/// Parse diagnostics of a source of `len` bytes: errors located inside it.
pub open spec fn parse_errs(pd: Seq<DiagView>, len: int) -> bool {
    forall|j: int|
        0 <= j < pd.len() ==> (#[trigger] pd[j]).0 == crate::diagnostic::Severity::Error && pd[j].1.start <= len
            && pd[j].1.end <= len
}

/// Each module's parse reports the diagnostics its source owes (see
/// [`diags_owed`]).
pub open spec fn owed_all(ms: Seq<WorkspaceModule>, es: Seq<ModuleEntry>, pds: Seq<Seq<DiagView>>) -> bool {
    forall|i: int| 0 <= i < ms.len() ==> diags_owed(encode_utf8(ms[i].source@), es[i].ast, (#[trigger] pds[i]).len() as int)
}

/// Each module's parse diagnostics are errors inside its source.
pub open spec fn errs_parsed(ms: Seq<WorkspaceModule>, pds: Seq<Seq<DiagView>>) -> bool {
    forall|i: int| 0 <= i < ms.len() ==> parse_errs(#[trigger] pds[i], encode_utf8(ms[i].source@).len() as int)
}

/// A clone of a diagnostic list has the same views.
proof fn lemma_cloned_diags(a: Vec<Diagnostic>, b: Vec<Diagnostic>)
    requires
        b@.len() == a@.len(),
        forall|i: int| 0 <= i < a@.len() ==> cloned::<Diagnostic>(a@[i], #[trigger] b@[i]),
    ensures
        diag_views(b@) == diag_views(a@),
{
    assert forall|i: int| 0 <= i < a@.len() implies #[trigger] b@[i] == a@[i] by {
        assert(cloned::<Diagnostic>(a@[i], b@[i]));
    }
    assert(diag_views(b@) =~= diag_views(a@));
}

/// Each entry holds the syntax tree parsed from its module's source.
pub open spec fn sources_parsed(ms: Seq<WorkspaceModule>, es: Seq<ModuleEntry>) -> bool {
    forall|i: int| 0 <= i < ms.len() ==> parsed_from(encode_utf8(ms[i].source@), (#[trigger] es[i]).ast)
}

/// The concatenation of diagnostic lists.
pub open spec fn flat(ds: Seq<Seq<DiagView>>) -> Seq<DiagView>
    decreases ds.len(),
{
    if ds.len() == 0 {
        seq![]
    } else {
        flat(ds.drop_last()) + ds.last()
    }
}

/// Parses each module, returning the `(fqn, syntax tree)` pairs and each
/// module's parse diagnostics.
fn parse_all(modules: &[WorkspaceModule]) -> (r: (Vec<(String, Module)>, Vec<Vec<Diagnostic>>))
    requires
        sources_fit(modules@),
    ensures
        r.0@.len() == modules@.len(),
        r.1@.len() == modules@.len(),
        forall|i: int| 0 <= i < modules@.len() ==> (#[trigger] r.0@[i]).0@ == modules@[i].fqn@,
        forall|i: int| 0 <= i < modules@.len() ==> parsed_from(encode_utf8(modules@[i].source@), (#[trigger] r.0@[i]).1),
        forall|i: int|
            0 <= i < modules@.len() ==> parse_errs(
                diag_views((#[trigger] r.1@[i])@),
                encode_utf8(modules@[i].source@).len() as int,
            ),
        forall|i: int|
            0 <= i < modules@.len() ==> diags_owed(
                encode_utf8(modules@[i].source@),
                (#[trigger] r.0@[i]).1,
                r.1@[i]@.len() as int,
            ),
{
    let mut parsed: Vec<(String, Module)> = Vec::new();
    let mut diags: Vec<Vec<Diagnostic>> = Vec::new();
    let mut i: usize = 0;
    while i < modules.len()
        invariant
            i <= modules@.len(),
            sources_fit(modules@),
            parsed@.len() == i,
            diags@.len() == i,
            forall|k: int| 0 <= k < i ==> (#[trigger] parsed@[k]).0@ == modules@[k].fqn@,
            forall|k: int| 0 <= k < i ==> parsed_from(encode_utf8(modules@[k].source@), (#[trigger] parsed@[k]).1),
            forall|k: int|
                0 <= k < i ==> parse_errs(
                    diag_views((#[trigger] diags@[k])@),
                    encode_utf8(modules@[k].source@).len() as int,
                ),
            forall|k: int|
                0 <= k < i ==> diags_owed(
                    encode_utf8(modules@[k].source@),
                    (#[trigger] parsed@[k]).1,
                    diags@[k]@.len() as int,
                ),
        decreases modules@.len() - i,
    {
        let m = &modules[i];
        assert(encode_utf8(modules@[i as int].source@).len() < u32::MAX);
        let result = parse(m.source.as_str());
        let ghost len = encode_utf8(modules@[i as int].source@).len() as int;
        assert(parse_errs(diag_views(result.diagnostics@), len)) by {
            assert forall|j: int| 0 <= j < result.diagnostics@.len() implies (#[trigger] diag_views(
                result.diagnostics@,
            )[j]).0 == crate::diagnostic::Severity::Error && diag_views(result.diagnostics@)[j].1.start <= len
                && diag_views(result.diagnostics@)[j].1.end <= len by {
                assert(crate::parser::parse_diag_ok(result.diagnostics@[j], len));
            }
        }
        parsed.push((m.fqn.clone(), result.ast));
        diags.push(result.diagnostics);
        i = i + 1;
    }
    (parsed, diags)
}

/// Parses and checks a whole workspace: every module's parse errors, then
/// every module's static errors, then the cross-module errors.
pub fn check_workspace(modules: &[WorkspaceModule]) -> (r: Vec<Diagnostic>)
    requires
        sources_fit(modules@),
    ensures
        exists|ws: Workspace, pds: Seq<Seq<DiagView>>|
            {
                &&& ws.entry_seq().len() == modules@.len()
                &&& pds.len() == modules@.len()
                &&& forall|i: int| 0 <= i < modules@.len() ==> (#[trigger] ws.entry_seq()[i]).fqn@ == modules@[i].fqn@
                &&& sources_parsed(modules@, ws.entry_seq())
                &&& errs_parsed(modules@, pds)
                &&& owed_all(modules@, ws.entry_seq(), pds)
                &&& diag_views(r@) == flat(pds) + entries_static_errs(ws.entry_seq()) + entries_errs(ws, ws.entry_seq())
            },
{
    let none: Vec<WorkspaceModule> = Vec::new();
    check_workspace_with_externals(modules, none.as_slice())
}

/// Parses and checks a workspace with dependency modules: the local modules
/// are checked as by [`check_workspace`]; the dependency modules are only
/// indexed, so that references into them resolve, and are not checked.
pub fn check_workspace_with_externals(local: &[WorkspaceModule], external: &[WorkspaceModule]) -> (r: Vec<Diagnostic>)
    requires
        sources_fit(local@),
        sources_fit(external@),
    ensures
        exists|ws: Workspace, pds: Seq<Seq<DiagView>>|
            {
                &&& ws.entry_seq().len() == local@.len()
                &&& pds.len() == local@.len()
                &&& forall|i: int| 0 <= i < local@.len() ==> (#[trigger] ws.entry_seq()[i]).fqn@ == local@[i].fqn@
                &&& ws.external_seq() == external@.map_values(|m: WorkspaceModule| m.fqn@)
                &&& sources_parsed(local@, ws.entry_seq())
                &&& errs_parsed(local@, pds)
                &&& owed_all(local@, ws.entry_seq(), pds)
                &&& diag_views(r@) == flat(pds) + entries_static_errs(ws.entry_seq()) + entries_errs(ws, ws.entry_seq())
            },
{
    let (local_parsed, local_diags) = parse_all(local);
    let (external_parsed, _) = parse_all(external);
    let ghost ext_fqns = external_parsed@.map_values(|m: (String, Module)| m.0@);
    assert(ext_fqns =~= external@.map_values(|m: WorkspaceModule| m.fqn@));
    let ghost lq = local_parsed@;
    let workspace = Workspace::build_with_externals(local_parsed, external_parsed);
    assert(sources_parsed(local@, workspace.entry_seq())) by {
        assert forall|i: int| 0 <= i < local@.len() implies parsed_from(
            encode_utf8(local@[i].source@),
            (#[trigger] workspace.entry_seq()[i]).ast,
        ) by {
            assert(workspace.entry_seq()[i].ast == lq[i].1);
        }
    }
    let mut out: Vec<Diagnostic> = Vec::new();
    let ghost mut pds: Seq<Seq<DiagView>> = seq![];
    let mut i: usize = 0;
    assert(diag_views(out@) =~= seq![]);
    while i < local_diags.len()
        invariant
            i <= local_diags@.len(),
            local_diags@.len() == local@.len(),
            pds.len() == i,
            diag_views(out@) == flat(pds),
            forall|k: int|
                0 <= k < local@.len() ==> parse_errs(
                    diag_views((#[trigger] local_diags@[k])@),
                    encode_utf8(local@[k].source@).len() as int,
                ),
            forall|k: int| 0 <= k < i ==> pds[k] == diag_views((#[trigger] local_diags@[k])@),
        decreases local_diags@.len() - i,
    {
        let ghost d0 = diag_views(out@);
        let mut more = local_diags[i].clone();
        proof {
            lemma_cloned_diags(local_diags@[i as int], more);
        }
        let ghost m = diag_views(more@);
        out.append(&mut more);
        let ghost p0 = pds;
        proof {
            pds = pds.push(m);
        }
        assert(pds.drop_last() =~= p0);
        assert(diag_views(out@) =~= d0 + m);
        i = i + 1;
    }
    assert(errs_parsed(local@, pds)) by {
        assert forall|k: int| 0 <= k < local@.len() implies parse_errs(
            #[trigger] pds[k],
            encode_utf8(local@[k].source@).len() as int,
        ) by {
            assert(pds[k] == diag_views(local_diags@[k]@));
        }
    }
    assert(owed_all(local@, workspace.entry_seq(), pds)) by {
        assert forall|k: int| 0 <= k < local@.len() implies diags_owed(
            encode_utf8(local@[k].source@),
            workspace.entry_seq()[k].ast,
            (#[trigger] pds[k]).len() as int,
        ) by {
            assert(pds[k] == diag_views(local_diags@[k]@));
            assert(workspace.entry_seq()[k].ast == lq[k].1);
        }
    }
    let ghost d1 = diag_views(out@);
    let mut stat = run_workspace(&workspace);
    let ghost st = diag_views(stat@);
    out.append(&mut stat);
    assert(diag_views(out@) =~= d1 + st);
    assert(workspace.entry_seq().len() == local@.len());
    assert(forall|i: int| 0 <= i < local@.len() ==> (#[trigger] workspace.entry_seq()[i]).fqn@ == local@[i].fqn@);
    assert(diag_views(out@) == flat(pds) + entries_static_errs(workspace.entry_seq()) + entries_errs(
        workspace,
        workspace.entry_seq(),
    ));
    out
}

/// One module's diagnostics, under its FQN.
pub struct ModuleDiagnostics {
    /// The module's fully-qualified name.
    pub fqn: String,
    /// Its parse errors, static errors, and the cross-module errors of the
    /// references it makes, in that order.
    pub diagnostics: Vec<Diagnostic>,
}

/// Parses and checks a workspace, keeping each module's diagnostics under
/// its FQN: a cross-module error lands in the module making the reference.
pub fn check_workspace_modules(modules: &[WorkspaceModule]) -> (r: Vec<ModuleDiagnostics>)
    requires
        sources_fit(modules@),
    ensures
        exists|ws: Workspace, pds: Seq<Seq<DiagView>>|
            #![trigger ws.entry_seq(), pds.len()]
            {
                &&& ws.entry_seq().len() == modules@.len()
                &&& pds.len() == modules@.len()
                &&& r@.len() == modules@.len()
                &&& sources_parsed(modules@, ws.entry_seq())
                &&& errs_parsed(modules@, pds)
                &&& owed_all(modules@, ws.entry_seq(), pds)
                &&& forall|i: int|
                    0 <= i < modules@.len() ==> {
                        &&& (#[trigger] r@[i]).fqn@ == modules@[i].fqn@
                        &&& ws.entry_seq()[i].fqn@ == modules@[i].fqn@
                        &&& diag_views(r@[i].diagnostics@) == pds[i] + static_errs(
                            ws.entry_seq()[i].ast,
                            ws.entry_seq()[i].model,
                        ) + module_errs(ws, ws.entry_seq()[i])
                    }
            },
{
    let (parsed, diags) = parse_all(modules);
    let ghost fq = parsed@.map_values(|m: (String, Module)| m.0@);
    let ghost pq = parsed@;
    let workspace = Workspace::build(parsed);
    assert(sources_parsed(modules@, workspace.entry_seq())) by {
        assert forall|i: int| 0 <= i < modules@.len() implies parsed_from(
            encode_utf8(modules@[i].source@),
            (#[trigger] workspace.entry_seq()[i]).ast,
        ) by {
            assert(workspace.entry_seq()[i].ast == pq[i].1);
        }
    }
    let entries = workspace.modules();
    let mut out: Vec<ModuleDiagnostics> = Vec::new();
    let ghost mut pds: Seq<Seq<DiagView>> = seq![];
    let mut i: usize = 0;
    while i < entries.len()
        invariant
            i <= entries@.len(),
            entries@ == workspace.entry_seq(),
            entries@.len() == modules@.len(),
            diags@.len() == modules@.len(),
            forall|k: int| 0 <= k < modules@.len() ==> (#[trigger] entries@[k]).fqn@ == modules@[k].fqn@,
            out@.len() == i,
            pds.len() == i,
            forall|k: int|
                0 <= k < modules@.len() ==> parse_errs(
                    diag_views((#[trigger] diags@[k])@),
                    encode_utf8(modules@[k].source@).len() as int,
                ),
            forall|k: int| 0 <= k < i ==> pds[k] == diag_views((#[trigger] diags@[k])@),
            forall|k: int|
                0 <= k < i ==> {
                    &&& (#[trigger] out@[k]).fqn@ == modules@[k].fqn@
                    &&& diag_views(out@[k].diagnostics@) == pds[k] + static_errs(entries@[k].ast, entries@[k].model)
                        + module_errs(workspace, entries@[k])
                },
        decreases entries@.len() - i,
    {
        let entry = &entries[i];
        let mut d = diags[i].clone();
        proof {
            lemma_cloned_diags(diags@[i as int], d);
        }
        let ghost p = diag_views(d@);
        let mut more = run_module(&workspace, entry);
        let ghost m = diag_views(more@);
        d.append(&mut more);
        assert(diag_views(d@) =~= p + m);
        proof {
            pds = pds.push(p);
        }
        out.push(ModuleDiagnostics { fqn: entry.fqn.clone(), diagnostics: d });
        i = i + 1;
    }
    assert(errs_parsed(modules@, pds)) by {
        assert forall|k: int| 0 <= k < modules@.len() implies parse_errs(
            #[trigger] pds[k],
            encode_utf8(modules@[k].source@).len() as int,
        ) by {
            assert(pds[k] == diag_views(diags@[k]@));
        }
    }
    assert(owed_all(modules@, workspace.entry_seq(), pds)) by {
        assert forall|k: int| 0 <= k < modules@.len() implies diags_owed(
            encode_utf8(modules@[k].source@),
            workspace.entry_seq()[k].ast,
            (#[trigger] pds[k]).len() as int,
        ) by {
            assert(pds[k] == diag_views(diags@[k]@));
            assert(workspace.entry_seq()[k].ast == pq[k].1);
        }
    }
    out
}

/// The static diagnostics of the local module named `fqn` in an already
/// built workspace: its static errors and the cross-module errors of the
/// references it makes; nothing for an unknown module.
pub fn static_diagnostics(workspace: &Workspace, fqn: &str) -> (r: Vec<Diagnostic>)
    ensures
        first_entry(workspace.entry_seq(), fqn@) >= 0 ==> diag_views(r@) == {
            let e = workspace.entry_seq()[first_entry(workspace.entry_seq(), fqn@)];
            static_errs(e.ast, e.model) + module_errs(*workspace, e)
        },
        first_entry(workspace.entry_seq(), fqn@) < 0 ==> r@.len() == 0,
{
    match workspace.module(fqn) {
        Some(entry) => run_module(workspace, entry),
        None => Vec::new(),
    }
}

/// Runs the static checks over an already-parsed module, as an anonymous
/// module; the caller supplies the parse diagnostics.
pub fn analyze(module: &Module) -> (r: Vec<Diagnostic>)
    ensures
        exists|m: Model|
            {
                &&& m.module_name@ == Seq::<char>::empty()
                &&& crate::model::symbols::sym_views(m.declared_seq()) == items_syms(Seq::<char>::empty(), module.items@)
                &&& diag_views(r@) == static_errs(*module, m)
            },
{
    let model = Model::build(module);
    run(module, &model)
}

/// Parses and checks source text: its parse errors, then its static errors.
pub fn check(src: &str) -> (r: Vec<Diagnostic>)
    requires
        src.spec_bytes().len() < u32::MAX,
    ensures
        exists|pd: Seq<DiagView>, ast: Module, m: Model|
            {
                &&& parsed_from(src.spec_bytes(), ast)
                &&& parse_errs(pd, src.spec_bytes().len() as int)
                &&& diags_owed(src.spec_bytes(), ast, pd.len() as int)
                &&& m.module_name@ == Seq::<char>::empty()
                &&& crate::model::symbols::sym_views(m.declared_seq()) == items_syms(Seq::<char>::empty(), ast.items@)
                &&& diag_views(r@) == pd + static_errs(ast, m)
            },
{
    let parsed = parse(src);
    let mut out = parsed.diagnostics;
    let ghost pd = diag_views(out@);
    assert(parse_errs(pd, src.spec_bytes().len() as int)) by {
        assert forall|j: int| 0 <= j < pd.len() implies (#[trigger] pd[j]).0 == crate::diagnostic::Severity::Error
            && pd[j].1.start <= src.spec_bytes().len() && pd[j].1.end <= src.spec_bytes().len() by {
            assert(crate::parser::parse_diag_ok(out@[j], src.spec_bytes().len() as int));
        }
    }
    let model = Model::build(&parsed.ast);
    let mut more = run(&parsed.ast, &model);
    let ghost m = diag_views(more@);
    out.append(&mut more);
    assert(diag_views(out@) =~= pd + m);
    out
}

/// The diagnostics a module gets under its FQN: its parse errors, its
/// static errors, and the cross-module errors of the references it makes.
pub open spec fn module_diags(ws: Workspace, pds: Seq<Seq<DiagView>>, i: int) -> Seq<DiagView> {
    pds[i] + static_errs(ws.entry_seq()[i].ast, ws.entry_seq()[i].model) + module_errs(ws, ws.entry_seq()[i])
}

/// The per-module lists of the first `n` modules, concatenated.
pub open spec fn modules_diags(ws: Workspace, pds: Seq<Seq<DiagView>>, n: int) -> Seq<DiagView>
    decreases n,
{
    if n <= 0 {
        seq![]
    } else {
        modules_diags(ws, pds, n - 1) + module_diags(ws, pds, n - 1)
    }
}

/// Keeping diagnostics per module loses and adds none: the per-module
/// lists together hold exactly the workspace's diagnostics (parse errors,
/// then static errors, then cross-module errors), each as often.
pub proof fn law_per_module_diagnostics_agree(ws: Workspace, pds: Seq<Seq<DiagView>>, n: int)
    requires
        0 <= n <= ws.entry_seq().len(),
        n <= pds.len(),
    ensures
        modules_diags(ws, pds, n).to_multiset() == (flat(pds.take(n)) + entries_static_errs(
            ws.entry_seq().take(n),
        ) + entries_errs(ws, ws.entry_seq().take(n))).to_multiset(),
    decreases n,
{
    broadcast use vstd::seq_lib::lemma_multiset_commutative;

    if n == 0 {
        assert(pds.take(0) =~= Seq::<Seq<DiagView>>::empty());
        assert(ws.entry_seq().take(0) =~= Seq::<ModuleEntry>::empty());
        assert(flat(pds.take(0)) + entries_static_errs(ws.entry_seq().take(0)) + entries_errs(
            ws,
            ws.entry_seq().take(0),
        ) =~= Seq::<DiagView>::empty());
    } else {
        law_per_module_diagnostics_agree(ws, pds, n - 1);
        let es = ws.entry_seq();
        assert(pds.take(n).drop_last() =~= pds.take(n - 1));
        assert(es.take(n).drop_last() =~= es.take(n - 1));
        let p = pds[n - 1];
        let st = static_errs(es[n - 1].ast, es[n - 1].model);
        let me = module_errs(ws, es[n - 1]);
        let f0 = flat(pds.take(n - 1));
        let s0 = entries_static_errs(es.take(n - 1));
        let e0 = entries_errs(ws, es.take(n - 1));
        assert(flat(pds.take(n)) == f0 + p);
        assert(entries_static_errs(es.take(n)) == s0 + st);
        assert(entries_errs(ws, es.take(n)) == e0 + me);
        assert((f0 + p + (s0 + st) + (e0 + me)).to_multiset() =~= (f0 + s0 + e0).to_multiset().add(
            (p + st + me).to_multiset(),
        ));
    }
}

} // verus!
