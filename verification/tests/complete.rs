use pseudoscript::complete::{completion, CompletionKind};
use pseudoscript::model::symbols::Workspace;
use pseudoscript::parser::parse;

fn workspace(modules: &[(&str, &str)]) -> Workspace {
    Workspace::build(
        modules
            .iter()
            .map(|(fqn, src)| ((*fqn).to_owned(), parse(src).ast))
            .collect(),
    )
}

fn workspace_with_externals(local: &[(&str, &str)], external: &[(&str, &str)]) -> Workspace {
    Workspace::build_with_externals(
        local
            .iter()
            .map(|(fqn, src)| ((*fqn).to_owned(), parse(src).ast))
            .collect(),
        external
            .iter()
            .map(|(fqn, src)| ((*fqn).to_owned(), parse(src).ast))
            .collect(),
    )
}

const DEP_CLI: (&str, &str) = (
    "pseudoscript::cli",
    "//! cli\npublic system Cli;\npublic component LspHost for pseudoscript::cli::Cli {\n  public run(): void;\n}\n",
);

#[test]
fn dep_root_offers_its_submodule_segments() {
    // `pseudoscript::` — a dependency root is a path prefix, never a module
    // itself; completion offers the next segment (`cli`), not nothing.
    let src = "//! m\npublic system S;\npublic container X for pseudoscript::";
    let ws = workspace_with_externals(&[("m", src)], &[DEP_CLI]);
    let labels = labels_at(&ws, "m", src, src.len() as u32);
    assert!(labels.contains(&"cli".to_owned()), "{labels:?}");
}

#[test]
fn dep_module_offers_its_public_symbols() {
    let src = "//! m\npublic system S;\npublic container X for pseudoscript::cli::";
    let ws = workspace_with_externals(&[("m", src)], &[DEP_CLI]);
    let labels = labels_at(&ws, "m", src, src.len() as u32);
    assert!(labels.contains(&"LspHost".to_owned()), "{labels:?}");
}

#[test]
fn dep_node_offers_its_members_after_dot() {
    // `pseudoscript::cli::LspHost.` — members of a dependency node complete
    // (regression: the external module's model was dropped, so `.run` was
    // never offered).
    let src = "//! m\npublic container X for pseudoscript::cli::Cli {\n  go(): void {\n    pseudoscript::cli::LspHost.\n  }\n}\n";
    let ws = workspace_with_externals(&[("m", src)], &[DEP_CLI]);
    let offset = (src.find("LspHost.").unwrap() + "LspHost.".len()) as u32;
    let labels = labels_at(&ws, "m", src, offset);
    assert!(labels.contains(&"run".to_owned()), "{labels:?}");
}

/// Completion labels at byte `offset` in module `from`.
fn labels_at(ws: &Workspace, from: &str, src: &str, offset: u32) -> Vec<String> {
    completion(ws, from, src, offset)
        .into_iter()
        .map(|c| c.label)
        .collect()
}

#[test]
fn members_after_qualified_node_path() {
    // `identity::sessions.req` — a `::`-qualified node in another module;
    // its members must complete (regression: only the bare name was tried
    // in the current module).
    let mods = [
        (
            "identity",
            "//! identity\n\npublic system sessions {\n  public requireOrganizer(): void;\n}\n",
        ),
        (
            "m",
            "//! m\n\nsystem S {\n  run(): void {\n    identity::sessions.req\n  }\n}\n",
        ),
    ];
    let ws = workspace(&mods);
    let src = mods[1].1;
    let offset = (src.find("sessions.req").unwrap() + "sessions.req".len()) as u32;
    let labels = labels_at(&ws, "m", src, offset);
    // A `public` member completes across modules (§8.2).
    assert!(
        labels.contains(&"requireOrganizer".to_owned()),
        "{labels:?}"
    );
    // not the general keyword set
    assert!(
        !labels.contains(&"system".to_owned()),
        "general scope leaked: {labels:?}"
    );
}

#[test]
fn members_after_local_binding() {
    // `a: Account = Repo.fetch(x); a.` — the binding's declared type drives
    // member completion, even though `a` is not a declared node.
    let src = "//! m\n\ndata Account { id: uuid, owner: string }\n\nsystem Repo {\n  fetch(x: uuid): Account;\n}\n\nsystem S {\n  run(): void {\n    a: Account = Repo.fetch(x)\n    a.\n  }\n}\n";
    let ws = workspace(&[("m", src)]);
    let offset = (src.find("a.\n").unwrap() + 2) as u32;
    let labels = labels_at(&ws, "m", src, offset);
    assert!(labels.contains(&"id".to_owned()), "{labels:?}");
    assert!(labels.contains(&"owner".to_owned()), "{labels:?}");
}

#[test]
fn option_offered_in_type_position() {
    let src = "//! m\n\ndata D { x: }\n";
    let ws = workspace(&[("m", src)]);
    let offset = (src.find("x:").unwrap() + 2) as u32;
    let labels = labels_at(&ws, "m", src, offset);
    assert!(labels.contains(&"Option".to_owned()), "{labels:?}");
    assert!(labels.contains(&"Result".to_owned()), "{labels:?}");
}

#[test]
fn siblings_complete_as_bare_calls() {
    // §5.1, ADR-041: inside a node body a sibling callable completes as a
    // bare same-node call `Name(args)` — no `self.` qualifier.
    let src =
        "//! m\n\nsystem S {\n  run(): void {\n    he\n  }\n  helper(x: number): uuid;\n}\n";
    let ws = workspace(&[("m", src)]);
    let offset = (src.find("    he").unwrap() + "    he".len()) as u32;
    let labels = labels_at(&ws, "m", src, offset);
    assert!(labels.contains(&"helper".to_owned()), "{labels:?}");
    assert!(labels.contains(&"run".to_owned()), "{labels:?}");
}

#[test]
fn types_after_colon() {
    let src = "//! m\n\ndata D { x: }\n";
    let ws = workspace(&[("m", src)]);
    let offset = (src.find("x:").unwrap() + 2) as u32;
    let labels = labels_at(&ws, "m", src, offset);
    assert!(labels.contains(&"number".to_owned()), "{labels:?}");
    assert!(labels.contains(&"Result".to_owned()), "{labels:?}");
    assert!(labels.contains(&"D".to_owned()), "{labels:?}");
}

#[test]
fn macros_after_hash_bracket() {
    let src = "//! m\n\n#[\nsystem S;\n";
    let ws = workspace(&[("m", src)]);
    let offset = (src.find("#[").unwrap() + 2) as u32;
    let labels = labels_at(&ws, "m", src, offset);
    assert!(labels.contains(&"http".to_owned()), "{labels:?}");
    assert!(labels.contains(&"onevent".to_owned()), "{labels:?}");
}

#[test]
fn public_symbols_after_module_path() {
    let mods = [
        ("a", "//! a\n\npublic system Svc;\n\nsystem Hidden;\n"),
        ("b", "//! b\n\ncontainer C for a::\n"),
    ];
    let ws = workspace(&mods);
    let src = mods[1].1;
    let offset = (src.find("a::").unwrap() + 3) as u32;
    let labels = labels_at(&ws, "b", src, offset);
    assert!(labels.contains(&"Svc".to_owned()), "{labels:?}");
    assert!(!labels.contains(&"Hidden".to_owned()), "{labels:?}");
}

#[test]
fn general_offers_other_modules() {
    // At the root / a reference position, the other workspace modules are
    // suggested (so a cross-module reference can be started), alongside
    // keywords — but not this module itself.
    let mods = [
        ("context", "//! context\n\npublic system AcmeTickets;\n"),
        ("m", "//! m\n\n"),
    ];
    let ws = workspace(&mods);
    let src = mods[1].1;
    let labels = labels_at(&ws, "m", src, src.len() as u32);
    assert!(labels.contains(&"context".to_owned()), "{labels:?}");
    assert!(labels.contains(&"system".to_owned()), "{labels:?}");
    assert!(
        !labels.contains(&"m".to_owned()),
        "own module excluded: {labels:?}"
    );
}

#[test]
fn dependency_modules_offered_as_cross_module_starters() {
    // A dependency module (§8.3) is offered in general position like any
    // other module, and `::` drills into its public symbols only.
    let ws = Workspace::build_with_externals(
        [("m", "//! m\n\n")]
            .iter()
            .map(|(f, s)| ((*f).to_owned(), parse(s).ast))
            .collect(),
        [(
            "banking::core",
            "//! banking::core\n\npublic system Ledger;\nsystem Hidden;\n",
        )]
        .iter()
        .map(|(f, s)| ((*f).to_owned(), parse(s).ast))
            .collect(),
    );

    let src = "//! m\n\n";
    let labels = labels_at(&ws, "m", src, src.len() as u32);
    assert!(labels.contains(&"banking::core".to_owned()), "{labels:?}");

    let drill = "//! m\n\ncontainer C for banking::core::\n";
    let offset = (drill.find("core::").unwrap() + "core::".len()) as u32;
    let drilled = labels_at(&ws, "m", drill, offset);
    assert!(drilled.contains(&"Ledger".to_owned()), "{drilled:?}");
    assert!(!drilled.contains(&"Hidden".to_owned()), "{drilled:?}");
}

#[test]
fn keywords_in_general_position() {
    let src = "//! m\n\n";
    let ws = workspace(&[("m", src)]);
    let labels = labels_at(&ws, "m", src, src.len() as u32);
    assert!(labels.contains(&"system".to_owned()), "{labels:?}");
    assert!(labels.contains(&"public".to_owned()), "{labels:?}");
}

// With a prefix typed, the caret sits at the end of a partial identifier.
// Each narrowing context must stay scoped — the trigger before the prefix
// governs — and must not leak the general keyword set.

#[test]
fn types_after_colon_with_prefix() {
    let src = "//! m\n\ndata D { x: numb }\n";
    let ws = workspace(&[("m", src)]);
    let offset = (src.find("numb").unwrap() + "numb".len()) as u32;
    let labels = labels_at(&ws, "m", src, offset);
    assert!(labels.contains(&"number".to_owned()), "{labels:?}");
    assert!(labels.contains(&"D".to_owned()), "{labels:?}");
    assert!(
        !labels.contains(&"system".to_owned()),
        "general scope leaked: {labels:?}"
    );
}

#[test]
fn macros_after_hash_bracket_with_prefix() {
    let src = "//! m\n\n#[ht\nsystem S;\n";
    let ws = workspace(&[("m", src)]);
    let offset = (src.find("#[ht").unwrap() + "#[ht".len()) as u32;
    let labels = labels_at(&ws, "m", src, offset);
    assert!(labels.contains(&"http".to_owned()), "{labels:?}");
    assert!(
        !labels.contains(&"system".to_owned()),
        "general scope leaked: {labels:?}"
    );
}

#[test]
fn public_symbols_after_module_path_with_prefix() {
    let mods = [
        ("a", "//! a\n\npublic system Svc;\n\nsystem Hidden;\n"),
        ("b", "//! b\n\ncontainer C for a::Sv\n"),
    ];
    let ws = workspace(&mods);
    let src = mods[1].1;
    let offset = (src.find("a::Sv").unwrap() + "a::Sv".len()) as u32;
    let labels = labels_at(&ws, "b", src, offset);
    assert!(labels.contains(&"Svc".to_owned()), "{labels:?}");
    assert!(!labels.contains(&"Hidden".to_owned()), "{labels:?}");
    assert!(
        !labels.contains(&"system".to_owned()),
        "general scope leaked: {labels:?}"
    );
}


#[test]
fn nothing_offered_inside_prose() {
    let src = "//! m\n\n/// a doc\nsystem S;\n";
    let ws = workspace(&[("m", src)]);
    let offset = (src.find("a doc").unwrap() + 1) as u32;
    assert!(completion(&ws, "m", src, offset).is_empty());
}

#[test]
fn path_segments_come_sorted_and_once_each() {
    let ws = workspace_with_externals(
        &[("m", "//! m\n\n")],
        &[
            ("dep::zeta", "//! z\n\npublic system Z;\n"),
            ("dep::alpha::x", "//! x\n\npublic system X;\n"),
            ("dep::alpha::y", "//! y\n\npublic system Y;\n"),
        ],
    );
    let src = "//! m\n\ncontainer C for dep::";
    let items = completion(&ws, "m", src, src.len() as u32);
    let labels: Vec<String> = items.iter().map(|c| c.label.clone()).collect();
    assert_eq!(labels, vec!["alpha".to_owned(), "zeta".to_owned()]);
    assert!(items.iter().all(|c| c.kind == CompletionKind::Module && c.detail == "module"));
}

#[test]
fn container_parent_offers_only_systems() {
    let src = "//! m\n\nsystem Sys;\ncontainer Box;\ncontainer C for ";
    let ws = workspace(&[("m", src)]);
    let labels = labels_at(&ws, "m", src, src.len() as u32);
    assert!(labels.contains(&"Sys".to_owned()), "{labels:?}");
    assert!(!labels.contains(&"Box".to_owned()), "{labels:?}");
}

