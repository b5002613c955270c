use pseudoscript::diagnostic::{Diagnostic, Severity};
use pseudoscript::model::arch::{check, check_for_module};
use pseudoscript::model::deps::WorkspaceModule;
use pseudoscript::model::graph::{graph, EdgeKind, Graph, NodeKind, Trigger, Visibility};
use pseudoscript::model::symbols::{symbol_module, SymbolKind, Workspace, Resolution};
use pseudoscript::parser::parse;

fn build(modules: &[(&str, &str)]) -> Graph {
    let ms: Vec<WorkspaceModule> = modules.iter().map(|(f, s)| WorkspaceModule::new(f, s)).collect();
    graph(&ms)
}

fn diags(modules: &[(&str, &str)]) -> Vec<Diagnostic> {
    check(&build(modules))
}

fn codes(modules: &[(&str, &str)]) -> Vec<String> {
    diags(modules).into_iter().filter_map(|d| d.code).collect()
}

#[test]
fn backdoor_cross_module_component_call_warns() {
    let ds = diags(&[
        (
            "a",
            "//! a\n\npublic system Sys;\npublic container Box for a::Sys;\npublic component Comp for a::Box {\n  run(): void;\n}\n",
        ),
        (
            "b",
            "//! b\n\npublic system Other;\npublic container Caller for b::Other {\n  go(): void { a::Comp.run() }\n}\n",
        ),
    ]);
    let hit = ds
        .iter()
        .find(|d| d.code.as_deref() == Some("PDS-ARCH-001"))
        .expect("PDS-ARCH-001 fires on a cross-module component call");
    assert_eq!(hit.severity, Severity::Warning);
    assert!(
        hit.code_description.as_deref().is_some_and(|url| url.contains("PDS-ARCH-001")),
        "the warning carries its article URL: {:?}",
        hit.code_description
    );
    assert!(!ds.iter().any(|d| d.code.as_deref() == Some("PDS-ARCH-003")));
}

#[test]
fn same_module_component_call_is_clean() {
    let ds = diags(&[(
        "shop",
        "//! shop\n\npublic system App;\npublic container Box for shop::App;\npublic component Repo for shop::Box {\n  run(): void;\n}\npublic container Caller for shop::App {\n  go(): void { shop::Repo.run() }\n}\n",
    )]);
    assert!(ds.is_empty(), "{:?}", codes(&[]));
}

#[test]
fn module_dependency_cycle_warns() {
    let cs = codes(&[
        ("s", "//! s\n\npublic system Sys;\n"),
        ("a", "//! a\n\npublic container Ca for s::Sys {\n  go(): void { b::Cb.run() }\n  run(): void;\n}\n"),
        ("b", "//! b\n\npublic container Cb for s::Sys {\n  run(): void { a::Ca.run() }\n}\n"),
    ]);
    assert!(cs.iter().any(|c| c == "PDS-ARCH-002"), "{cs:?}");
    assert!(!cs.iter().any(|c| c == "PDS-ARCH-003"), "{cs:?}");
}

#[test]
fn cross_system_container_call_warns() {
    let cs = codes(&[
        ("a", "//! a\n\npublic system Sa;\npublic container Ca for a::Sa {\n  go(): void { b::Cb.run() }\n}\n"),
        ("b", "//! b\n\npublic system Sb;\npublic container Cb for b::Sb {\n  run(): void;\n}\n"),
    ]);
    assert!(cs.iter().any(|c| c == "PDS-ARCH-003"), "{cs:?}");
    assert!(!cs.iter().any(|c| c == "PDS-ARCH-001"), "{cs:?}");
    assert!(!cs.iter().any(|c| c == "PDS-ARCH-002"), "{cs:?}");
}

#[test]
fn malformed_parent_cycle_does_not_hang() {
    let cs = codes(&[
        ("a", "//! a\n\npublic container Ca for b::Cb {\n  go(): void { b::Cb.run() }\n}\n"),
        ("b", "//! b\n\npublic container Cb for a::Ca {\n  run(): void {}\n}\n"),
    ]);
    assert!(!cs.iter().any(|c| c == "PDS-ARCH-003"), "{cs:?}");
}

#[test]
fn same_system_cross_module_container_call_is_clean() {
    let cs = codes(&[
        ("s", "//! s\n\npublic system Sys;\n"),
        ("a", "//! a\n\npublic container Ca for s::Sys {\n  go(): void { b::Cb.run() }\n}\n"),
        ("b", "//! b\n\npublic container Cb for s::Sys {\n  run(): void;\n}\n"),
    ]);
    assert!(cs.is_empty(), "{cs:?}");
}

#[test]
fn cycle_warning_lists_members_and_points_at_first_call() {
    let src_a = "//! a\n\npublic container Ca for s::Sys {\n  go(): void { b::Cb.run() }\n  run(): void;\n}\n";
    let ds = diags(&[
        ("s", "//! s\n\npublic system Sys;\n"),
        ("a", src_a),
        ("b", "//! b\n\npublic container Cb for s::Sys {\n  run(): void { a::Ca.run() }\n}\n"),
    ]);
    let cycle: Vec<&Diagnostic> = ds.iter().filter(|d| d.code.as_deref() == Some("PDS-ARCH-002")).collect();
    assert_eq!(cycle.len(), 1);
    assert_eq!(
        cycle[0].message,
        "modules form a dependency cycle (a, b) — break it by extracting a shared contract or inverting one dependency"
    );
    assert_eq!(
        cycle[0].code_description.as_deref(),
        Some("https://github.com/flying-dice/pseudoscript/blob/main/docs/principles/PDS-ARCH-002-cyclic-dependency.md")
    );
    let call = src_a.find(".run()").unwrap() as u32;
    assert_eq!(cycle[0].span.start, call);
}

#[test]
fn per_module_slice_keeps_only_that_modules_calls() {
    let ms = [
        ("a", "//! a\n\npublic system Sa;\npublic container Ca for a::Sa {\n  go(): void { b::Cb.run() }\n}\n"),
        ("b", "//! b\n\npublic system Sb;\npublic container Cb for b::Sb {\n  run(): void;\n}\n"),
    ];
    let g = build(&ms);
    assert_eq!(check_for_module(&g, "a").len(), 1);
    assert!(check_for_module(&g, "b").is_empty());
    assert_eq!(
        check(&g)[0].message,
        "call crosses a system boundary into container `b::Cb` of another system — couple to the system's published face, not its containers"
    );
}

#[test]
fn graph_records_nodes_and_typed_edges() {
    let g = build(&[(
        "shop",
        "//! shop\n\npublic system App;\ncontainer Api for App {\n  #[http]\n  public get(): void { Store.put(self.f()) }\n}\ncontainer Store for App {\n  put(): void;\n}\ndata Order { id: uuid }\n",
    )]);
    let api = g.node("shop::Api").expect("Api");
    assert_eq!(api.kind, NodeKind::Container);
    assert_eq!(api.parent.as_deref(), Some("shop::App"));
    assert_eq!(api.visibility, Visibility::Private);
    let get = g.node("shop::Api::get").expect("callable");
    assert_eq!(get.kind, NodeKind::Callable);
    assert_eq!(get.triggers, vec![Trigger::Http]);
    assert_eq!(g.node("shop::Order").unwrap().kind, NodeKind::Data);
    let kinds: Vec<(EdgeKind, &str, &str)> =
        g.edges().iter().map(|e| (e.kind, e.from.as_str(), e.to.as_str())).collect();
    assert_eq!(
        kinds,
        vec![
            (EdgeKind::ForParent, "shop::Api", "shop::App"),
            (EdgeKind::Trigger, "client", "shop::Api::get"),
            (EdgeKind::Call, "shop::Api", "shop::Store"),
            (EdgeKind::ForParent, "shop::Store", "shop::App"),
        ]
    );
    assert_eq!(g.edges()[2].label, "put");
}

#[test]
fn onevent_trigger_names_its_event() {
    let g = build(&[("m", "//! m\n\nsystem S {\n  #[onevent(m::Paid)]\n  on(): void;\n}\n")]);
    let on = g.node("m::S::on").unwrap();
    assert_eq!(on.triggers, vec![Trigger::OnEvent { event_fqn: "m::Paid".into() }]);
    assert_eq!(g.edges()[0].from, "event:m::Paid");
    assert_eq!(on.triggers[0].initiator(), "event:m::Paid");
}

#[test]
fn later_declaration_replaces_earlier_node_in_place() {
    let g = build(&[("m", "//! m\n\nsystem S;\nsystem T;\npublic system S;\n")]);
    let fqns: Vec<&str> = g.nodes().iter().map(|n| n.fqn.as_str()).collect();
    assert_eq!(fqns, vec!["m::S", "m::T"]);
    assert_eq!(g.node("m::S").unwrap().visibility, Visibility::Public);
    assert!(g.node("m::Missing").is_none());
}

#[test]
fn workspace_indexes_symbols_and_resolves_visibility() {
    let a = parse("//! a\n\npublic system S;\ncontainer C for S;\ndata U =\n  | V { x: number }\n  | W\n").ast;
    let ws = Workspace::build(vec![("a".to_owned(), a)]);
    assert_eq!(ws.symbol("a::S").unwrap().kind, SymbolKind::System);
    assert_eq!(ws.symbol("a::V").unwrap().kind, SymbolKind::Data);
    assert!(ws.symbol("a::W").is_none());
    assert!(matches!(ws.resolve_qualified("b", "a::S"), Resolution::Public(_)));
    assert!(matches!(ws.resolve_qualified("b", "a::C"), Resolution::Private(_)));
    assert!(matches!(ws.resolve_qualified("a", "a::C"), Resolution::Public(_)));
    assert!(matches!(ws.resolve_qualified("a", "a::Nope"), Resolution::Missing));
    assert!(ws.is_known_module("a") && !ws.is_known_module("b"));
    assert_eq!(symbol_module("banking::core::Ledger"), "banking::core");
    assert_eq!(symbol_module("Ledger"), "");
    assert_eq!(ws.modules()[0].model.symbol("C").unwrap().fqn, "a::C");
}

use pseudoscript::model::graph::Step;

#[test]
fn callable_body_traces_calls_returns_and_frames() {
    let g = build(&[(
        "m",
        "//! m\n\nsystem S {\n  go(x: number): void {\n    if (x > 1) {\n      Repo.save(self.load())\n    } else {\n      return Err(\"no\")\n    }\n    while (!done) {\n      tick()\n    }\n    return\n  }\n}\n",
    )]);
    let body = g.body("m::S::go").expect("a disclosed body");
    assert_eq!(body.len(), 3);
    match &body[0] {
        Step::Alt { cond_label, then, otherwise } => {
            assert_eq!(cond_label, "x > 1");
            assert_eq!(
                then,
                &vec![
                    Step::SelfCall { method: "load".into() },
                    Step::Call { target_fqn: "Repo".into(), method: "save".into() },
                ]
            );
            assert_eq!(otherwise, &vec![Step::Return { marker: "Err".into() }]);
        },
        other => panic!("expected an alt frame, got {other:?}"),
    }
    match &body[1] {
        Step::Loop { cond_label, body } => {
            assert_eq!(cond_label, "!done");
            assert_eq!(body, &vec![Step::SelfCall { method: "tick".into() }]);
        },
        other => panic!("expected a loop frame, got {other:?}"),
    }
    assert_eq!(body[2], Step::Return { marker: String::new() });
    assert!(g.body("m::S").is_none());
}

use pseudoscript::model::graph::{DataShape, DataField, DataVariant, SigParam};

#[test]
fn feature_collected_as_scenario_on_target() {
    let src = "//! shop\n\npublic system Shop;\n\nfeature Checkout for Shop {\n  given \"a cart\"\n  and \"a logged-in buyer\"\n  when \"checkout runs\"\n  then \"a receipt is issued\"\n}\n";
    let g = build(&[("shop", src)]);
    let scenarios = g.scenarios_of("shop::Shop");
    assert_eq!(scenarios.len(), 1, "one scenario on the bare-named target");
    let scenario = scenarios[0];
    assert_eq!(scenario.name, "Checkout");
    assert_eq!(scenario.target_fqn, "shop::Shop");
    let keywords: Vec<&str> = scenario.steps.iter().map(|s| s.keyword.as_str()).collect();
    assert_eq!(keywords, ["given", "and", "when", "then"]);
    assert_eq!(scenario.steps[0].text, "a cart");
    assert_eq!(scenario.steps[3].text, "a receipt is issued");
}

#[test]
fn nodes_carry_signature_shape_and_doc() {
    let g = build(&[(
        "m",
        "//! m\n\n/// The store.\n/// #core\nsystem S {\n  put(o: Order, tags: string[]): Result<Order, Rejected>;\n  ping();\n}\n\ndata Order { id: uuid, lines: Line[] }\n\ndata Outcome =\n  | Done { at: datetime }\n  | Failed\n",
    )]);
    let s = g.node("m::S").unwrap();
    assert_eq!(s.doc.summary.as_deref(), Some("The store."));
    assert_eq!(s.doc.tags, vec!["#core".to_owned()]);
    let put = g.node("m::S::put").unwrap().signature.clone().unwrap();
    assert_eq!(
        put.params,
        vec![
            SigParam { name: "o".into(), ty: "Order".into() },
            SigParam { name: "tags".into(), ty: "string[]".into() },
        ]
    );
    assert_eq!(put.ret, "Result<Order, Rejected>");
    assert_eq!(g.node("m::S::ping").unwrap().signature.clone().unwrap().ret, "void");
    assert_eq!(
        g.node("m::Order").unwrap().shape,
        Some(DataShape::Record {
            fields: vec![
                DataField { name: "id".into(), ty: "uuid".into() },
                DataField { name: "lines".into(), ty: "Line[]".into() },
            ]
        })
    );
    assert_eq!(
        g.node("m::Outcome").unwrap().shape,
        Some(DataShape::Union {
            variants: vec![
                DataVariant {
                    name: "Done".into(),
                    fields: Some(vec![DataField { name: "at".into(), ty: "datetime".into() }]),
                },
                DataVariant { name: "Failed".into(), fields: None },
            ]
        })
    );
    assert_eq!(g.node("m::Done").unwrap().kind, NodeKind::Data);
    assert!(g.node("m::Failed").is_none());
    let children: Vec<&str> = g.children_of("m::S").iter().map(|n| n.name.as_str()).collect();
    assert_eq!(children, vec!["put", "ping"]);
    assert_eq!(g.nodes_of_kind(NodeKind::Data).len(), 3);
    assert!(g.edges_of_kind(EdgeKind::Call).is_empty());
}
