use pseudoscript::model::cross_module::check;
use pseudoscript::model::symbols::Workspace;
use pseudoscript::parser::parse;

/// The cross-module error messages for a workspace of `(fqn, source)` modules.
fn errors(modules: &[(&str, &str)]) -> Vec<String> {
    let ws = Workspace::build(
        modules
            .iter()
            .map(|(fqn, src)| ((*fqn).to_owned(), parse(src).ast))
            .collect(),
    );
    check(&ws).iter().map(|d| d.message.clone()).collect()
}


#[test]
fn unknown_fieldless_variant_is_rejected() {
    let msgs = errors(&[
        (
            "a",
            "//! a\n\npublic data E =\n  | NotConfigured\n  | Missing\n",
        ),
        (
            "b",
            "//! b\n\npublic system Sys;\npublic container Box for b::Sys {\n  go(): Result<string, a::E> { return Err(a::E::Phantom) }\n}\n",
        ),
    ]);
    assert!(
        msgs.iter()
            .any(|m| m == "`a::E` has no fieldless variant `Phantom`"),
        "{msgs:?}"
    );
}

#[test]
fn fieldless_variant_reference_resolves() {
    let msgs = errors(&[
        (
            "a",
            "//! a\n\npublic data E =\n  | NotConfigured\n  | Missing\n",
        ),
        (
            "b",
            "//! b\n\npublic system Sys;\npublic container Box for b::Sys {\n  go(): Result<string, a::E> { return Err(a::E::Missing) }\n}\n",
        ),
    ]);
    assert!(msgs.is_empty(), "{msgs:?}");
}

#[test]
fn two_segment_fieldless_variant_form_is_rejected() {
    // A fieldless variant does not hoist, so the two-segment `module::Name`
    // form names no symbol and no union.
    let msgs = errors(&[
        (
            "a",
            "//! a\n\npublic data E =\n  | NotConfigured\n  | Missing\n",
        ),
        (
            "b",
            "//! b\n\npublic system Sys;\npublic container Box for b::Sys {\n  go(): Result<string, a::E> { return Err(a::Missing) }\n}\n",
        ),
    ]);
    assert!(
        msgs.iter()
            .any(|m| m == "variant reference `a::Missing` does not resolve: no union `a`"),
        "{msgs:?}"
    );
}

#[test]
fn unknown_field_on_cross_module_node_is_rejected() {
    let msgs = errors(&[
        (
            "a",
            "//! a\n\npublic data Cfg { url: string }\npublic system Sys;\npublic container Box for a::Sys {\n  cfg(): a::Cfg { return self.cfg() }\n}\n",
        ),
        (
            "b",
            "//! b\n\npublic system Other;\npublic container Caller for b::Other {\n  go(): void { a::Box.ghost }\n}\n",
        ),
    ]);
    assert!(
        msgs.iter().any(|m| m == "no field `ghost` on `a::Box`"),
        "{msgs:?}"
    );
}

#[test]
fn record_variant_value_reference_is_not_a_value() {
    // A record variant hoists to `module::Name`, but as a bare value it is
    // not one — it has fields, so `from` produces it. A fieldless
    // variant referenced through its union stays a value.
    let msgs = errors(&[
        (
            "a",
            "//! a\n\npublic data Created { id: string }\npublic data E =\n  | Created\n  | Missing\n",
        ),
        (
            "b",
            "//! b\n\npublic system Sys;\npublic container Box for b::Sys {\n  go(): Result<string, a::E> { return Err(a::Created) }\n}\n",
        ),
    ]);
    assert!(
        msgs.iter()
            .any(|m| m == "`Created` is not a value: compose it with `from`"),
        "{msgs:?}"
    );
}


#[test]
fn unknown_method_on_cross_module_node_is_rejected() {
    let msgs = errors(&[
        (
            "a",
            "//! a\n\npublic system Sys;\npublic container Box for a::Sys {\n  run(): void {}\n}\n",
        ),
        (
            "b",
            "//! b\n\npublic system Other;\npublic container Caller for b::Other {\n  go(): void { a::Box.ghost() }\n}\n",
        ),
    ]);
    assert!(
        msgs.iter().any(|m| m == "no method `ghost` on `a::Box`"),
        "{msgs:?}"
    );
}

#[test]
fn known_method_on_cross_module_node_resolves() {
    let msgs = errors(&[
        (
            "a",
            "//! a\n\npublic system Sys;\npublic container Box for a::Sys {\n  run(): void {}\n}\n",
        ),
        (
            "b",
            "//! b\n\npublic system Other;\npublic container Caller for b::Other {\n  go(): void { a::Box.run() }\n}\n",
        ),
    ]);
    assert!(msgs.is_empty(), "{msgs:?}");
}

#[test]
fn call_on_black_box_node_is_not_judged() {
    // A black-box node (`;`) discloses no members; absence cannot be proven.
    let msgs = errors(&[
        (
            "a",
            "//! a\n\npublic system Sys;\npublic container Box for a::Sys;\n",
        ),
        (
            "b",
            "//! b\n\npublic system Other;\npublic container Caller for b::Other {\n  go(): void { a::Box.run() }\n}\n",
        ),
    ]);
    assert!(msgs.is_empty(), "{msgs:?}");
}


#[test]
fn nested_structural_call_target_suggests_flat_fqn() {
    let msgs = errors(&[
        (
            "a",
            "//! a\n\npublic system Sys;\npublic container Box for a::Sys;\npublic component Comp for a::Box {\n  run(): void;\n}\n",
        ),
        (
            "b",
            "//! b\n\npublic system Other;\npublic container Caller for b::Other {\n  go(): void { a::Sys::Box::Comp.run() }\n}\n",
        ),
    ]);
    assert!(
        msgs.iter().any(|m| m
            == "call target `a::Sys::Box::Comp` is not a fully-qualified name; use `a::Comp`"),
        "{msgs:?}"
    );
}

#[test]
fn same_module_structural_drill_suggests_flat_fqn() {
    // The same-module twin: a container::component drill within one module is
    // no longer silent — it suggests the flat FQN.
    let msgs = errors(&[(
        "shop",
        "//! shop\n\npublic system App;\npublic container Box for shop::App;\npublic component Repo for shop::Box {\n  run(): void;\n}\npublic container Caller for shop::App {\n  go(): void { Box::Repo.run() }\n}\n",
    )]);
    assert!(
        msgs.iter()
            .any(|m| m
                == "call target `Box::Repo` is not a fully-qualified name; use `shop::Repo`"),
        "{msgs:?}"
    );
}

#[test]
fn flat_cross_module_component_call_resolves() {
    // The flat FQN of the same component resolves — the check must not flag it.
    let msgs = errors(&[
        (
            "a",
            "//! a\n\npublic system Sys;\npublic container Box for a::Sys;\npublic component Comp for a::Box {\n  run(): void;\n}\n",
        ),
        (
            "b",
            "//! b\n\npublic system Other;\npublic container Caller for b::Other {\n  go(): void { a::Comp.run() }\n}\n",
        ),
    ]);
    assert!(msgs.is_empty(), "{msgs:?}");
}

#[test]
fn dangling_multi_segment_reference_does_not_resolve() {
    // A multi-segment path whose leaf names no node is flagged, not silent.
    let msgs = errors(&[
        ("a", "//! a\n\npublic system Sys;\n"),
        (
            "b",
            "//! b\n\npublic system Other;\npublic container Caller for b::Other {\n  go(): void { a::Sys::Ghost.run() }\n}\n",
        ),
    ]);
    assert!(
        msgs.iter()
            .any(|m| m
                == "dangling cross-module reference `a::Sys::Ghost`: target does not resolve"),
        "{msgs:?}"
    );
}
