use pseudoscript::model::deps::WorkspaceModule;
use pseudoscript::model::{check, check_workspace, check_workspace_modules, check_workspace_with_externals};

fn messages(src: &str) -> Vec<String> {
    check(src).into_iter().map(|d| d.message).collect()
}

/// A cross-module reference to a private node is reported against the module
/// that *makes* the reference, not the one declaring the node.
#[test]
fn cross_module_diagnostic_attributed_to_referrer() {
    let modules = [
        WorkspaceModule::new("a", "//! a\n\nsystem Hidden;\n"),
        WorkspaceModule::new("b", "//! b\n\npublic container C for a::Hidden;\n"),
    ];
    let by_module = check_workspace_modules(&modules);

    let a = by_module.iter().find(|m| m.fqn == "a").expect("module a");
    let b = by_module.iter().find(|m| m.fqn == "b").expect("module b");

    assert!(
        a.diagnostics.is_empty(),
        "declarer is clean: {:?}",
        a.diagnostics
    );
    assert!(
        b.diagnostics.iter().any(|d| d.message.contains("private")),
        "referrer flags the private access: {:?}",
        b.diagnostics
    );
}

/// A consumer references a dependency's `public` node by its
/// dependency-rooted FQN; the reference resolves and the dependency's own
/// modules are not checked.
#[test]
fn cross_workspace_reference_to_public_dep_node_resolves() {
    let local = [WorkspaceModule::new(
        "main",
        "//! main\n\npublic container Portal for auth::core::Login;\n",
    )];
    let external = [WorkspaceModule::new(
        "auth::core",
        "//! auth core\n\npublic system Login;\n",
    )];
    let diagnostics = check_workspace_with_externals(&local, &external);
    assert!(diagnostics.is_empty(), "{diagnostics:?}");
}

/// Referencing a dependency's *private* node is rejected.
#[test]
fn cross_workspace_reference_to_private_dep_node_is_rejected() {
    let local = [WorkspaceModule::new(
        "main",
        "//! main\n\npublic container Portal for auth::core::Login;\n",
    )];
    let external = [WorkspaceModule::new(
        "auth::core",
        "//! auth core\n\nsystem Login;\n",
    )];
    let diagnostics = check_workspace_with_externals(&local, &external);
    assert!(
        diagnostics.iter().any(|d| d.message.contains("private")),
        "{diagnostics:?}"
    );
}

/// A dangling reference into a known dependency module is rejected.
#[test]
fn dangling_cross_workspace_reference_is_rejected() {
    let local = [WorkspaceModule::new(
        "main",
        "//! main\n\npublic container Portal for auth::core::Ghost;\n",
    )];
    let external = [WorkspaceModule::new(
        "auth::core",
        "//! auth core\n\npublic system Login;\n",
    )];
    let diagnostics = check_workspace_with_externals(&local, &external);
    assert!(
        diagnostics.iter().any(|d| d.message.contains("dangling")),
        "{diagnostics:?}"
    );
}

/// A well-formed multi-module workspace produces no diagnostics anywhere.
#[test]
fn clean_workspace_has_no_diagnostics() {
    let modules = [
        WorkspaceModule::new("a", "//! a\n\npublic system Svc;\n"),
        WorkspaceModule::new("b", "//! b\n\npublic container C for a::Svc;\n"),
    ];
    assert!(
        check_workspace_modules(&modules)
            .iter()
            .all(|m| m.diagnostics.is_empty())
    );
}

#[test]
fn well_formed_module_is_clean() {
    assert!(messages("//! example\npublic system Banking;").is_empty());
}

#[test]
fn flat_workspace_check_lists_cross_module_errors() {
    let modules = [
        WorkspaceModule::new("a", "//! a\n\nsystem Hidden;\n"),
        WorkspaceModule::new("b", "//! b\n\npublic container C for a::Hidden;\n"),
    ];
    let msgs: Vec<String> = check_workspace(&modules).into_iter().map(|d| d.message).collect();
    assert_eq!(msgs, vec!["parent `a::Hidden` is private to its module".to_owned()]);
}

#[test]
fn reserved_word_as_field_name_is_rejected() {
    let msgs = messages("//! m\n\ndata Row { string: number }\n");
    assert!(
        msgs.contains(&"reserved word `string` cannot be used as an identifier".to_owned()),
        "{msgs:?}"
    );
}

#[test]
fn repeated_feature_name_collides() {
    let msgs = messages(
        "//! m\n\nsystem S;\n\nfeature Pay for S {\n  given \"a\"\n  when \"w\"\n  then \"t\"\n}\n\nfeature Pay for S {\n  given \"b\"\n  when \"w\"\n  then \"t\"\n}\n",
    );
    assert_eq!(msgs, vec!["feature `Pay` collides with feature `Pay`".to_owned()]);
}

#[test]
fn record_variant_colliding_with_data_is_rejected() {
    let msgs = messages("//! m\n\ndata Created { id: string }\ndata E =\n  | Created { at: string }\n  | Missing\n");
    assert_eq!(msgs, vec!["variant `Created` collides with data `Created`".to_owned()]);
}

#[test]
fn container_parent_must_be_a_system() {
    let msgs = messages("//! m\n\nperson P;\ncontainer C for P;\n");
    assert_eq!(msgs, vec!["container `C` parent `P` is not a system".to_owned()]);
}

#[test]
fn unknown_macro_on_callable_is_rejected() {
    let msgs = messages("//! m\n\nsystem S {\n  #[nope]\n  run(): void;\n}\n");
    assert_eq!(msgs, vec!["unknown macro `nope`".to_owned()]);
}

#[test]
fn builtin_macro_on_declaration_is_misplaced() {
    let msgs = messages("//! m\n\n#[http]\nsystem S;\n");
    assert_eq!(msgs, vec!["macro `http` cannot target a system".to_owned()]);
}

#[test]
fn onevent_handler_must_take_the_event() {
    let msgs = messages(
        "//! m\n\ndata Paid { id: string }\ndata Other { id: string }\nsystem S {\n  #[onevent(Paid)]\n  on(e: Other): void;\n}\n",
    );
    assert_eq!(
        msgs,
        vec!["handler parameter type `Other` does not match triggered event `Paid`".to_owned()]
    );
}

#[test]
fn rebinding_a_name_is_rejected() {
    let msgs = messages("//! m\n\nsystem S {\n  run(x: number): void {\n    x = 1\n  }\n}\n");
    assert_eq!(
        msgs,
        vec!["re-binding of `x`: bindings are single-assignment".to_owned()]
    );
}

#[test]
fn non_void_callable_must_return() {
    let msgs = messages("//! m\n\nsystem S {\n  run(): number {\n    x = 1\n  }\n}\n");
    assert_eq!(msgs, vec!["callable `run` does not return on all paths".to_owned()]);
}

#[test]
fn unresolved_type_suggests_the_closest_name() {
    let msgs = messages("//! m\n\ndata Row { n: numbr }\n");
    assert_eq!(
        msgs,
        vec!["unresolved type `numbr`; did you mean `number`?".to_owned()]
    );
}

#[test]
fn feature_target_must_be_a_node() {
    let msgs = messages("//! m\n\ndata Row { n: number }\n\nfeature F for Row {\n  given \"a\"\n  when \"w\"\n  then \"t\"\n}\n");
    assert_eq!(msgs, vec!["feature `F` target `Row` is not a node".to_owned()]);
}

#[test]
fn return_of_a_literal_must_match_the_declared_type() {
    let msgs = messages("//! m\n\nsystem S {\n  run(): number {\n    return \"x\"\n  }\n}\n");
    assert_eq!(
        msgs,
        vec!["return type `string` does not match declared `number`".to_owned()]
    );
}

#[test]
fn from_target_must_be_data() {
    let msgs = messages("//! m\n\nsystem S {\n  run(x: string): void {\n    y = number from x\n  }\n}\n");
    assert_eq!(
        msgs,
        vec!["`from` target `number` is not a `data` record or variant".to_owned()]
    );
}

#[test]
fn for_over_a_non_array_parameter_is_rejected() {
    let msgs = messages("//! m\n\nsystem S {\n  run(xs: number): void {\n    for (x in xs) {\n    }\n  }\n}\n");
    assert_eq!(msgs, vec!["`for` iterates a non-array type `number`".to_owned()]);
}

#[test]
fn self_call_is_a_parse_error() {
    let msgs = messages("//! m\n\nsystem S {\n  run(): void {\n    self.rnu()\n  }\n}\n");
    assert_eq!(msgs, vec!["`self.` is removed; call `Name(args)` directly".to_owned()]);
}

#[test]
fn unresolved_reference_suggests_a_binding() {
    let msgs = messages("//! m\n\nsystem S {\n  run(count: number): void {\n    S.run(cuont)\n  }\n}\n");
    assert_eq!(
        msgs,
        vec!["unresolved reference `cuont`; did you mean `count`?".to_owned()]
    );
}

#[test]
fn field_read_on_a_record_must_name_a_field() {
    let msgs = messages(
        "//! m\n\ndata Row { values: number }\nsystem S {\n  run(r: Row): void {\n    y = r.value\n  }\n}\n",
    );
    assert_eq!(
        msgs,
        vec!["no field `value` on `Row`; did you mean `values`?".to_owned()]
    );
}

#[test]
fn accessor_read_on_a_record_explains_the_accessor() {
    let msgs = messages(
        "//! m\n\ndata Row { id: number }\nsystem S {\n  run(r: Row): void {\n    y = r.isOk\n  }\n}\n",
    );
    assert_eq!(
        msgs,
        vec!["no field `isOk` on `Row`; `.isOk` is a `Result` accessor — `Row` is not a `Result`".to_owned()]
    );
}

#[test]
fn call_arity_must_match() {
    let msgs = messages("//! m\n\nsystem S {\n  add(a: number, b: number): void;\n  run(): void {\n    S.add(1)\n  }\n}\n");
    assert_eq!(
        msgs,
        vec!["callable `add` expects 2 argument(s), got 1".to_owned()]
    );
}

#[test]
fn argument_type_must_match() {
    let msgs = messages("//! m\n\nsystem S {\n  add(a: number): void;\n  run(): void {\n    S.add(\"x\")\n  }\n}\n");
    assert_eq!(
        msgs,
        vec!["argument 1: expected `number`, found `string`".to_owned()]
    );
}

#[test]
fn condition_must_be_bool() {
    let msgs = messages("//! m\n\nsystem S {\n  run(): void {\n    if (1) {\n    }\n  }\n}\n");
    assert_eq!(msgs, vec!["condition must be `bool`, found `number`".to_owned()]);
}

#[test]
fn value_read_on_err_branch_is_rejected() {
    let msgs = messages(
        "//! m\n\nsystem S {\n  get(): Result<number, string>;\n  run(): void {\n    r = S.get()\n    if (r.isErr) {\n      x = r.value\n    }\n  }\n}\n",
    );
    assert_eq!(msgs, vec!["`.value` read on an `Err` branch".to_owned()]);
}

#[test]
fn narrowing_after_a_returning_guard_carries_over() {
    let msgs = messages(
        "//! m\n\nsystem S {\n  get(): Result<number, string>;\n  run(): number {\n    r = S.get()\n    if (r.isOk) {\n      return 1\n    }\n    x = r.value\n    return 2\n  }\n}\n",
    );
    assert_eq!(msgs, vec!["`.value` read on an `Err` branch".to_owned()]);
}

#[test]
fn well_formed_source_has_no_diagnostics() {
    let src = "//! example\n\npublic data Info { id: number }\n\npublic system Banking;\n";
    assert!(check(src).is_empty());
}
