use pseudoscript::model::resolve::{enclosing_node, module_of, resolve_at, resolve_owner, Hit};
use pseudoscript::model::symbols::Workspace;
use pseudoscript::parser::parse;

/// Builds a workspace from `(fqn, source)` modules.
fn workspace(modules: &[(&str, &str)]) -> Workspace {
    Workspace::build(
        modules
            .iter()
            .map(|(fqn, src)| ((*fqn).to_owned(), parse(src).ast))
            .collect(),
    )
}

/// Resolves the cursor at the first occurrence of `needle` (plus `at` bytes
/// into it) in module `from`.
fn hit_at(ws: &Workspace, from: &str, src: &str, needle: &str, at: u32) -> Hit {
    let offset = src.find(needle).expect("needle present") as u32 + at;
    resolve_at(ws, from, src, offset).unwrap_or_else(|| panic!("no hit at {needle:?}"))
}

/// The source slice the target span covers, for asserting where goto lands.
fn slice<'a>(modules: &[(&'a str, &'a str)], hit: &Hit) -> &'a str {
    let src = modules
        .iter()
        .find(|(fqn, _)| *fqn == hit.target_module)
        .expect("target module present")
        .1;
    &src[hit.target_span.start as usize..hit.target_span.end as usize]
}

#[test]
fn cross_file_fqn_resolves_to_other_module() {
    let mods = [
        ("a", "//! a\n\npublic system Svc;\n"),
        ("b", "//! b\n\npublic container C for a::Svc;\n"),
    ];
    let ws = workspace(&mods);
    let hit = hit_at(&ws, "b", mods[1].1, "Svc", 1);
    assert_eq!(hit.target_module, "a");
    assert_eq!(slice(&mods, &hit), "Svc");
    assert!(hit.title.contains("system `a::Svc`"));
}

#[test]
fn self_member_resolves_to_callable() {
    let src = "//! m\n\nsystem S {\n  run(): void { self.helper() }\n  helper(): void {}\n}\n";
    let mods = [("m", src)];
    let ws = workspace(&mods);
    let hit = hit_at(&ws, "m", src, "helper", 1);
    assert_eq!(slice(&mods, &hit), "helper");
    assert!(hit.title.contains("callable `S.helper`"));
}

#[test]
fn node_qualified_member_resolves_to_callable() {
    let src = "//! m\n\nsystem Repo {\n  fetch(): void {}\n}\n\nsystem App {\n  run(): void { Repo.fetch() }\n}\n";
    let mods = [("m", src)];
    let ws = workspace(&mods);
    // click `fetch` in the `Repo.fetch()` call, not the declaration
    let call = src.find("Repo.fetch").unwrap() + "Repo.".len();
    let hit = resolve_at(&ws, "m", src, call as u32 + 1).expect("member resolves");
    assert_eq!(slice(&mods, &hit), "fetch");
    assert!(hit.title.contains("callable `Repo.fetch`"), "{}", hit.title);
}

#[test]
fn qualified_component_member_call_resolves_cross_module() {
    // Mirrors `cli::DocCmd.run(path)` called from another module.
    let cli = "//! cli\n\npublic container Cli;\n\npublic component DocCmd for Cli {\n  public run(path: string): void {\n    self.write(path)\n  }\n  write(p: string): void;\n}\n";
    let ctx = "//! context\n\npublic person Developer {\n  public renderDocs(path: string): void {\n    cli::DocCmd.run(path)\n  }\n}\n";
    let mods = [("cli", cli), ("context", ctx)];
    let ws = workspace(&mods);
    let call = ctx.find("cli::DocCmd.run").unwrap() + "cli::DocCmd.".len();
    let hit = resolve_at(&ws, "context", ctx, call as u32 + 1).expect("member call resolves");
    assert_eq!(hit.target_module, "cli");
    assert_eq!(slice(&mods, &hit), "run");
    assert!(hit.title.contains("callable `DocCmd.run`"), "{}", hit.title);
}

#[test]
fn cross_module_member_resolves() {
    let mods = [
        ("a", "//! a\n\npublic system Svc {\n  op(): void {}\n}\n"),
        (
            "b",
            "//! b\n\nsystem App {\n  run(): void { a::Svc.op() }\n}\n",
        ),
    ];
    let ws = workspace(&mods);
    let src = mods[1].1;
    let call = src.find("a::Svc.op").unwrap() + "a::Svc.".len();
    let hit = resolve_at(&ws, "b", src, call as u32 + 1).expect("cross-module member resolves");
    assert_eq!(hit.target_module, "a");
    assert_eq!(slice(&mods, &hit), "op");
}

#[test]
fn private_node_is_not_reachable_cross_module() {
    // A private node is reachable only within its own module, even by FQN.
    // A cross-module reference resolves nowhere (the checker flags it); a
    // public sibling resolves.
    let mods = [
        ("a", "//! a\n\nsystem Hidden;\npublic system Shown;\n"),
        (
            "b",
            "//! b\n\npublic container P for a::Hidden;\npublic container Q for a::Shown;\n",
        ),
    ];
    let ws = workspace(&mods);
    let b = mods[1].1;
    let hidden = b.find("a::Hidden").unwrap() + "a::".len();
    assert!(
        resolve_at(&ws, "b", b, hidden as u32 + 1).is_none(),
        "private node leaked across modules"
    );
    let shown = b.find("a::Shown").unwrap() + "a::".len();
    let hit = resolve_at(&ws, "b", b, shown as u32 + 1).expect("public node resolves");
    assert_eq!(hit.target_module, "a");
    assert_eq!(slice(&mods, &hit), "Shown");
}

#[test]
fn private_node_resolves_within_its_own_module() {
    // Same-module: a private node IS reachable by its own FQN within its file.
    let mods = [(
        "a",
        "//! a\n\nsystem Hidden;\npublic container C for a::Hidden;\n",
    )];
    let ws = workspace(&mods);
    let a = mods[0].1;
    let h = a.find("for a::Hidden").unwrap() + "for a::".len();
    let hit = resolve_at(&ws, "a", a, h as u32 + 1).expect("same-module private resolves");
    assert_eq!(slice(&mods, &hit), "Hidden");
}

#[test]
fn member_hover_includes_signature_and_docstring() {
    let src = "//! m\n\nsystem S {\n  /// The token stream a parser consumes.\n  tokenize(text: string): string;\n}\n";
    let mods = [("m", src)];
    let ws = workspace(&mods);
    let hit = hit_at(&ws, "m", src, "tokenize", 1);
    let body = hit.body.expect("member body");
    assert!(
        body.contains("tokenize(text: string): string"),
        "signature: {body}"
    );
    assert!(
        body.contains("The token stream a parser consumes."),
        "doc: {body}"
    );
}

#[test]
fn callable_declaration_resolves_to_itself() {
    let src = "//! m\n\nsystem S {\n  op(): void {}\n}\n";
    let mods = [("m", src)];
    let ws = workspace(&mods);
    let hit = hit_at(&ws, "m", src, "op", 1);
    assert_eq!(slice(&mods, &hit), "op");
    assert!(hit.title.contains("callable `S.op`"), "{}", hit.title);
}

#[test]
fn field_declaration_resolves_to_itself() {
    let src = "//! m\n\ndata Rec { id: uuid }\n";
    let mods = [("m", src)];
    let ws = workspace(&mods);
    let hit = hit_at(&ws, "m", src, "id", 1);
    assert_eq!(slice(&mods, &hit), "id");
    assert!(hit.title.contains("field `Rec.id`"), "{}", hit.title);
}

#[test]
fn structural_drill_member_does_not_resolve_but_flat_does() {
    // `Syntax::Lexer.tokenize` is a structural drill (container `Syntax`,
    // component `Lexer`), not the flat FQN `syntax::Lexer`:
    // it resolves nowhere. The flat form resolves.
    let drill = "//! syntax\n\npublic container Syntax;\npublic component Lexer for syntax::Syntax {\n  tokenize(t: string): string;\n}\n\npublic component Parser for syntax::Syntax {\n  go(): void { Syntax::Lexer.tokenize(\"x\") }\n}\n";
    let dmods = [("syntax", drill)];
    let dws = workspace(&dmods);
    let dcall = drill.find("Syntax::Lexer.tokenize").unwrap() + "Syntax::Lexer.".len();
    assert!(
        resolve_at(&dws, "syntax", drill, dcall as u32 + 1).is_none(),
        "a structural drill must not resolve"
    );

    let flat = "//! syntax\n\npublic container Syntax;\npublic component Lexer for syntax::Syntax {\n  tokenize(t: string): string;\n}\n\npublic component Parser for syntax::Syntax {\n  go(): void { syntax::Lexer.tokenize(\"x\") }\n}\n";
    let mods = [("syntax", flat)];
    let ws = workspace(&mods);
    let call = flat.find("syntax::Lexer.tokenize").unwrap() + "syntax::Lexer.".len();
    let hit =
        resolve_at(&ws, "syntax", flat, call as u32 + 1).expect("flat FQN member resolves");
    assert_eq!(slice(&mods, &hit), "tokenize");
    assert!(
        hit.title.contains("callable `Lexer.tokenize`"),
        "{}",
        hit.title
    );
}

#[test]
fn bare_cross_module_type_resolves_when_unique() {
    // `ast: Module` where `Module` is declared in another module: an
    // under-qualified reference still navigates to the one matching shape.
    let mods = [
        ("syntax", "//! syntax\n\npublic data Module;\n"),
        (
            "parser",
            "//! parser\n\npublic data Parsed { ast: Module }\n",
        ),
    ];
    let ws = workspace(&mods);
    let offset = mods[1].1.find("ast: Module").unwrap() + "ast: ".len();
    let hit = resolve_at(&ws, "parser", mods[1].1, offset as u32 + 1).expect("type resolves");
    assert_eq!(hit.target_module, "syntax");
    assert_eq!(slice(&mods, &hit), "Module");
    assert!(hit.title.contains("data `syntax::Module`"), "{}", hit.title);
}

#[test]
fn bare_name_does_not_leniently_resolve_into_a_dependency() {
    // A dependency exports `Money`; the consumer uses it *unqualified*. A cross-workspace reference
    // must be qualified, `dep::core::Money`, so the bare name must NOT resolve into the
    // dependency (otherwise goto jumps into a dep and every same-named token
    // is highlighted). A qualified path still resolves.
    let ws = Workspace::build_with_externals(
        [("m", "//! m\n\npublic data Rec { x: Money }\n")]
            .iter()
            .map(|(f, s)| ((*f).to_owned(), parse(s).ast))
            .collect(),
        [(
            "dep::core",
            "//! dep::core\n\npublic data Money { amount: number }\n",
        )]
        .iter()
        .map(|(f, s)| ((*f).to_owned(), parse(s).ast))
        .collect(),
    );
    let src = "//! m\n\npublic data Rec { x: Money }\n";
    let bare = src.find(": Money").unwrap() as u32 + 2;
    assert!(
        resolve_at(&ws, "m", src, bare).is_none(),
        "bare name wrongly resolved into a dependency"
    );

    // The qualified reference resolves (via the FQN index, unaffected).
    let qsrc = "//! m\n\npublic data Rec { x: dep::core::Money }\n";
    let qoff = qsrc.find("core::Money").unwrap() as u32 + "core::".len() as u32 + 1;
    let hit = resolve_at(&ws, "m", qsrc, qoff).expect("qualified dep ref resolves");
    assert_eq!(hit.target_module, "dep::core");
}

#[test]
fn qualified_dependency_node_and_member_resolve_with_doc() {
    // `pseudoscript::cli::LspHost.run()` from a consumer: the node hover
    // carries the dependency's `///` summary, and the member resolves to its
    // declaration — both reach the external module's retained AST + model.
    let ws = Workspace::build_with_externals(
        [("m", "//! m\n")]
            .iter()
            .map(|(f, s)| ((*f).to_owned(), parse(s).ast))
            .collect(),
        [(
            "pseudoscript::cli",
            "//! cli\npublic system Cli;\n/// The stdio language server host.\npublic component LspHost for pseudoscript::cli::Cli {\n  /// Start the server.\n  public run(): void;\n}\n",
        )]
        .iter()
        .map(|(f, s)| ((*f).to_owned(), parse(s).ast))
        .collect(),
    );

    // Hover the node: title + its doc summary from the dependency's source.
    let src = "//! m\npublic container X for pseudoscript::cli::LspHost;\n";
    let off = src.find("LspHost").unwrap() as u32 + 1;
    let hit = resolve_at(&ws, "m", src, off).expect("dep node resolves");
    assert_eq!(hit.target_module, "pseudoscript::cli");
    assert_eq!(hit.target_fqn, "pseudoscript::cli::LspHost");
    assert_eq!(hit.body.as_deref(), Some("The stdio language server host."));

    // Resolve the member `run` on the dependency node.
    let msrc = "//! m\npublic container X for pseudoscript::cli::Cli {\n  go(): void {\n    pseudoscript::cli::LspHost.run()\n  }\n}\n";
    let moff = msrc.find("LspHost.run").unwrap() as u32 + "LspHost.".len() as u32 + 1;
    let mhit = resolve_at(&ws, "m", msrc, moff).expect("dep member resolves");
    assert_eq!(mhit.target_fqn, "pseudoscript::cli::LspHost::run");
}

#[test]
fn ambiguous_bare_type_is_not_guessed() {
    // Two `Module`s in different modules: a bare reference resolves to
    // neither (the FQN is required to disambiguate).
    let mods = [
        ("a", "//! a\n\npublic data Module;\n"),
        ("b", "//! b\n\npublic data Module;\n"),
        ("c", "//! c\n\npublic data Parsed { ast: Module }\n"),
    ];
    let ws = workspace(&mods);
    let offset = mods[2].1.find("ast: Module").unwrap() + "ast: ".len();
    assert!(resolve_at(&ws, "c", mods[2].1, offset as u32 + 1).is_none());
}

#[test]
fn caret_just_past_identifier_still_resolves() {
    let src = "//! m\n\npublic system Banking;\n";
    let mods = [("m", src)];
    let ws = workspace(&mods);
    // offset at the character just after "Banking"
    let end = (src.find("Banking").unwrap() + "Banking".len()) as u32;
    let hit = resolve_at(&ws, "m", src, end).expect("end caret resolves");
    assert_eq!(slice(&mods, &hit), "Banking");
}

#[test]
fn module_of_takes_everything_before_the_last_separator() {
    assert_eq!(module_of("a::b::C"), "a::b");
    assert_eq!(module_of("C"), "");
}

#[test]
fn enclosing_node_is_the_innermost() {
    let src = "//! m\n\nsystem Outer {\n  container Inner {\n    run(): void { self.go() }\n  }\n}\n";
    let module = parse(src).ast;
    let at = src.find("self").unwrap() as u32;
    assert_eq!(enclosing_node(&module, at).as_deref(), Some("Inner"));
    assert_eq!(enclosing_node(&module, 0), None);
}

#[test]
fn resolve_owner_names_module_and_node() {
    let mods = [
        ("a", "//! a\n\npublic system Svc;\n"),
        ("b", "//! b\n\nsystem Local;\n"),
    ];
    let ws = workspace(&mods);
    let qualified = vec!["a".to_owned(), "Svc".to_owned()];
    assert_eq!(
        resolve_owner(&ws, "b", &qualified),
        Some(("a".to_owned(), "Svc".to_owned()))
    );
    let bare = vec!["Local".to_owned()];
    assert_eq!(
        resolve_owner(&ws, "b", &bare),
        Some(("b".to_owned(), "Local".to_owned()))
    );
    let missing = vec!["Nope".to_owned()];
    assert_eq!(resolve_owner(&ws, "b", &missing), None);
}

#[test]
fn offset_on_no_identifier_resolves_nothing() {
    let src = "//! m\n\npublic system Banking;\n";
    let mods = [("m", src)];
    let ws = workspace(&mods);
    assert!(resolve_at(&ws, "m", src, 0).is_none());
}

#[test]
fn workspace_lists_dependency_modules_and_knows_its_own_path() {
    let ws = Workspace::build_with_externals(
        [("m", "//! m\n\npublic system S;\n")]
            .iter()
            .map(|(f, s)| ((*f).to_owned(), parse(s).ast))
            .collect(),
        [("dep::a", "//! a\n\npublic system A;\n"), ("dep::b", "//! b\n\npublic system B;\n")]
            .iter()
            .map(|(f, s)| ((*f).to_owned(), parse(s).ast))
            .collect(),
    );
    assert_eq!(ws.external_module_fqns(), vec!["dep::a".to_owned(), "dep::b".to_owned()]);
    let entry = &ws.modules()[0];
    assert!(entry.model.is_module_path("m"));
    assert!(!entry.model.is_module_path("dep::a"));
}

#[test]
fn module_of_undoes_joining_a_name() {
    assert_eq!(module_of("a::b::C"), "a::b");
    assert_eq!(module_of("C"), "");
}

#[test]
fn constant_types_keep_the_last_declaration_per_name() {
    let src = "//! m\n\nconstant LIMIT = 10\npublic constant NAME = \"x\"\nconstant LIMIT = true\n";
    let ws = workspace(&[("m", src)]);
    let model = &ws.modules()[0].model;
    assert_eq!(
        model.constant_types(),
        vec![("m::NAME".to_owned(), "string".to_owned()), ("m::LIMIT".to_owned(), "bool".to_owned())]
    );
}
