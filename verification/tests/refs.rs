use pseudoscript::model::symbols::Workspace;
use pseudoscript::parser::parse;
use pseudoscript::refs::{highlights, references};

fn ws(modules: &[(&str, &str)]) -> Workspace {
    Workspace::build(modules.iter().map(|(f, s)| ((*f).to_owned(), parse(s).ast)).collect())
}

fn owned(modules: &[(&str, &str)]) -> Vec<(String, String)> {
    modules
        .iter()
        .map(|(f, s)| ((*f).to_owned(), (*s).to_owned()))
        .collect()
}

#[test]
fn references_span_files_and_can_exclude_declaration() {
    let mods = [
        ("a", "//! a\n\npublic system Svc;\n"),
        ("b", "//! b\n\npublic container C for a::Svc;\n"),
    ];
    let workspace = ws(&mods);
    let owned = owned(&mods);
    // cursor on the declaration of Svc in module a
    let offset = mods[0].1.find("Svc").unwrap() as u32;

    let with_decl = references(&workspace, &owned, "a", mods[0].1, offset, true);
    assert_eq!(with_decl.len(), 2, "decl + cross-file use: {with_decl:?}");

    let without = references(&workspace, &owned, "a", mods[0].1, offset, false);
    assert_eq!(without.len(), 1, "use only: {without:?}");
    assert_eq!(without[0].fqn, "b");
}

#[test]
fn references_to_an_operation_include_decl_and_calls() {
    // An operation's declaration and its `self.`-call are the same symbol.
    let src = "//! m\n\nsystem S {\n  run() { self.op() }\n  op() {}\n}\n";
    let mods = [("m", src)];
    let workspace = ws(&mods);
    let owned = owned(&mods);
    // cursor on the `op` declaration (the last `op(` in source)
    let offset = src.rfind("op(").unwrap() as u32;

    let with_decl = references(&workspace, &owned, "m", src, offset, true);
    assert_eq!(with_decl.len(), 2, "decl + self-call: {with_decl:?}");

    let without = references(&workspace, &owned, "m", src, offset, false);
    assert_eq!(without.len(), 1, "the call only: {without:?}");
}

#[test]
fn cross_module_operation_references_span_files() {
    let mods = [
        ("a", "//! a\n\npublic system Svc {\n  op() {}\n}\n"),
        ("b", "//! b\n\nsystem App {\n  run() { a::Svc.op() }\n}\n"),
    ];
    let workspace = ws(&mods);
    let owned = owned(&mods);
    // cursor on the `op` declaration in module a
    let offset = mods[0].1.find("op(").unwrap() as u32;
    let refs = references(&workspace, &owned, "a", mods[0].1, offset, true);
    assert_eq!(refs.len(), 2, "decl in a + call in b: {refs:?}");
    assert!(refs.iter().any(|r| r.fqn == "b"), "call site in b: {refs:?}");
}

#[test]
fn highlights_are_confined_to_the_active_file() {
    let mods = [
        ("a", "//! a\n\npublic system Svc;\n"),
        ("b", "//! b\n\npublic container C for a::Svc;\n"),
    ];
    let workspace = ws(&mods);
    let offset = mods[1].1.find("Svc").unwrap() as u32 + 1;
    let spans = highlights(&workspace, "b", mods[1].1, offset);
    assert_eq!(spans.len(), 1, "only the reference in b");
}

#[test]
fn references_report_exact_spans_in_source_order() {
    let src = "//! m\n\nsystem S {\n  run() { self.op() }\n  op() {}\n}\n";
    let mods = [("m", src)];
    let workspace = ws(&mods);
    let owned = owned(&mods);
    let decl = src.rfind("op(").unwrap() as u32;
    let call = src.find("op(").unwrap() as u32;
    let refs = references(&workspace, &owned, "m", src, decl, true);
    let spans: Vec<(u32, u32)> = refs.iter().map(|r| (r.span.start, r.span.end)).collect();
    assert_eq!(spans, vec![(call, call + 2), (decl, decl + 2)]);
    assert!(refs.iter().all(|r| r.fqn == "m"));
}

#[test]
fn no_symbol_under_the_cursor_gives_no_references() {
    let src = "//! m\n\nsystem S;\n";
    let mods = [("m", src)];
    let workspace = ws(&mods);
    let owned = owned(&mods);
    assert!(references(&workspace, &owned, "m", src, 0, true).is_empty());
    assert!(highlights(&workspace, "m", src, 0).is_empty());
}
