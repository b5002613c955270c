use pseudoscript::analysis::{definition, hover, inlay_hints, renameable, workspace_symbols};
use pseudoscript::convert::Position;
use pseudoscript::model::symbols::Workspace;
use pseudoscript::parser::parse;

fn workspace(modules: &[(&str, &str)]) -> Workspace {
    Workspace::build(modules.iter().map(|(f, s)| ((*f).to_owned(), parse(s).ast)).collect())
}

#[test]
fn definition_jumps_across_modules() {
    let mods = [
        ("a", "//! a\n\npublic system Svc;\n"),
        ("b", "//! b\n\npublic container C for a::Svc;\n"),
    ];
    let ws = workspace(&mods);
    // line 2 of b, on `Svc`
    let col = mods[1].1.lines().nth(2).unwrap().find("Svc").unwrap() as u32 + 1;
    let def = definition(&ws, "b", mods[1].1, Position::new(2, col)).expect("resolves");
    assert_eq!(def.fqn, "a");
    let at = mods[0].1.find("Svc").unwrap() as u32;
    assert_eq!((def.span.start, def.span.end), (at, at + 3));
    let range = renameable(&ws, "b", mods[1].1, Position::new(2, col)).expect("renameable");
    assert_eq!(range.start.line, 2);
    assert_eq!(range.end.character - range.start.character, 3);
}

#[test]
fn nothing_resolves_on_blank_space() {
    let src = "//! m\n\nsystem S;\n";
    let ws = workspace(&[("m", src)]);
    assert!(definition(&ws, "m", src, Position::new(1, 0)).is_none());
    assert!(renameable(&ws, "m", src, Position::new(1, 0)).is_none());
    assert!(hover(&ws, "m", src, Position::new(1, 0)).is_none());
}

#[test]
fn hover_shows_title_in_bold() {
    let src = "//! m\n\n/// The bank.\npublic system Bank;\n";
    let ws = workspace(&[("m", src)]);
    let h = hover(&ws, "m", src, Position::new(3, 15)).expect("hover");
    assert!(h.value.starts_with("**"), "{}", h.value);
    assert_eq!(h.range.start.line, 3);
}

#[test]
fn inlay_hint_after_typed_binding() {
    let src = "//! m\n\ndata Account { id: uuid }\n\nsystem Repo {\n  fetch(x: uuid): Account;\n}\n\nsystem S {\n  run(): void {\n    a = Repo.fetch(x)\n  }\n}\n";
    let ws = workspace(&[("m", src)]);
    let hints = inlay_hints(&ws, "m", src);
    assert_eq!(hints.len(), 1);
    assert_eq!(hints[0].label, ": Account");
    assert_eq!((hints[0].position.line, hints[0].position.character), (10, 5));
}

#[test]
fn workspace_search_matches_by_substring() {
    let modules = [("banking", "//! banking\n\npublic system Ledger;\n")];
    let ws = workspace(&modules);
    let located = vec![("banking".to_owned(), modules[0].1.to_owned())];
    let hits = workspace_symbols(&ws, "ledg", &located);
    assert_eq!(hits.len(), 1);
    assert_eq!(hits[0].name, "Ledger");
}

#[test]
fn workspace_search_empty_query_and_unlocated_modules() {
    let modules = [
        ("banking", "//! banking\n\npublic system Ledger;\npublic data Entry { x: number }\n"),
        ("other", "//! other\n\npublic system Far;\n"),
    ];
    let ws = workspace(&modules);
    let located = vec![("banking".to_owned(), modules[0].1.to_owned())];
    let hits = workspace_symbols(&ws, "", &located);
    let names: Vec<&str> = hits.iter().map(|h| h.name.as_str()).collect();
    assert_eq!(names, vec!["Ledger", "Entry"]);
    assert!(!hits[0].is_class && hits[1].is_class);
    assert_eq!(hits[0].container_name, "banking::Ledger");
    assert_eq!(hits[0].range.start.line, 2);
    assert!(workspace_symbols(&ws, "LEDGER", &located).len() == 1);
    assert!(workspace_symbols(&ws, "zzz", &located).is_empty());
}
