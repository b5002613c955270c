use pseudoscript::convert::Position;
use pseudoscript::outline::{document_symbols, OutlineKind};

#[test]
fn outline_nests_members_under_node() {
    let src = "//! m\n\nsystem Bank {\n  open(): void {}\n}\n\ndata Acct { id: uuid }\n";
    let symbols = document_symbols(src);
    let bank = symbols.iter().find(|s| s.name == "Bank").expect("Bank");
    assert_eq!(bank.kind, OutlineKind::Namespace);
    let children = bank.children.as_ref().expect("members");
    assert_eq!(children[0].name, "open");
    assert_eq!(children[0].kind, OutlineKind::Method);

    let acct = symbols.iter().find(|s| s.name == "Acct").expect("Acct");
    assert_eq!(acct.kind, OutlineKind::Class);
    assert_eq!(acct.children.as_ref().unwrap()[0].name, "id");
}

#[test]
fn outline_ranges_are_editor_positions() {
    let src = "//! m\n\nsystem Bank {\n  open(): void {}\n}\n";
    let symbols = document_symbols(src);
    let bank = &symbols[0];
    assert_eq!(bank.range.end, Position::new(4, 1));
    assert_eq!(bank.selection_range.start, Position::new(2, 7));
    assert_eq!(bank.selection_range.end, Position::new(2, 11));
    let open = &bank.children.as_ref().unwrap()[0];
    assert_eq!(open.selection_range.start, Position::new(3, 2));
    assert!(open.children.is_none());
}

#[test]
fn outline_lists_features_constants_and_variants() {
    let src = "//! m\n\nsystem S;\nconstant LIMIT = 3\ndata E =\n  | A\n  | B\n\nfeature Pay for S {\n  given \"a\"\n  when \"w\"\n  then \"t\"\n}\n";
    let symbols = document_symbols(src);
    let kinds: Vec<(String, OutlineKind)> = symbols.iter().map(|s| (s.name.clone(), s.kind)).collect();
    assert_eq!(
        kinds,
        vec![
            ("S".to_owned(), OutlineKind::Namespace),
            ("LIMIT".to_owned(), OutlineKind::Constant),
            ("E".to_owned(), OutlineKind::Class),
            ("Pay".to_owned(), OutlineKind::Event),
        ]
    );
    let variants: Vec<&str> = symbols[2].children.as_ref().unwrap().iter().map(|c| c.name.as_str()).collect();
    assert_eq!(variants, vec!["A", "B"]);
    assert_eq!(symbols[2].children.as_ref().unwrap()[0].kind, OutlineKind::EnumMember);
}
