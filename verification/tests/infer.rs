use pseudoscript::model::infer::{binding_type_at, local_types, local_types_known, owner_at_dot, type_owner};
use pseudoscript::model::symbols::Workspace;
use pseudoscript::parser::parse;

fn ws(modules: &[(&str, &str)]) -> Workspace {
    Workspace::build(
        modules
            .iter()
            .map(|(f, s)| ((*f).to_owned(), parse(s).ast))
            .collect(),
    )
}

// Mirrors the `syntax` module: `tokens` is annotated `Token[]`, reached
// through the container-qualified `Syntax::Lexer`.
const SYNTAX: &str = "//! syntax\n\n\
    public data Token { kind: string }\n\n\
    public component Lexer for Syntax {\n  tokenize(text: string): Token[];\n}\n\n\
    public component Parser for Syntax {\n  \
    public parse(text: string): string {\n    \
    tokens = Token[] from Syntax::Lexer.tokenize(text)\n    return tokens.kind\n  }\n}\n";

#[test]
fn local_type_reads_the_annotation() {
    let workspace = ws(&[("syntax", SYNTAX)]);
    let locals = local_types(&workspace, "syntax");
    let tokens = locals
        .iter()
        .find(|l| l.name == "tokens")
        .expect("`tokens` typed");
    assert_eq!(tokens.ty, "Token[]");
}

#[test]
fn binding_type_at_resolves_by_name() {
    let workspace = ws(&[("syntax", SYNTAX)]);
    let local = binding_type_at(&workspace, "syntax", "tokens").expect("tokens");
    assert_eq!(local.ty, "Token[]");
}

#[test]
fn owner_at_dot_types_a_binding_receiver() {
    // `tokens` is bound to `Token[]`; the `.` in `tokens.kind` resolves to
    // the `Token` owner so its members can be completed.
    let workspace = ws(&[("syntax", SYNTAX)]);
    let dot = (SYNTAX.find("tokens.kind").unwrap() + "tokens".len()) as u32;
    let owner = owner_at_dot(&workspace, "syntax", SYNTAX, dot).expect("typed receiver");
    assert_eq!(owner, ("syntax".to_owned(), "Token".to_owned()));
}

#[test]
fn local_types_read_literal_and_from_annotations() {
    let src = "//! m\n\nsystem S {\n  go() {\n    n: number = 42\n    p: Parsed = Parsed from { n }\n  }\n}\n\npublic data Parsed { x: number }\n";
    let workspace = ws(&[("m", src)]);
    let locals = local_types(&workspace, "m");
    assert_eq!(locals.iter().find(|l| l.name == "n").unwrap().ty, "number");
    assert_eq!(locals.iter().find(|l| l.name == "p").unwrap().ty, "Parsed");
}

#[test]
fn type_owner_strips_arrays_and_generics() {
    let workspace = ws(&[("a", "//! a\n\npublic data T;\n"), ("b", "//! b\n")]);
    assert_eq!(
        type_owner(&workspace, "b", "a::T<U>[]"),
        Some(("a".to_owned(), "T".to_owned()))
    );
    assert_eq!(type_owner(&workspace, "b", "a::Missing"), None);
}

#[test]
fn for_binding_takes_the_element_type_and_operators_type() {
    let src = "//! m\n\nsystem S {\n  go() {\n    xs = Item[] from { }\n    for (x in xs) { }\n    b = 1 < 2\n    c = 1 + 2\n    d = !b\n  }\n}\n\npublic data Item;\n";
    let workspace = ws(&[("m", src)]);
    let locals = local_types(&workspace, "m");
    let ty = |n: &str| locals.iter().find(|l| l.name == n).map(|l| l.ty.clone());
    assert_eq!(ty("xs").as_deref(), Some("Item[]"));
    assert_eq!(ty("b").as_deref(), Some("bool"));
    assert_eq!(ty("c").as_deref(), Some("number"));
    assert_eq!(ty("d").as_deref(), Some("bool"));
}

#[test]
fn chain_rooted_at_a_binding_is_not_collectable() {
    let src = "//! m\n\nsystem S {\n  go() {\n    a = 1\n    b = a.x\n  }\n}\n";
    let workspace = ws(&[("m", src)]);
    assert!(!local_types_known(&workspace, "m"));
    let ok = ws(&[("syntax", SYNTAX)]);
    assert!(local_types_known(&ok, "syntax"));
}
