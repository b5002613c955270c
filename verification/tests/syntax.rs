use pseudoscript::ast::StepKind;
use pseudoscript::diagnostic::Diagnostic;
use pseudoscript::parser::parse;
use pseudoscript::token::TokenKind;

#[test]
fn stray_semicolon_in_block_terminates() {
    let parsed = parse("public system S { f() { self.g(); } }");
    assert!(
        parsed.diagnostics.iter().any(Diagnostic::is_error),
        "a stray `;` is reported"
    );
    assert_eq!(parsed.ast.items.len(), 1);
}

#[test]
fn stray_token_in_body_terminates() {
    let parsed = parse("public system S { = }");
    assert!(parsed.diagnostics.iter().any(Diagnostic::is_error));
}

#[test]
fn recovery_stops_at_constant() {
    let parsed = parse("}\nconstant LIMIT = 10\n");
    assert!(
        parsed.diagnostics.iter().any(Diagnostic::is_error),
        "the stray token is reported"
    );
    assert_eq!(
        parsed.ast.items.len(),
        1,
        "the constant survives recovery: {:?}",
        parsed.ast.items
    );
}

#[test]
fn labelled_from_source_does_not_cascade() {
    let parsed = parse(
        "public system S { f(): T { return T from { name: \"x\" } } g(): T { return Ok } }",
    );
    let errors: Vec<&str> = parsed
        .diagnostics
        .iter()
        .filter(|d| d.is_error())
        .map(|d| d.message.as_str())
        .collect();
    assert!(
        errors
            .iter()
            .any(|m| m.contains("`from` takes bare references")),
        "the source set error names the fix: {errors:?}"
    );
    assert!(
        !errors.iter().any(|m| m.contains("top level")),
        "no top-level cascade: {errors:?}"
    );
    assert_eq!(errors.len(), 1, "exactly one error: {errors:?}");
    assert_eq!(parsed.ast.items.len(), 1);
}

#[test]
fn labelled_nested_from_recovers_to_matching_brace() {
    let parsed =
        parse("public system S { f(a: T): T { x = T from { m: a from { n } } return Ok } }");
    let errors: Vec<&str> = parsed
        .diagnostics
        .iter()
        .filter(|d| d.is_error())
        .map(|d| d.message.as_str())
        .collect();
    assert!(
        !errors.iter().any(|m| m.contains("top level")),
        "no top-level cascade from a nested labelled from: {errors:?}"
    );
    assert_eq!(parsed.ast.items.len(), 1);
}

#[test]
fn keywords_const_matches_recognizer() {
    for kw in TokenKind::KEYWORDS {
        assert!(TokenKind::keyword(kw).is_some(), "missing keyword: {kw}");
    }
    for prim in TokenKind::PRIMITIVE_TYPES {
        assert!(
            TokenKind::keyword(prim).is_none(),
            "primitive must lex as ident: {prim}"
        );
    }
}

#[test]
fn parse_at_eof_inside_if_does_not_panic() {
    let src = "public system S { f(): void { if (x)";
    let parsed = parse(src);
    assert_eq!(parsed.ast.items.len(), 1);
    assert!(parsed.ast.span.end as usize <= src.len());
}

#[test]
fn parse_reports_spans_inside_source() {
    let src = "system S { f(: }\n#[bad\n";
    let parsed = parse(src);
    assert!(!parsed.diagnostics.is_empty());
    for d in &parsed.diagnostics {
        assert!(d.is_error());
        assert!(d.span.end as usize <= src.len());
    }
    assert!(parsed.ast.span.end as usize <= src.len());
}

#[test]
fn step_keywords_round_trip_through_the_lexer() {
    for k in [StepKind::Given, StepKind::When, StepKind::Then, StepKind::And, StepKind::But] {
        let kind = TokenKind::keyword(k.keyword()).expect("a keyword");
        assert_eq!(StepKind::from_token(kind), Some(k));
    }
    assert_eq!(TokenKind::keyword("number"), None);
    assert!(TokenKind::KEYWORDS.iter().all(|k| TokenKind::keyword(k).is_some()));
}

#[test]
fn black_box_declarations_parse_without_diagnostics() {
    let parsed = parse("//! b\n\npublic container C for a::Hidden;\nperson P;\nsystem S;\n");
    assert!(parsed.diagnostics.is_empty());
    assert_eq!(parsed.ast.items.len(), 3);
    match &parsed.ast.items[0] {
        pseudoscript::ast::Item::Decl(d) => {
            assert!(d.is_public);
            match &d.kind {
                pseudoscript::ast::DeclKind::Container(n) => {
                    assert_eq!(n.name.name, "C");
                    assert!(n.body.is_none());
                    let parent = n.parent.as_ref().unwrap();
                    let names: Vec<&str> = parent.segments.iter().map(|s| s.name.as_str()).collect();
                    assert_eq!(names, ["a", "Hidden"]);
                }
                other => panic!("expected a container, got {other:?}"),
            }
        }
        other => panic!("expected a declaration, got {other:?}"),
    }
}

#[test]
fn a_malformed_black_box_is_reported() {
    let parsed = parse("//! b\n\ncontainer C;\n");
    assert!(parsed.diagnostics.iter().any(Diagnostic::is_error));
}

#[test]
fn plain_data_declarations_parse_without_diagnostics() {
    let parsed = parse("//! m\npublic data D {\n  id: uuid,\n  owner: a::Person\n}\ndata U =\n  | A\n  | B\ndata B;\n");
    assert!(parsed.diagnostics.is_empty());
    assert_eq!(parsed.ast.items.len(), 3);
    match &parsed.ast.items[0] {
        pseudoscript::ast::Item::Decl(d) => match &d.kind {
            pseudoscript::ast::DeclKind::Data(data) => {
                assert_eq!(data.name.name, "D");
                match &data.body {
                    pseudoscript::ast::DataBody::Record(fields) => {
                        assert_eq!(fields.len(), 2);
                        assert_eq!(fields[1].name.name, "owner");
                        assert_eq!(fields[1].ty.name.segments.len(), 2);
                    }
                    other => panic!("expected a record, got {other:?}"),
                }
            }
            other => panic!("expected data, got {other:?}"),
        },
        other => panic!("expected a declaration, got {other:?}"),
    }
    match &parsed.ast.items[1] {
        pseudoscript::ast::Item::Decl(d) => match &d.kind {
            pseudoscript::ast::DeclKind::Data(data) => match &data.body {
                pseudoscript::ast::DataBody::Union(variants) => {
                    let names: Vec<&str> = variants.iter().map(|v| v.name.name.as_str()).collect();
                    assert_eq!(names, ["A", "B"]);
                }
                other => panic!("expected a union, got {other:?}"),
            },
            other => panic!("expected data, got {other:?}"),
        },
        other => panic!("expected a declaration, got {other:?}"),
    }
}

#[test]
fn documented_constants_and_nodes_parse_without_diagnostics() {
    let parsed = parse("//! m\n/// The limit.\nconstant LIMIT = 10\n/// A bank.\npublic system Bank;\n");
    assert!(parsed.diagnostics.is_empty());
    assert_eq!(parsed.ast.items.len(), 2);
    match &parsed.ast.items[0] {
        pseudoscript::ast::Item::Decl(d) => match &d.kind {
            pseudoscript::ast::DeclKind::Constant(c) => {
                assert_eq!(c.name.name, "LIMIT");
                match &c.value {
                    pseudoscript::ast::Literal::Number { raw, .. } => assert_eq!(raw, "10"),
                    other => panic!("expected a number, got {other:?}"),
                }
            }
            other => panic!("expected a constant, got {other:?}"),
        },
        other => panic!("expected a declaration, got {other:?}"),
    }
    match &parsed.ast.items[1] {
        pseudoscript::ast::Item::Decl(d) => assert!(d.is_public),
        other => panic!("expected a declaration, got {other:?}"),
    }
}

#[test]
fn nodes_with_black_box_callables_parse_without_diagnostics() {
    let parsed = parse(
        "//! m\npublic container Api for bank::Core {\n  /// Opens an account.\n  public open(owner: Person, kind: a::Kind): Account;\n  close(): Result;\n}\n",
    );
    assert!(parsed.diagnostics.is_empty());
    assert_eq!(parsed.ast.items.len(), 1);
    match &parsed.ast.items[0] {
        pseudoscript::ast::Item::Decl(d) => match &d.kind {
            pseudoscript::ast::DeclKind::Container(n) => {
                let body = n.body.as_ref().unwrap();
                assert_eq!(body.len(), 2);
                match &body[0] {
                    pseudoscript::ast::BodyMember::Callable(c) => {
                        assert_eq!(c.name.name, "open");
                        assert!(c.is_public);
                        assert_eq!(c.params.len(), 2);
                        assert_eq!(c.params[1].name.name, "kind");
                        assert!(c.body.is_none());
                    }
                    other => panic!("expected a callable, got {other:?}"),
                }
            }
            other => panic!("expected a container, got {other:?}"),
        },
        other => panic!("expected a declaration, got {other:?}"),
    }
}
