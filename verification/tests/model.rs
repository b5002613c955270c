use pseudoscript::model::fold::{folding_ranges, FoldKind};
use pseudoscript::model::lines;
use pseudoscript::model::semantic::{semantic_tokens, SemKind, SemToken};

#[test]
fn folds_disclosed_node_and_nested_block() {
    let src = "//! m\n\nsystem S {\n  run() {\n    return self\n  }\n}\n";
    let ranges = folding_ranges(src);
    assert!(ranges.len() >= 2, "{ranges:?}");
    let outer_close = (src.rfind('}').unwrap() + 1) as u32;
    assert!(
        ranges.iter().any(|r| r.start <= src.find('{').unwrap() as u32 && r.end >= outer_close),
        "{ranges:?}"
    );
}

#[test]
fn tags_node_member_and_nested_block_kinds() {
    let src = "//! m\n\nsystem S {\n  run() {\n    if (cond) {\n      return self\n    }\n  }\n}\n";
    let kinds: Vec<FoldKind> = folding_ranges(src).iter().map(|r| r.kind).collect();
    assert_eq!(kinds, vec![FoldKind::Node, FoldKind::Member, FoldKind::Block], "{kinds:?}");
}

#[test]
fn record_folds_as_data() {
    let src = "//! m\n\npublic data D {\n  x: number\n}\n";
    let ranges = folding_ranges(src);
    assert_eq!(ranges.len(), 1);
    assert_eq!(ranges[0].kind, FoldKind::Data);
}

#[test]
fn black_box_decl_has_no_fold() {
    let src = "//! m\n\nsystem S;\n";
    assert!(folding_ranges(src).is_empty());
}

#[test]
fn fold_starts_at_the_declaration_not_its_doc_comment() {
    let src = "//! m\n\n/// doc.\npublic data D {\n  x: number\n}\n";
    let ranges = folding_ranges(src);
    assert_eq!(ranges.len(), 1, "{ranges:?}");
    let decl = src.find("public data D").unwrap() as u32;
    let doc = src.find("/// doc.").unwrap() as u32;
    assert!(ranges[0].start >= decl, "fold reaches into the doc comment: {ranges:?}");
    assert!(ranges[0].start > doc, "{ranges:?}");
}

#[test]
fn brace_less_union_does_not_fold() {
    let src = "//! m\n\npublic data U =\n  | A\n  | B\n";
    assert!(folding_ranges(src).is_empty(), "a `| …` union is not a block fold");
}

#[test]
fn fold_ranges_lie_inside_the_source() {
    let src = "//! m\n\nsystem S {\n  run() {\n    while (x) {\n      return self\n    }\n  }\n}\n";
    let ranges = folding_ranges(src);
    assert_eq!(ranges.len(), 3, "{ranges:?}");
    for r in &ranges {
        assert!(r.start <= r.end && r.end as usize <= src.len(), "{r:?}");
    }
}

#[test]
fn folds_multi_line_node_and_block() {
    let src = "//! m\n\nsystem Bank {\n  open(): void {\n    return\n  }\n}\n";
    let ranges = lines::folding_ranges(src);
    assert!(ranges.len() >= 2, "{ranges:?}");
    assert!(ranges.iter().all(|r| r.end_line > r.start_line));
    assert!(lines::folding_ranges("//! m\n\nsystem S;\n").is_empty());
}

#[test]
fn line_folds_give_zero_based_lines() {
    let src = "//! m\n\nsystem Bank {\n  open(): void {\n    return\n  }\n}\n";
    let ranges = lines::folding_ranges(src);
    let pairs: Vec<(u32, u32)> = ranges.iter().map(|r| (r.start_line, r.end_line)).collect();
    assert_eq!(pairs, vec![(2, 6), (3, 5)]);
}

fn at<'a>(tokens: &'a [SemToken], src: &str, needle: &str) -> &'a SemToken {
    let start = src.find(needle).expect("substring present") as u32;
    tokens.iter().find(|t| t.start == start).unwrap_or_else(|| panic!("no token at {needle:?}"))
}

#[test]
fn line_and_block_comments_are_coloured() {
    let src = "//! m\n\n// a line note\nsystem S { /* inline */ }\n";
    let tokens = semantic_tokens(src);
    assert_eq!(at(&tokens, src, "// a line note").kind, SemKind::Comment);
    assert_eq!(at(&tokens, src, "/* inline */").kind, SemKind::Comment);
    assert_eq!(at(&tokens, src, "//! m").kind, SemKind::Comment);
}

#[test]
fn feature_and_step_keywords_are_coloured() {
    let src = "//! m\n\npublic system S;\n\nfeature Open for S {\n  given \"a user\"\n  when \"they act\"\n  then \"it works\"\n}\n";
    let tokens = semantic_tokens(src);
    assert_eq!(at(&tokens, src, "feature").kind, SemKind::Keyword);
    assert_eq!(at(&tokens, src, "given").kind, SemKind::Keyword);
    assert_eq!(at(&tokens, src, "when").kind, SemKind::Keyword);
    assert_eq!(at(&tokens, src, "then").kind, SemKind::Keyword);
    assert_eq!(at(&tokens, src, "Open").kind, SemKind::Namespace);
}

#[test]
fn option_markers_are_coloured() {
    let src = "//! m\n\nsystem S {\n  f(): void {\n    x: Option<number> = Some(1)\n    y: Option<number> = None\n  }\n}\n";
    let tokens = semantic_tokens(src);
    assert_eq!(at(&tokens, src, "Some").kind, SemKind::Keyword);
    assert_eq!(at(&tokens, src, "None").kind, SemKind::Keyword);
}

#[test]
fn semantic_node_name_is_a_declared_namespace() {
    let src = "//! m\n\npublic system Banking;\n";
    let tokens = semantic_tokens(src);
    let token = at(&tokens, src, "Banking");
    assert_eq!(token.kind, SemKind::Namespace);
    assert!(token.declaration);
    assert_eq!(token.end - token.start, 7);
}

#[test]
fn keyword_and_data_name_colours() {
    let src = "//! m\n\ndata Account { id: uuid }\n";
    let tokens = semantic_tokens(src);
    assert_eq!(at(&tokens, src, "data").kind, SemKind::Keyword);
    let account = at(&tokens, src, "Account");
    assert_eq!(account.kind, SemKind::Class);
    assert!(account.declaration);
    assert_eq!(at(&tokens, src, "id").kind, SemKind::Property);
    assert_eq!(at(&tokens, src, "uuid").kind, SemKind::Type);
}

#[test]
fn callable_param_type_and_calls() {
    let src = "//! m\n\nsystem S {\n  run(name: string): uuid {\n    return self.alloc(name)\n  }\n}\n";
    let tokens = semantic_tokens(src);
    assert_eq!(at(&tokens, src, "run").kind, SemKind::Method);
    assert_eq!(at(&tokens, src, "name").kind, SemKind::Parameter);
    assert_eq!(at(&tokens, src, "string").kind, SemKind::Type);
    assert_eq!(at(&tokens, src, "self").kind, SemKind::Keyword);
    assert_eq!(at(&tokens, src, "alloc").kind, SemKind::Method);
}

#[test]
fn member_access_vs_call() {
    let src = "//! m\n\nsystem S {\n  go() {\n    Repo.run(x)\n  }\n}\n";
    let tokens = semantic_tokens(src);
    assert_eq!(at(&tokens, src, "run").kind, SemKind::Method);
}

#[test]
fn string_literal_and_keyword() {
    let src = "//! m\n\nsystem S {\n  f() {\n    return Err(\"boom\")\n  }\n}\n";
    let tokens = semantic_tokens(src);
    assert_eq!(at(&tokens, src, "\"boom\"").kind, SemKind::String);
    assert_eq!(at(&tokens, src, "Err").kind, SemKind::Keyword);
}

#[test]
fn macro_invocation_is_one_decorator_span() {
    let src = "//! m\n\n#[onevent(a::B)]\nsystem S;\n";
    let tokens = semantic_tokens(src);
    let dec = at(&tokens, src, "#[onevent");
    assert_eq!(dec.kind, SemKind::Decorator);
    let close = (src.find(']').unwrap() + 1) as u32;
    assert!(dec.end >= close, "{dec:?}");
    assert!(!tokens.iter().any(|t| t.start > dec.start && t.start < close), "args must be subsumed: {tokens:?}");
}

#[test]
fn tokens_are_sorted_and_non_overlapping() {
    let src = "//! m\n\ndata Account { id: uuid }\n";
    let tokens = semantic_tokens(src);
    let mut last_end = 0;
    for t in &tokens {
        assert!(t.start >= last_end, "overlap at {t:?}");
        assert!(t.end > t.start, "zero-width at {t:?}");
        last_end = t.end;
    }
}

#[test]
fn tokens_stay_sorted_on_a_busy_source() {
    let src = "//! m\n\n#[tag(x)]\npublic system S {\n  /* c */ run(a: number, b: string): Option<uuid> {\n    if (a) { return Some(self.go(b, 1, \"s\")) }\n    for x in a { y: number = 2 }\n  }\n}\n\ndata U =\n  | A\n  | B\n";
    let tokens = semantic_tokens(src);
    assert!(!tokens.is_empty());
    let mut last_end = 0;
    for t in &tokens {
        assert!(t.start >= last_end && t.end > t.start && t.end as usize <= src.len(), "{t:?}");
        last_end = t.end;
    }
}

#[test]
fn semantic_tokens_lie_inside_the_source() {
    for src in [
        "//! m\n\ndata Account { id: uuid }\n",
        "//! m\n\n/// doc\npublic system S {\n  #[cached]\n  f(a: T): R { x = R from { a } return x.g(1) }\n}\n",
        "//! m\nfeature F for S { given \"x\" when \"y\" then \"z\" }\n// tail comment",
    ] {
        for t in semantic_tokens(src) {
            assert!(t.start < t.end);
            assert!(t.end as usize <= src.len());
        }
    }
}
