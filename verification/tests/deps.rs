use pseudoscript::model::deps::{
    normalize_source, repo_slug, resolve_dependency_modules, sanitize_rel_path, DepErrorKind, DepFile, DepSpec,
    Lock, LockEdge, PackageId, Rev, Source,
};

fn spec(git: Option<&str>, tag: Option<&str>, path: Option<&str>) -> DepSpec {
    DepSpec {
        git: git.map(|s| s.to_owned()),
        tag: tag.map(|s| s.to_owned()),
        rev: None,
        branch: None,
        path: path.map(|s| s.to_owned()),
    }
}

#[test]
fn selector_rejects_multiple_flags() {
    assert!(Rev::from_flags(Some("v1".into()), Some("abc".into()), None).is_err());
    assert_eq!(Rev::from_flags(None, None, None).unwrap(), Rev::Default);
    assert_eq!(Rev::from_flags(Some("v1".into()), None, None).unwrap(), Rev::Tag("v1".into()));
}

#[test]
fn local_source_when_path_and_no_git() {
    let s = spec(None, None, Some("../shared"));
    assert_eq!(s.source("shared").unwrap(), Source::Local { path: "../shared".into() });
}

#[test]
fn no_source_is_rejected() {
    let s = spec(None, Some("v1"), None);
    let err = s.source("dep").unwrap_err();
    assert_eq!(err.kind, DepErrorKind::NoSource);
    assert!(err.message.contains("declares no source"), "{}", err.message);
}

#[test]
fn local_source_rejects_revision_selector() {
    let s = spec(None, Some("v1"), Some("../x"));
    let err = s.source("dep").unwrap_err();
    assert_eq!(err.kind, DepErrorKind::LocalWithSelector);
    assert!(err.message.contains("takes no"), "{}", err.message);
}

#[test]
fn path_traversal_is_rejected() {
    assert!(sanitize_rel_path("../escape").is_err());
    assert!(sanitize_rel_path("a/../../b").is_err());
    assert!(sanitize_rel_path("/abs").is_err());
    assert!(sanitize_rel_path("/model/").is_err());
    assert_eq!(sanitize_rel_path("model/core").unwrap(), "model/core");
    assert_eq!(sanitize_rel_path("").unwrap(), "");
}

#[test]
fn git_dep_rejects_traversal_path() {
    let s = spec(Some("https://x/y"), None, Some("../../etc"));
    assert!(s.source("dep").is_err());
}

#[test]
fn git_source_carries_selector_and_clean_sub() {
    let s = spec(Some("https://x/acme/banking.git"), Some("v2.1.0"), Some("model/"));
    assert_eq!(
        s.source("banking").unwrap(),
        Source::Git {
            url: "https://x/acme/banking.git".into(),
            selector: Rev::Tag("v2.1.0".into()),
            sub: "model".into(),
        }
    );
    let u = spec(Some("https://x/acme/utils"), None, None);
    assert_eq!(
        u.source("utils").unwrap(),
        Source::Git { url: "https://x/acme/utils".into(), selector: Rev::Default, sub: String::new() }
    );
}

#[test]
fn multiple_selectors_on_a_git_dep_are_rejected() {
    let mut s = spec(Some("https://x/y"), Some("v1"), None);
    s.branch = Some("main".into());
    assert_eq!(s.source("dep").unwrap_err().kind, DepErrorKind::MultipleSelectors);
}

#[test]
fn absolute_local_path_is_rejected() {
    let s = spec(None, None, Some("/abs/shared"));
    assert_eq!(s.source("dep").unwrap_err().kind, DepErrorKind::AbsoluteLocalPath);
    let e = spec(None, None, Some(""));
    assert_eq!(e.source("dep").unwrap_err().kind, DepErrorKind::EmptyLocalPath);
}

#[test]
fn sanitize_reports_each_kind() {
    assert_eq!(sanitize_rel_path("/abs").unwrap_err().kind, DepErrorKind::AbsolutePath);
    assert_eq!(sanitize_rel_path("a/../../b").unwrap_err().kind, DepErrorKind::Traversal);
    assert_eq!(sanitize_rel_path("./a//b/").unwrap(), "./a//b");
}

#[test]
fn rev_flags_round_trip() {
    for r in [Rev::Default, Rev::Tag("v1".into()), Rev::Branch("main".into()), Rev::Commit("abc".into())] {
        let (t, c, b) = r.to_flags();
        assert_eq!(Rev::from_flags(t, c, b).unwrap(), r);
    }
}

#[test]
fn repo_slug_and_normalize() {
    assert_eq!(repo_slug("https://github.com/acme/banking.git"), "banking");
    assert_eq!(repo_slug("git@github.com:acme/banking.git"), "banking");
    assert_eq!(normalize_source("https://github.com/acme/banking.git/"), "https://github.com/acme/banking");
}

#[test]
fn package_slug_is_identity_unique() {
    let base = PackageId {
        source: "https://x/acme/banking".into(),
        rev: "0123456789abcdef".into(),
        path: String::new(),
    };
    let sub = PackageId { path: "model".into(), ..base.clone() };
    assert_eq!(base.slug(), "banking-0123456789ab");
    assert_eq!(sub.slug(), "banking-model-0123456789ab");
    assert_ne!(base.slug(), sub.slug());
}

#[test]
fn package_slug_replaces_slashes_in_path() {
    let id = PackageId { source: "https://x/acme/banking.git".into(), rev: "abc".into(), path: "a/b".into() };
    assert_eq!(id.slug(), "banking-a_b-abc");
}

fn banking_lock() -> Lock {
    Lock {
        version: 1,
        root: vec![LockEdge {
            name: "banking".into(),
            source: "https://x/acme/banking".into(),
            rev: "0123456789abcdef".into(),
            path: "model".into(),
        }],
        packages: vec![],
    }
}

#[test]
fn resolver_prefixes_git_modules_by_slug() {
    let lock = banking_lock();
    let vendored =
        vec![("banking-model-0123456789ab".to_owned(), DepFile::new("core", "//! c\npublic system Ledger;\n"))];
    let modules = resolve_dependency_modules(&lock, &vendored, &vec![]);
    assert_eq!(modules.len(), 1);
    assert_eq!(modules[0].fqn, "banking::core");
    assert!(modules[0].source.contains("Ledger"));
}

#[test]
fn resolver_prefixes_local_modules_by_name() {
    let local = vec![("shared".to_owned(), DepFile::new("money", "//! m\npublic data Money { amount: number }\n"))];
    let modules = resolve_dependency_modules(&Lock::default(), &vec![], &local);
    assert_eq!(modules.len(), 1);
    assert_eq!(modules[0].fqn, "shared::money");
}

#[test]
fn resolver_empty_without_lock_or_locals() {
    assert!(resolve_dependency_modules(&Lock::default(), &vec![], &vec![]).is_empty());
}

#[test]
fn resolver_ignores_unmatched_vendored_slug() {
    let lock = Lock { version: 1, root: vec![], packages: vec![] };
    let vendored = vec![("stale-abc123".to_owned(), DepFile::new("x", "//! x\n"))];
    assert!(resolve_dependency_modules(&lock, &vendored, &vec![]).is_empty());
}

#[test]
fn resolver_puts_git_modules_before_local_ones() {
    let lock = banking_lock();
    let vendored = vec![
        ("banking-model-0123456789ab".to_owned(), DepFile::new("core", "a")),
        ("other-1".to_owned(), DepFile::new("skip", "b")),
        ("banking-model-0123456789ab".to_owned(), DepFile::new("ledger::entry", "c")),
    ];
    let local = vec![("shared".to_owned(), DepFile::new("money", "d"))];
    let fqns: Vec<String> =
        resolve_dependency_modules(&lock, &vendored, &local).into_iter().map(|m| m.fqn).collect();
    assert_eq!(fqns, vec!["banking::core", "banking::ledger::entry", "shared::money"]);
}

#[test]
fn source_errors_carry_exact_messages() {
    let err = spec(None, Some("v1"), None).source("n").unwrap_err();
    assert_eq!(err.message, "dependency `n` declares no source: set `git` or `path`");
    let err = spec(None, Some("v1"), Some("../x")).source("n").unwrap_err();
    assert_eq!(err.message, "dependency `n`: a local `path` source takes no `tag`/`rev`/`branch`");
    let err = spec(None, None, Some("/abs/")).source("n").unwrap_err();
    assert_eq!(err.kind, DepErrorKind::AbsoluteLocalPath);
    assert_eq!(err.message, "dependency `n`: local `path` `/abs` must be relative to the manifest");
}

#[test]
fn sanitize_rel_path_errors_carry_exact_messages() {
    assert_eq!(
        sanitize_rel_path("/abs").unwrap_err().message,
        "`/abs` must be a relative path inside the repo, not absolute"
    );
    assert_eq!(
        sanitize_rel_path("a/../../b").unwrap_err().message,
        "`a/../../b` must be a relative path inside the repo, without `..` or a leading `/`"
    );
}

#[test]
fn selector_keys_are_distinct_per_selector() {
    let keys = [
        Rev::Tag("v1".into()).key(),
        Rev::Branch("v1".into()).key(),
        Rev::Commit("v1".into()).key(),
        Rev::Default.key(),
    ];
    assert_eq!(keys[0], "tag:v1");
    assert_eq!(keys[1], "branch:v1");
    assert_eq!(keys[2], "rev:v1");
    assert_eq!(keys[3], "default");
    for i in 0..keys.len() {
        for j in 0..keys.len() {
            assert_eq!(i == j, keys[i] == keys[j]);
        }
    }
}

#[test]
fn cleaning_a_clean_path_changes_nothing() {
    for p in ["model/core/", "a//b/", "", "x"] {
        let once = sanitize_rel_path(p).unwrap();
        assert_eq!(sanitize_rel_path(&once).unwrap(), once);
    }
}
