use pseudoscript::project::{module_fqn, normalize_segment, path_fqn, workspace_manifest, LOCKFILE, MANIFEST, VENDOR_DIR};

#[test]
fn fqn_root_level_file_is_its_stem() {
    assert_eq!(module_fqn("pseudoscript.pds").as_deref(), Some("pseudoscript"));
}

#[test]
fn fqn_one_directory_joins_with_double_colon() {
    assert_eq!(module_fqn("banking/core.pds").as_deref(), Some("banking::core"));
}

#[test]
fn fqn_nested_directories_join_each_segment() {
    assert_eq!(module_fqn("banking/internal/ledger.pds").as_deref(), Some("banking::internal::ledger"));
}

#[test]
fn fqn_normalises_hyphens_to_underscores_per_segment() {
    assert_eq!(module_fqn("web-ide/file-tree.pds").as_deref(), Some("web_ide::file_tree"));
}

#[test]
fn fqn_without_a_filename_is_none() {
    assert_eq!(module_fqn(""), None);
    assert_eq!(module_fqn("a/.."), None);
    assert_eq!(module_fqn(".hidden").as_deref(), Some(".hidden"));
    assert_eq!(module_fqn("a.b.pds").as_deref(), Some("a.b"));
}

#[test]
fn normalize_segment_replaces_every_hyphen() {
    assert_eq!(normalize_segment("a-b-c"), "a_b_c");
    assert_eq!(normalize_segment("plain"), "plain");
}

#[test]
fn path_fqn_joins_components() {
    assert_eq!(path_fqn("/proj", "/proj/banking/core.pds").as_deref(), Some("banking::core"));
    assert_eq!(path_fqn("/proj", "/proj/top.pds").as_deref(), Some("top"));
}

#[test]
fn path_fqn_normalises_hyphens() {
    assert_eq!(path_fqn("/proj", "/proj/web-ide/file-tree.pds").as_deref(), Some("web_ide::file_tree"));
}

#[test]
fn path_fqn_outside_the_root_is_none() {
    assert_eq!(path_fqn("/proj", "/other/x.pds"), None);
    assert_eq!(path_fqn("/proj/deep", "/proj/x.pds"), None);
    assert_eq!(path_fqn("proj", "/proj/x.pds"), None);
    assert_eq!(path_fqn("/proj", "/proj"), None);
}

#[test]
fn workspace_manifest_joins_sub_and_manifest() {
    assert_eq!(workspace_manifest("/tmp/pkg", ""), "/tmp/pkg/pds.toml");
    assert_eq!(workspace_manifest("/tmp/pkg/", "model"), "/tmp/pkg/model/pds.toml");
    assert_eq!(workspace_manifest("/tmp/pkg", "/abs"), "/abs/pds.toml");
    assert_eq!((MANIFEST, LOCKFILE, VENDOR_DIR), ("pds.toml", "pds.lock", "pds_modules"));
}

#[test]
fn leading_current_dir_and_root_stay_as_components() {
    assert_eq!(module_fqn("./x.pds").as_deref(), Some(".::x"));
    assert_eq!(module_fqn("/a/b.pds").as_deref(), Some("/::a::b"));
    assert_eq!(module_fqn("a/./b.pds").as_deref(), Some("a::b"));
    assert_eq!(module_fqn("."), None);
    assert_eq!(module_fqn("/"), None);
}
