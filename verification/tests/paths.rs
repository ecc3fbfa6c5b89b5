use file_transfer::paths::{
    canonicalize_within_root, classify_url, components_of, is_within, join, parent_of, path_probe, safe_path, PathFacts,
    PathProbe, UrlTarget,
};

const ROOT: &str = "/tmp/file-transfer-test-1";

fn facts(exists: bool, canonical: Option<&str>, canonical_parent: Option<&str>) -> PathFacts {
    PathFacts {
        exists,
        leaf_is_symlink: false,
        canonical: canonical.map(|s| s.to_string()),
        canonical_parent: canonical_parent.map(|s| s.to_string()),
        link_target_dir: None,
    }
}

#[test]
fn safe_path_allows_existing_child_within_root() {
    let nested = format!("{}/docs", ROOT);
    match path_probe(ROOT, "/docs/") {
        PathProbe::Probe { candidate, .. } => assert_eq!(candidate, nested),
        _ => panic!("expected a probe"),
    }
    let resolved = safe_path(ROOT, "/docs/", false, facts(true, Some(&nested), None));
    assert_eq!(resolved, Some(nested));
}

#[test]
fn safe_path_rejects_dot_segments() {
    let any = facts(true, Some("/tmp/file-transfer-test-1/secret.txt"), Some(ROOT));
    assert!(safe_path(ROOT, "/docs/../secret.txt", false, any).is_none());
    let any = facts(false, None, Some(ROOT));
    assert!(safe_path(ROOT, "/./secret.txt", true, any).is_none());
}

#[test]
fn safe_path_allows_new_upload_inside_existing_parent() {
    let uploads = format!("{}/uploads", ROOT);
    match path_probe(ROOT, "/uploads/new.txt") {
        PathProbe::Probe { candidate, parent } => {
            assert_eq!(candidate, format!("{}/new.txt", uploads));
            assert_eq!(parent, uploads);
        }
        _ => panic!("expected a probe"),
    }
    let resolved = safe_path(ROOT, "/uploads/new.txt", true, facts(false, None, Some(&uploads)));
    assert_eq!(resolved, Some(format!("{}/new.txt", uploads)));
}

#[test]
fn root_urls_resolve_to_the_shared_directory() {
    for url in ["", "/", "///"] {
        assert!(matches!(classify_url(url), UrlTarget::Root));
        assert_eq!(safe_path(ROOT, url, false, facts(false, None, None)), Some(ROOT.to_string()));
    }
}

#[test]
fn classify_url_trims_slashes_at_both_ends() {
    match classify_url("//docs/sub///") {
        UrlTarget::Relative(n) => assert_eq!(n, "docs/sub"),
        _ => panic!("expected a relative path"),
    }
}

#[test]
fn classify_url_rejects_empty_and_dot_components() {
    for url in ["/a//b", "/..", "/a/./b", "/a/..", "..", "/.", "/x/../../etc/passwd"] {
        assert!(matches!(classify_url(url), UrlTarget::Rejected), "{}", url);
    }
    for url in ["/...", "/.hidden", "/a..b", "/..x/y"] {
        assert!(matches!(classify_url(url), UrlTarget::Relative(_)), "{}", url);
    }
}

#[test]
fn symlink_escape_is_refused() {
    let resolved = safe_path(ROOT, "/link", false, facts(true, Some("/etc/passwd"), None));
    assert_eq!(resolved, None);
    let resolved = safe_path(ROOT, "/link", false, facts(true, Some("/tmp/file-transfer-test-10"), None));
    assert_eq!(resolved, None);
}

#[test]
fn missing_path_is_refused_for_downloads() {
    assert_eq!(safe_path(ROOT, "/nope.txt", false, facts(false, None, Some(ROOT))), None);
}

#[test]
fn upload_into_missing_or_foreign_directory_is_refused() {
    assert_eq!(safe_path(ROOT, "/missing/new.txt", true, facts(false, None, None)), None);
    assert_eq!(safe_path(ROOT, "/out/new.txt", true, facts(false, None, Some("/etc"))), None);
}

#[test]
fn failed_canonicalization_is_refused() {
    assert_eq!(safe_path(ROOT, "/docs", false, facts(true, None, None)), None);
}

#[test]
fn join_adds_one_separator() {
    assert_eq!(join("/srv", "a/b"), "/srv/a/b");
    assert_eq!(join("/srv/", "a"), "/srv/a");
    assert_eq!(join("", "a"), "a");
    assert_eq!(join("/", "a"), "/a");
}

#[test]
fn parent_of_drops_the_last_component() {
    assert_eq!(parent_of("/srv/a/b"), "/srv/a");
    assert_eq!(parent_of("/a"), "/");
    assert_eq!(parent_of("a"), "");
}

#[test]
fn within_compares_whole_components() {
    assert!(is_within("/srv", "/srv"));
    assert!(is_within("/srv", "/srv/a"));
    assert!(is_within("/srv/", "/srv/a"));
    assert!(!is_within("/srv", "/srv2"));
    assert!(!is_within("/srv", "/sr"));
    assert!(is_within("/", "/anything"));
    assert!(!is_within("/", "relative"));
    assert!(is_within("", "whatever"));
}

#[test]
fn within_ignores_repeated_separators_and_dot_components() {
    assert!(is_within("/a//b", "/a/b/c"));
    assert!(is_within("/a/b/.", "/a/b/c"));
    assert!(is_within("/a/./b/", "/a/b"));
    assert!(is_within("/a/b", "/a//b/./c"));
    assert!(!is_within("/a/b/c", "/a/b"));
    assert!(!is_within("/a/b", "/a/bc"));
    assert!(is_within(".", "./x"));
    assert!(!is_within(".", "x"));
    assert!(!is_within("/a/..", "/a"));
    assert_eq!(
        canonicalize_within_root("/a//b", Some("/a/b/c".to_string())),
        Some("/a/b/c".to_string())
    );
}

#[test]
fn components_follow_path_components() {
    let show = |s: &str| -> Vec<String> { components_of(s).into_iter().map(|c| c.into_iter().collect()).collect() };
    assert_eq!(show("/a//b/./c/"), vec!["/", "a", "b", "c"]);
    assert_eq!(show("./x"), vec![".", "x"]);
    assert_eq!(show("a/.."), vec!["a", ".."]);
    assert_eq!(show(""), Vec::<String>::new());
    assert_eq!(show(".hidden"), vec![".hidden"]);
}

#[test]
fn dangling_symlink_into_the_root_is_accepted_for_uploads() {
    let link = PathFacts {
        exists: false,
        leaf_is_symlink: true,
        canonical: None,
        canonical_parent: Some(ROOT.to_string()),
        link_target_dir: Some(format!("{}/sub", ROOT)),
    };
    assert_eq!(safe_path(ROOT, "/alias", true, link), Some(format!("{}/alias", ROOT)));
    let for_download = PathFacts {
        exists: false,
        leaf_is_symlink: true,
        canonical: None,
        canonical_parent: Some(ROOT.to_string()),
        link_target_dir: Some(format!("{}/sub", ROOT)),
    };
    assert_eq!(safe_path(ROOT, "/alias", false, for_download), None);
}

#[test]
fn dangling_symlink_upload_is_refused() {
    let link = PathFacts {
        exists: false,
        leaf_is_symlink: true,
        canonical: None,
        canonical_parent: Some(ROOT.to_string()),
        link_target_dir: Some("/etc".to_string()),
    };
    assert_eq!(safe_path(ROOT, "/evil", true, link), None);
    let unresolved = PathFacts {
        exists: false,
        leaf_is_symlink: true,
        canonical: None,
        canonical_parent: Some(ROOT.to_string()),
        link_target_dir: None,
    };
    assert_eq!(safe_path(ROOT, "/evil", true, unresolved), None);
    let inner_link = PathFacts {
        exists: true,
        leaf_is_symlink: true,
        canonical: Some(format!("{}/real.txt", ROOT)),
        canonical_parent: None,
        link_target_dir: None,
    };
    assert_eq!(safe_path(ROOT, "/alias", true, inner_link), Some(format!("{}/real.txt", ROOT)));
}

#[test]
fn canonicalize_within_root_keeps_only_inner_paths() {
    assert_eq!(
        canonicalize_within_root(ROOT, Some(format!("{}/a", ROOT))),
        Some(format!("{}/a", ROOT))
    );
    assert_eq!(canonicalize_within_root(ROOT, Some("/tmp".to_string())), None);
    assert_eq!(canonicalize_within_root(ROOT, None), None);
}

#[test]
fn probe_reports_rejection_before_any_query() {
    assert!(matches!(path_probe(ROOT, "/a/../b"), PathProbe::Rejected));
    assert!(matches!(path_probe(ROOT, "/"), PathProbe::Root));
}
