use ignore::overrides::OverrideBuilder;
use typos_lsp::routing::{
    build_router, exclusion_overrides, policy_for_file, route_for_uri, workspace_policy,
};
use typos_lsp::workspace::PolicyChoice;

fn overrides_for(root: &str, globs: &[&str]) -> ignore::overrides::Override {
    let mut b = OverrideBuilder::new(root);
    for g in globs {
        b.add(g).unwrap();
    }
    b.build().unwrap()
}

#[test]
fn routes_get_their_index() {
    let (router, refused) =
        build_router(&vec!["/work/{*p}".to_string(), "/{*p}".to_string()]);
    assert_eq!(refused, None);
    assert_eq!(route_for_uri("file:///work/src/a.rs", &router), Some(0));
    assert_eq!(route_for_uri("file:///C%3A/diagnostics.txt", &router), Some(1));
    assert_eq!(route_for_uri("not a uri", &router), None);
}

#[test]
fn conflicting_route_is_refused() {
    let (router, refused) = build_router(&vec![
        "/a/{*p}".to_string(),
        "/a/{*p}".to_string(),
        "/{*p}".to_string(),
    ]);
    assert_eq!(refused, Some(1));
    // the router keeps the routes before the refused one, and no later one
    assert_eq!(route_for_uri("file:///a/x", &router), Some(0));
    assert_eq!(route_for_uri("file:///b/x", &router), None);
}

#[test]
fn excluded_files_are_skipped_and_others_checked() {
    let (router, _) = build_router(&vec!["/work/{*p}".to_string(), "/{*p}".to_string()]);
    let overrides = vec![
        overrides_for("/work", &["!typos.toml", "!target"]),
        overrides_for("/", &["!typos.toml"]),
    ];
    let d = workspace_policy("file:///work/typos.toml", &router, &overrides);
    assert_eq!(d.choice, PolicyChoice::Skip);
    let d = workspace_policy("file:///work/src/a.rs", &router, &overrides);
    assert_eq!(d.choice, PolicyChoice::Workspace);
    assert_eq!(d.instance, Some(0));
    assert_eq!(d.file_path.as_deref(), Some("/work/src/a.rs"));
    let d = workspace_policy("file:///elsewhere/b.rs", &router, &overrides);
    assert_eq!((d.choice, d.instance), (PolicyChoice::Workspace, Some(1)));
}

#[test]
fn uris_without_a_file_or_route_get_the_default_policy() {
    let (router, _) = build_router(&vec!["/work/{*p}".to_string()]);
    let overrides = vec![overrides_for("/work", &[])];
    let d = workspace_policy("file:///other/a.rs", &router, &overrides);
    assert_eq!((d.choice, d.instance), (PolicyChoice::Default, None));
    let d = workspace_policy("untitled:", &router, &overrides);
    assert_eq!((d.choice, d.instance, d.file_path), (PolicyChoice::Default, None, None));
    // a route whose value names no configuration counts as no route
    let d = workspace_policy("file:///work/a.rs", &router, &vec![]);
    assert_eq!((d.choice, d.instance), (PolicyChoice::Default, None));
}

#[test]
fn policy_for_a_given_file_path() {
    let (router, _) = build_router(&vec!["/work/{*p}".to_string()]);
    let overrides = vec![overrides_for("/work", &["!*.lock"])];
    let d = policy_for_file("file:///work/Cargo.lock", Some("/work/Cargo.lock".to_string()), &router, &overrides);
    assert_eq!((d.choice, d.instance), (PolicyChoice::Skip, Some(0)));
    let d = policy_for_file("file:///work/data.bin", Some("/work/data.bin".to_string()), &router, &overrides);
    assert_eq!((d.choice, d.instance), (PolicyChoice::Workspace, Some(0)));
    let d = policy_for_file("file:///work/data.bin", None, &router, &overrides);
    assert_eq!((d.choice, d.instance, d.file_path), (PolicyChoice::Default, None, None));
}

#[test]
fn config_files_and_extend_exclude_are_excluded() {
    let (router, _) = build_router(&vec!["/work/{*p}".to_string()]);
    let overrides = vec![exclusion_overrides("/work", &vec!["CHANGELOG.md".to_string()]).unwrap()];
    for uri in ["file:///work/CHANGELOG.md", "file:///work/typos.toml", "file:///work/sub/Cargo.toml"] {
        assert_eq!(workspace_policy(uri, &router, &overrides).choice, PolicyChoice::Skip, "{uri}");
    }
    let d = workspace_policy("file:///work/src/main.rs", &router, &overrides);
    assert_eq!((d.choice, d.instance), (PolicyChoice::Workspace, Some(0)));
}

#[test]
fn invalid_exclusion_glob_gives_no_matcher() {
    assert!(exclusion_overrides("/work", &vec!["[abc".to_string()]).is_none());
    assert!(exclusion_overrides("/work", &vec![]).is_some());
}
