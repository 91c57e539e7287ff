use typos_lsp::workspace::{
    choose_policy, chosen_config_file, drives_from_mask, exclusion_globs, plan_routes,
    update_workspace_folders, uri_path_sanitised, FolderPaths, PolicyChoice, WorkspaceFolder,
};

fn folder(uri: &str, name: &str) -> WorkspaceFolder {
    WorkspaceFolder { uri: uri.to_string(), name: name.to_string() }
}

fn names(folders: &[WorkspaceFolder]) -> Vec<String> {
    folders.iter().map(|f| f.name.clone()).collect()
}

#[test]
fn folders_added_then_removed() {
    let mut folders = vec![folder("file:///a", "a"), folder("file:///b", "b")];
    update_workspace_folders(
        &mut folders,
        vec![folder("file:///c", "c")],
        &vec![folder("file:///a", "a")],
    );
    assert_eq!(names(&folders), vec!["b", "c"]);
    // a folder with the same uri but another name is not removed
    update_workspace_folders(&mut folders, vec![], &vec![folder("file:///b", "other")]);
    assert_eq!(names(&folders), vec!["b", "c"]);
    // an added folder that is also removed does not stay
    update_workspace_folders(
        &mut folders,
        vec![folder("file:///d", "d")],
        &vec![folder("file:///d", "d")],
    );
    assert_eq!(names(&folders), vec!["b", "c"]);
}

#[test]
fn sanitised_paths() {
    assert_eq!(uri_path_sanitised("/C:/Users/me"), "/C%3A/Users/me");
    assert_eq!(uri_path_sanitised("/home/me"), "/home/me");
    assert_eq!(uri_path_sanitised("::"), "%3A%3A");
    assert_eq!(uri_path_sanitised("/é:"), "/é%3A");
}

#[test]
fn routes_for_folders() {
    let folders = vec![FolderPaths {
        uri_path: "/C:/work".to_string(),
        file_path: Some("C:\\work".to_string()),
    }];
    let plan = plan_routes(&folders, None);
    assert_eq!(plan.failed_folder, None);
    let routes: Vec<(String, String)> =
        plan.routes.iter().map(|r| (r.route.clone(), r.directory.clone())).collect();
    assert_eq!(
        routes,
        vec![
            ("/C%3A/work/{*p}".to_string(), "C:\\work".to_string()),
            ("/{*p}".to_string(), "/".to_string())
        ]
    );
    let plan = plan_routes(&vec![], Some(vec!['C', 'D']));
    let routes: Vec<(String, String)> =
        plan.routes.iter().map(|r| (r.route.clone(), r.directory.clone())).collect();
    assert_eq!(
        routes,
        vec![
            ("/C%3A/{*p}".to_string(), "C:\\".to_string()),
            ("/D%3A/{*p}".to_string(), "D:\\".to_string())
        ]
    );
}

#[test]
fn routes_stop_at_folder_without_path() {
    let folders = vec![
        FolderPaths { uri_path: "/a".to_string(), file_path: Some("/a".to_string()) },
        FolderPaths { uri_path: "".to_string(), file_path: None },
        FolderPaths { uri_path: "/c".to_string(), file_path: Some("/c".to_string()) },
    ];
    let plan = plan_routes(&folders, None);
    assert_eq!(plan.failed_folder, Some(1));
    assert_eq!(plan.routes.len(), 1);
    assert_eq!(plan.routes[0].route, "/a/{*p}");
}

#[test]
fn drives() {
    assert_eq!(drives_from_mask(0), Vec::<char>::new());
    assert_eq!(drives_from_mask(0b1101), vec!['A', 'C', 'D']);
    assert_eq!(drives_from_mask(1 << 25), vec!['Z']);
    assert_eq!(drives_from_mask(u32::MAX).len(), 32);
}

#[test]
fn globs() {
    assert_eq!(
        exclusion_globs(&vec!["CHANGELOG.md".to_string()]),
        vec![
            "!typos.toml",
            "!_typos.toml",
            "!.typos.toml",
            "!Cargo.toml",
            "!pyproject.toml",
            "!CHANGELOG.md"
        ]
    );
}

#[test]
fn config_choice() {
    assert_eq!(chosen_config_file(&vec![false, false, true, true, false]), Some(2));
    assert_eq!(chosen_config_file(&vec![false; 5]), None);
}

#[test]
fn policy_choice() {
    assert_eq!(choose_policy(false, true, true), PolicyChoice::Default);
    assert_eq!(choose_policy(true, false, true), PolicyChoice::Default);
    assert_eq!(choose_policy(true, true, true), PolicyChoice::Skip);
    assert_eq!(choose_policy(true, true, false), PolicyChoice::Workspace);
}
