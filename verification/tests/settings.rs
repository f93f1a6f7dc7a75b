use sweetpad_core::settings::{
    build_settings_run, project_paths, settings_json_report, settings_text_report,
    single_project_results, TargetResolved, WorkspaceSearch,
};

fn resolved(target: &str, settings: &[(&str, &str)]) -> TargetResolved {
    TargetResolved {
        target: target.to_string(),
        settings: settings.iter().map(|(k, v)| (k.to_string(), v.to_string())).collect(),
    }
}

#[test]
fn project_paths_prefers_workspace() {
    let refs = vec!["/w/A.xcodeproj".to_string()];
    assert_eq!(project_paths(Some("/p.xcodeproj"), Some(Ok(refs.clone()))), Ok(refs));
    assert_eq!(
        project_paths(None, Some(Err("I/O error: gone".to_string()))),
        Err("I/O error: gone".to_string())
    );
    assert_eq!(
        project_paths(Some("/p.xcodeproj"), None),
        Ok(vec!["/p.xcodeproj".to_string()])
    );
    assert_eq!(
        project_paths(None, None),
        Err("either --project or --workspace is required".to_string())
    );
}

#[test]
fn target_search_stops_at_first_match() {
    let mut search = WorkspaceSearch::new(false);
    assert!(search.add_project(vec![None]));
    assert!(!search.add_project(vec![Some(resolved("App", &[("A", "1")]))]));
    let found = search.finish(Some("App"), None).unwrap();
    assert_eq!(found.len(), 1);
    assert_eq!(found[0].target, "App");
}

#[test]
fn scheme_search_goes_through_every_project() {
    let mut search = WorkspaceSearch::new(true);
    assert!(search.add_project(vec![Some(resolved("One", &[])), None]));
    assert!(search.add_project(vec![None, Some(resolved("Two", &[]))]));
    let found = search.finish(None, Some("Both")).unwrap();
    let names: Vec<&str> = found.iter().map(|t| t.target.as_str()).collect();
    assert_eq!(names, vec!["One", "Two"]);
}

#[test]
fn search_without_match_names_the_needle() {
    let search = WorkspaceSearch::new(false);
    assert_eq!(
        search.finish(Some("Nonexistent"), None).unwrap_err(),
        "no target matched --target Nonexistent across the supplied workspace"
    );
    let search = WorkspaceSearch::new(true);
    assert_eq!(
        search.finish(None, Some("S")).unwrap_err(),
        "no target matched --scheme S across the supplied workspace"
    );
    let search = WorkspaceSearch::new(true);
    assert_eq!(
        search.finish(None, None).unwrap_err(),
        "no target matched  across the supplied workspace"
    );
}

#[test]
fn settings_text_shape() {
    let out = vec![resolved("Scratch", &[("ALWAYS_SEARCH_USER_PATHS", "NO"), ("SWIFT_VERSION", "5.0")])];
    assert_eq!(
        settings_text_report(&out),
        "Build settings for action build and target Scratch:\n    ALWAYS_SEARCH_USER_PATHS = NO\n    SWIFT_VERSION = 5.0\n\n"
    );
    assert_eq!(settings_text_report(&Vec::new()), "");
}

#[test]
fn settings_json_shape() {
    let out = vec![resolved("A", &[("K", "V")]), resolved("B", &[])];
    assert_eq!(
        settings_json_report(&out),
        "[\n  {\n    \"action\": \"build\",\n    \"buildSettings\": {\n      \"K\": \"V\"\n    },\n    \"target\": \"A\"\n  },\n  {\n    \"action\": \"build\",\n    \"buildSettings\": {},\n    \"target\": \"B\"\n  }\n]\n"
    );
    assert_eq!(settings_json_report(&Vec::new()), "[\n]\n");
}

fn names(r: &Result<Vec<TargetResolved>, String>) -> Vec<String> {
    r.as_ref().unwrap().iter().map(|t| t.target.clone()).collect()
}

#[test]
fn single_project_errors_bubble_up() {
    let r = single_project_results(Ok(vec![
        Ok(resolved("A", &[])),
        Err("no target named 'Nonexistent'".to_string()),
        Err("later".to_string()),
    ]));
    assert_eq!(r.unwrap_err(), "no target named 'Nonexistent'");
    let r = single_project_results(Err("cannot open".to_string()));
    assert_eq!(r.unwrap_err(), "cannot open");
    let r = single_project_results(Ok(vec![Ok(resolved("A", &[])), Ok(resolved("B", &[]))]));
    assert_eq!(names(&r), vec!["A".to_string(), "B".to_string()]);
}

#[test]
fn run_over_one_project_keeps_its_error() {
    let r = build_settings_run(
        vec![Ok(vec![Err("no target named 'X'".to_string())])],
        Some("X"),
        None,
    );
    assert_eq!(r.unwrap_err(), "no target named 'X'");
}

#[test]
fn run_over_workspace_stops_at_first_matching_project() {
    let r = build_settings_run(
        vec![
            Ok(vec![Err("no target named 'T'".to_string())]),
            Ok(vec![Ok(resolved("T", &[("A", "1")]))]),
            Err("cannot open the third project".to_string()),
        ],
        Some("T"),
        None,
    );
    assert_eq!(names(&r), vec!["T".to_string()]);
}

#[test]
fn run_over_workspace_scheme_takes_every_project() {
    let r = build_settings_run(
        vec![
            Ok(vec![Ok(resolved("One", &[])), Err("x".to_string())]),
            Ok(vec![Err("y".to_string())]),
            Ok(vec![Ok(resolved("Two", &[]))]),
        ],
        None,
        Some("S"),
    );
    assert_eq!(names(&r), vec!["One".to_string(), "Two".to_string()]);
    let r = build_settings_run(
        vec![Ok(vec![]), Err("cannot open".to_string())],
        None,
        Some("S"),
    );
    assert_eq!(r.unwrap_err(), "cannot open");
}

#[test]
fn run_over_workspace_without_match() {
    let r = build_settings_run(
        vec![Ok(vec![Err("a".to_string())]), Ok(vec![])],
        Some("Nonexistent"),
        None,
    );
    assert_eq!(r.unwrap_err(), "no target matched --target Nonexistent across the supplied workspace");
    let r = build_settings_run(Vec::new(), Some("T"), None);
    assert_eq!(r.unwrap_err(), "no target matched --target T across the supplied workspace");
}
