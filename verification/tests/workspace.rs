use std::path::PathBuf;

use sweetpad_core::element::{parse_element_tree, Element};
use sweetpad_core::workspace::{
    absolute_path, resolve_location, scheme_file_path, shared_scheme_names, shared_schemes_dir,
    workspace_from_contents, workspace_from_text, Error, Workspace,
};

const DEV: &str = "/Applications/Xcode.app/Contents/Developer";

#[test]
fn resolves_location_prefixes() {
    // The base is the directory containing the .xcworkspace bundle.
    let base = PathBuf::from("/tmp/parent");
    let base = base.to_str().unwrap();
    assert_eq!(
        resolve_location("container:Foo.xcodeproj", base, DEV).map(PathBuf::from),
        Some(PathBuf::from("/tmp/parent/Foo.xcodeproj")),
    );
    assert_eq!(
        resolve_location("group:Sub/Bar.xcodeproj", base, DEV).map(PathBuf::from),
        Some(PathBuf::from("/tmp/parent/Sub/Bar.xcodeproj")),
    );
    assert_eq!(
        resolve_location("absolute:/abs/path/Baz.xcodeproj", base, DEV).map(PathBuf::from),
        Some(PathBuf::from("/abs/path/Baz.xcodeproj")),
    );
    assert_eq!(
        resolve_location("self:nested", base, DEV).map(PathBuf::from),
        Some(PathBuf::from("/tmp/parent/nested")),
    );
    assert!(resolve_location("bogus:nope", base, DEV).is_none());
}

#[test]
fn resolves_developer_and_splits_at_first_colon() {
    assert_eq!(
        resolve_location("developer:Platforms/A.xcodeproj", "/b", "/Dev").as_deref(),
        Some("/Dev/Platforms/A.xcodeproj")
    );
    assert_eq!(
        resolve_location("absolute:C:/x:y", "/b", "/Dev").as_deref(),
        Some("C:/x:y")
    );
    assert!(resolve_location("no-colon-here", "/b", "/Dev").is_none());
    assert!(resolve_location(":empty-prefix", "/b", "/Dev").is_none());
    assert_eq!(
        resolve_location("group:/abs/Other.xcodeproj", "/b", "/Dev").as_deref(),
        Some("/abs/Other.xcodeproj")
    );
}

fn el(name: &str, attrs: &[(&str, &str)], children: Vec<Element>) -> Element {
    Element {
        name: name.to_string(),
        attributes: attrs.iter().map(|(k, v)| (k.to_string(), v.to_string())).collect(),
        children,
    }
}

fn file_ref(location: &str) -> Element {
    el("FileRef", &[("location", location)], Vec::new())
}

#[test]
fn rejects_non_workspace_root() {
    let text = r#"<?xml version="1.0" encoding="UTF-8"?>
<Scheme LastUpgradeVersion = "1500" version = "1.7">
   <BuildAction parallelizeBuildables = "YES"/>
</Scheme>"#;
    let err = workspace_from_text(
        "/tmp/parent/Kingfisher.xcodeproj/xcshareddata/xcschemes",
        "/",
        text,
        &Vec::new(),
        DEV,
    )
    .unwrap_err();
    assert!(matches!(
        err,
        Error::Io(_) | Error::Parse(_) | Error::BadWorkspace(_)
    ));
    match err {
        Error::BadWorkspace(m) => assert_eq!(m, "expected root <Workspace>, got <Scheme>"),
        _ => panic!("expected BadWorkspace"),
    }
}

#[test]
fn unparseable_workspace_text_is_a_parse_error() {
    let err = workspace_from_text("/w/W.xcworkspace", "/", "<Workspace>", &Vec::new(), DEV)
        .unwrap_err();
    assert!(matches!(err, Error::Parse(_)));
    let err = workspace_from_text("/w/W.xcworkspace", "/", "", &Vec::new(), DEV).unwrap_err();
    assert!(matches!(err, Error::Parse(_)));
}

#[test]
fn workspace_from_text_reads_project_refs() {
    let text = r#"<?xml version="1.0" encoding="UTF-8"?>
<Workspace
   version = "1.0">
   <FileRef
      location = "group:Kingfisher.xcodeproj">
   </FileRef>
   <!-- a comment -->
   <Group location = "container:Demo" name = "Demo">
      <FileRef location = "group:Kingfisher-Demo.xcodeproj"/>
   </Group>
</Workspace>"#;
    let ws = workspace_from_text("/src/Kingfisher.xcworkspace", "/", text, &Vec::new(), DEV)
        .unwrap();
    assert_eq!(ws.name, "Kingfisher");
    assert_eq!(
        ws.project_refs,
        vec![
            "/src/Kingfisher.xcodeproj".to_string(),
            "/src/Demo/Kingfisher-Demo.xcodeproj".to_string(),
        ]
    );
}

#[test]
fn relative_workspace_path_becomes_absolute() {
    let text = r#"<Workspace><FileRef location="group:Foo.xcodeproj"/></Workspace>"#;
    let ws = workspace_from_text("ws/Foo.xcworkspace", "/home/u", text, &Vec::new(), DEV).unwrap();
    assert_eq!(ws.path, "/home/u/ws/Foo.xcworkspace");
    assert_eq!(ws.project_refs, vec!["/home/u/ws/Foo.xcodeproj".to_string()]);
    assert_eq!(absolute_path("/abs/W.xcworkspace", "/home/u"), "/abs/W.xcworkspace");
}

#[test]
fn parses_element_tree() {
    let root = parse_element_tree(r#"<a x="1" y="2"><b/>text<c><d z="3"/></c></a>"#).unwrap();
    assert_eq!(root.name, "a");
    assert_eq!(
        root.attributes,
        vec![("x".to_string(), "1".to_string()), ("y".to_string(), "2".to_string())]
    );
    assert_eq!(root.children.len(), 2);
    assert_eq!(root.children[0].name, "b");
    assert!(root.children[0].children.is_empty());
    assert_eq!(root.children[1].name, "c");
    assert_eq!(root.children[1].children[0].name, "d");
    assert_eq!(root.children[1].children[0].attr("z"), Some("3"));
    assert!(parse_element_tree("<a><b></a>").is_err());
    assert!(parse_element_tree("not xml").is_err());
}

fn sample_root() -> Element {
    el(
        "Workspace",
        &[("version", "1.0")],
        vec![
            file_ref("group:Alamofire.xcodeproj"),
            file_ref("group:README.md"),
            el("Group", &[("location", "container:Example"), ("name", "Examples")], vec![
                file_ref("group:iOS Example.xcodeproj"),
                el("Group", &[("name", "NoLocation")], vec![file_ref(
                    "group:watchOS Example.xcodeproj",
                )]),
            ]),
            file_ref("absolute:/abs/Tools.xcodeproj"),
            file_ref("bogus:Ignored.xcodeproj"),
            el("FileRef", &[("name", "no location")], Vec::new()),
            el("Other", &[("location", "group:Hidden.xcodeproj")], Vec::new()),
        ],
    )
}

#[test]
fn collects_project_refs_in_declaration_order() {
    let entries = vec![
        "/w/Alamofire.xcworkspace/xcshareddata/xcschemes/Zeta.xcscheme".to_string(),
        "/w/Alamofire.xcworkspace/xcshareddata/xcschemes/notes.txt".to_string(),
        "/w/Alamofire.xcworkspace/xcshareddata/xcschemes/Alpha.xcscheme".to_string(),
    ];
    let ws =
        workspace_from_contents("/w/Alamofire.xcworkspace", "/cwd", &sample_root(), &entries, DEV)
            .unwrap();
    assert_eq!(ws.name, "Alamofire");
    assert_eq!(ws.path, "/w/Alamofire.xcworkspace");
    assert_eq!(
        ws.project_refs,
        vec![
            "/w/Alamofire.xcodeproj".to_string(),
            "/w/Example/iOS Example.xcodeproj".to_string(),
            "/w/Example/watchOS Example.xcodeproj".to_string(),
            "/abs/Tools.xcodeproj".to_string(),
        ]
    );
    assert_eq!(ws.schemes, vec!["Alpha".to_string(), "Zeta".to_string()]);
}

#[test]
fn shared_scheme_names_filters_and_sorts() {
    let entries = vec![
        "/p/xcshareddata/xcschemes/b.xcscheme".to_string(),
        "/p/xcshareddata/xcschemes/B.xcscheme".to_string(),
        "/p/xcshareddata/xcschemes/a.xcscheme".to_string(),
        "/p/xcshareddata/xcschemes/a.txt".to_string(),
        "/p/xcshareddata/xcschemes/xcschememanagement.plist".to_string(),
    ];
    assert_eq!(
        shared_scheme_names(&entries),
        vec!["B".to_string(), "a".to_string(), "b".to_string()]
    );
    assert!(shared_scheme_names(&Vec::new()).is_empty());
}

fn workspace(schemes: &[&str], refs: &[&str]) -> Workspace {
    Workspace {
        name: "W".to_string(),
        path: "/w/W.xcworkspace".to_string(),
        project_refs: refs.iter().map(|s| s.to_string()).collect(),
        schemes: schemes.iter().map(|s| s.to_string()).collect(),
    }
}

#[test]
fn merged_schemes_are_sorted_union_without_repeats() {
    let ws = workspace(&["Kingfisher", "Demo"], &["/w/A.xcodeproj", "/w/B.xcodeproj"]);
    let found = vec![
        vec![
            "/w/A.xcodeproj/xcshareddata/xcschemes/Kingfisher.xcscheme".to_string(),
            "/w/A.xcodeproj/xcshareddata/xcschemes/Kingfisher-tvOS.xcscheme".to_string(),
        ],
        vec![
            "/w/B.xcodeproj/xcshareddata/xcschemes/Demo.xcscheme".to_string(),
            "/w/B.xcodeproj/xcshareddata/xcschemes/info.plist".to_string(),
        ],
    ];
    assert_eq!(
        ws.merged_schemes(&found),
        vec!["Demo".to_string(), "Kingfisher".to_string(), "Kingfisher-tvOS".to_string()]
    );
    assert_eq!(ws.merged_schemes(&Vec::new()), vec!["Demo".to_string(), "Kingfisher".to_string()]);
}

#[test]
fn scheme_paths() {
    assert_eq!(
        scheme_file_path("/w/A.xcodeproj", "App"),
        "/w/A.xcodeproj/xcshareddata/xcschemes/App.xcscheme"
    );
    assert_eq!(shared_schemes_dir("/w/A.xcodeproj"), "/w/A.xcodeproj/xcshareddata/xcschemes");
}

#[test]
fn first_project_with_scheme_picks_first_present() {
    let ws = workspace(&[], &["/w/A.xcodeproj", "/w/B.xcodeproj", "/w/C.xcodeproj"]);
    assert_eq!(ws.first_project_with_scheme(&vec![false, true, true]), Some("/w/B.xcodeproj"));
    assert_eq!(ws.first_project_with_scheme(&vec![false, false, false]), None);
    assert_eq!(ws.first_project_with_scheme(&vec![true]), Some("/w/A.xcodeproj"));
}

#[test]
fn project_for_scheme_without_files_is_none() {
    let ws = workspace(&[], &["/nonexistent-sweetpad/A.xcodeproj", "/nonexistent-sweetpad/B.xcodeproj"]);
    assert_eq!(ws.project_for_scheme("App"), None);
}

#[test]
fn error_messages() {
    assert_eq!(Error::Parse("bad xml".to_string()).message(), "bad xml");
    assert_eq!(
        Error::BadWorkspace("x".to_string()).message(),
        "invalid workspace: x"
    );
    let io = Error::Io(std::io::Error::new(std::io::ErrorKind::NotFound, "gone"));
    assert_eq!(io.message(), "I/O error: gone");
}

#[test]
fn element_attr_first_match() {
    let e = el("FileRef", &[("location", "group:A"), ("location", "group:B")], Vec::new());
    assert_eq!(e.attr("location"), Some("group:A"));
    assert_eq!(e.attr("name"), None);
}
