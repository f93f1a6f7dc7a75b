use sweetpad_core::bindings::{WorkspaceInfo, XcodeVersion};
use sweetpad_core::render::{
    project_json_report, project_text_report, workspace_json_report, workspace_text_report,
    xcode_version_report,
};
use sweetpad_core::workspace::Workspace;
use sweetpad_core::xcode::ActiveInstall;

fn strings(v: &[&str]) -> Vec<String> {
    v.iter().map(|s| s.to_string()).collect()
}

#[test]
fn project_text_lists_sections() {
    let text = project_text_report(
        "Scratch",
        &strings(&["Scratch"]),
        &strings(&["Debug", "Release"]),
        &strings(&[]),
    );
    assert_eq!(
        text,
        "Information about project \"Scratch\":\n    Targets:\n        Scratch\n\n    Build Configurations:\n        Debug\n        Release\n\n    Schemes:\n        (none)\n"
    );
}

#[test]
fn workspace_text_lists_schemes() {
    assert_eq!(
        workspace_text_report("Kingfisher", &strings(&["Kingfisher", "Kingfisher-Demo"])),
        "Information about workspace \"Kingfisher\":\n    Schemes:\n        Kingfisher\n        Kingfisher-Demo\n"
    );
    assert_eq!(
        workspace_text_report("Empty", &strings(&[])),
        "Information about workspace \"Empty\":\n    Schemes:\n        (none)\n"
    );
}

#[test]
fn project_json_shape() {
    let json = project_json_report(
        "Scratch",
        &strings(&["Scratch"]),
        &strings(&["Debug", "Release"]),
        &strings(&[]),
    );
    assert_eq!(
        json,
        "{\n  \"project\": {\n    \"configurations\": [\"Debug\", \"Release\"],\n    \"name\": \"Scratch\",\n    \"schemes\": [],\n    \"targets\": [\"Scratch\"]\n  }\n}\n"
    );
}

#[test]
fn workspace_json_shape() {
    assert_eq!(
        workspace_json_report("W", &strings(&["A"])),
        "{\n  \"workspace\": {\n    \"name\": \"W\",\n    \"schemes\": [\"A\"]\n  }\n}\n"
    );
}

fn install(short: &str, build: &str) -> ActiveInstall {
    ActiveInstall {
        developer_dir: "/Applications/Xcode.app/Contents/Developer".into(),
        short_version: short.into(),
        build_version: build.into(),
    }
}

#[test]
fn xcode_version_text_and_unknown() {
    assert_eq!(
        xcode_version_report(&install("26.0.1", "17A400"), false),
        "Xcode 26.0.1\nBuild version 17A400\n"
    );
    assert_eq!(
        xcode_version_report(&install("", ""), false),
        "Xcode Unknown\nBuild version Unknown\n"
    );
}

#[test]
fn xcode_version_json() {
    assert_eq!(
        xcode_version_report(&install("26.0.1", "17A400"), true),
        "{\n  \"developerDir\": \"/Applications/Xcode.app/Contents/Developer\",\n  \"shortVersion\": \"26.0.1\",\n  \"buildVersion\": \"17A400\",\n  \"majorVersion\": 26\n}\n"
    );
    assert_eq!(
        xcode_version_report(&install("", ""), true),
        "{\n  \"developerDir\": \"/Applications/Xcode.app/Contents/Developer\",\n  \"shortVersion\": \"\",\n  \"buildVersion\": \"\",\n  \"majorVersion\": 0\n}\n"
    );
    assert!(xcode_version_report(&install("4294967295", "x"), true).contains("\"majorVersion\": 4294967295\n"));
    assert!(xcode_version_report(&install("7", "x"), true).contains("\"majorVersion\": 7\n"));
}

#[test]
fn xcode_version_record() {
    let v = XcodeVersion::from_install(&install("15.4", "15F31d"));
    assert_eq!(v.developer_dir, "/Applications/Xcode.app/Contents/Developer");
    assert_eq!(v.short_version, "15.4");
    assert_eq!(v.build_version, "15F31d");
    assert_eq!(v.major_version, 15);
}

#[test]
fn workspace_info_record() {
    let ws = Workspace {
        name: "W".into(),
        path: "/w/W.xcworkspace".into(),
        project_refs: strings(&["/w/A.xcodeproj", "/w/B.xcodeproj"]),
        schemes: strings(&["A"]),
    };
    let info = WorkspaceInfo::from_workspace(&ws, strings(&["A", "B"]));
    assert_eq!(info.name, "W");
    assert_eq!(info.projects, strings(&["/w/A.xcodeproj", "/w/B.xcodeproj"]));
    assert_eq!(info.schemes, strings(&["A", "B"]));
}
