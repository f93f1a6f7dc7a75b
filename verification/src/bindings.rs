//! The plain records handed to an embedding host (such as an editor
//! extension) in place of the command line's printed reports.

use vstd::prelude::*;

use crate::workspace::Workspace;
use crate::xcode::{major_version_of, ActiveInstall};

verus! {

/// Active Xcode toolchain info, as `xcrun xcodebuild -version` reports it,
/// plus the resolved Developer directory.
#[derive(Debug, Clone)]
pub struct XcodeVersion {
    pub developer_dir: String,
    pub short_version: String,
    pub build_version: String,
    pub major_version: u32,
}

impl XcodeVersion {
    /// The record for an install.
    pub fn from_install(info: &ActiveInstall) -> (r: XcodeVersion)
        ensures
            r.developer_dir@ == info.developer_dir@,
            r.short_version@ == info.short_version@,
            r.build_version@ == info.build_version@,
            r.major_version == major_version_of(info.short_version@),
    {
        XcodeVersion {
            developer_dir: info.developer_dir.clone(),
            short_version: info.short_version.clone(),
            build_version: info.build_version.clone(),
            major_version: info.major_version(),
        }
    }
}

/// A single `.xcodeproj`'s targets, configurations and shared schemes, as
/// `xcodebuild -list -project` reports them.
#[derive(Debug, Clone)]
pub struct ProjectInfo {
    pub name: String,
    pub targets: Vec<String>,
    pub configurations: Vec<String>,
    pub schemes: Vec<String>,
}

/// A `.xcworkspace`'s member projects and merged shared schemes.
#[derive(Debug, Clone)]
pub struct WorkspaceInfo {
    pub name: String,
    /// Paths of every `.xcodeproj` the workspace declares, in order.
    pub projects: Vec<String>,
    pub schemes: Vec<String>,
}

impl WorkspaceInfo {
    /// The record for a workspace, given its merged schemes.
    pub fn from_workspace(ws: &Workspace, schemes: Vec<String>) -> (r: WorkspaceInfo)
        ensures
            r.name@ == ws.name@,
            r.projects@ == ws.project_refs@,
            r.schemes@ == schemes@,
    {
        let mut projects: Vec<String> = Vec::new();
        let mut i: usize = 0;
        while i < ws.project_refs.len()
            invariant
                i <= ws.project_refs.len(),
                projects@ == ws.project_refs@.take(i as int),
            decreases ws.project_refs.len() - i,
        {
            projects.push(ws.project_refs[i].clone());
            assert(projects@ =~= ws.project_refs@.take(i + 1));
            i = i + 1;
        }
        assert(ws.project_refs@.take(ws.project_refs.len() as int) =~= ws.project_refs@);
        WorkspaceInfo { name: ws.name.clone(), projects, schemes }
    }
}

/// Options for a build-settings resolution, as `xcodebuild
/// -showBuildSettings` takes them: a project or a workspace, a scheme or a
/// target, a configuration, and optional overrides.
#[derive(Debug, Clone)]
pub struct BuildSettingsOptions {
    pub project: Option<String>,
    pub workspace: Option<String>,
    pub scheme: Option<String>,
    pub target: Option<String>,
    pub configuration: String,
    /// SDK to bind conditionals to; `macosx` when absent. Ignored when a
    /// destination is given.
    pub sdk: Option<String>,
    /// Architecture to bind conditionals to; `arm64` when absent. Ignored
    /// when a destination is given.
    pub arch: Option<String>,
    /// `xcodebuild -destination` string, e.g. `platform=iOS Simulator,id=…`.
    pub destination: Option<String>,
    /// Extra `.xcconfig` overlay (`xcodebuild -xcconfig`).
    pub xcconfig: Option<String>,
    /// A specific `Xcode.app` / `Contents/Developer` to resolve against.
    pub xcode: Option<String>,
    /// `xcodebuild -derivedDataPath` override.
    pub derived_data_path: Option<String>,
}

/// One target's resolved build settings (`{ KEY: VALUE }`).
#[derive(Debug, Clone)]
pub struct TargetBuildSettings {
    pub target: String,
    pub settings: std::collections::HashMap<String, String>,
}

} // verus!
