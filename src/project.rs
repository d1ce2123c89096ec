//! Project detection from a synopsis: the kind of project its marker files or
//! top-level directories suggest, and the build systems present.

use vstd::prelude::*;
use crate::pattern::views;
use crate::text::{contains_str, ends_with, has_infix, is_suffix, owned, str_eq};

verus! {

/// Kinds of project.
#[derive(Debug, Clone, Copy, PartialEq, Eq, Structural)]
pub enum ProjectType {
    WebApp,
    Library,
    CliTool,
    MobileApp,
    ApiService,
    MonoRepo,
    Documentation,
    DataPipeline,
    MachineLearning,
    Unknown,
}

/// The kind a single marker file name points to, if any.
pub open spec fn marker_kind(f: Seq<char>) -> ProjectType {
    if f == "Cargo.toml"@ || f == "pyproject.toml"@ || f == "setup.py"@ || f == "go.mod"@ || f == "pom.xml"@
        || f == "build.gradle"@ {
        ProjectType::Library
    } else if f == "package.json"@ {
        ProjectType::WebApp
    } else {
        ProjectType::Unknown
    }
}

/// The kind pointed to by the first marker that points to one.
pub open spec fn kind_from_markers(fs: Seq<Seq<char>>) -> ProjectType
    decreases fs.len(),
{
    if fs.len() == 0 {
        ProjectType::Unknown
    } else if marker_kind(fs[0]) != ProjectType::Unknown {
        marker_kind(fs[0])
    } else {
        kind_from_markers(fs.drop_first())
    }
}

/// Some name of `ds` holds `sub`.
pub open spec fn any_holds(ds: Seq<Seq<char>>, sub: Seq<char>) -> bool {
    exists|i: int| 0 <= i < ds.len() && has_infix(#[trigger] ds[i], sub)
}

/// The kind the top-level directory names suggest.
pub open spec fn kind_from_dirs(ds: Seq<Seq<char>>) -> ProjectType {
    if any_holds(ds, "src"@) || any_holds(ds, "lib"@) {
        ProjectType::Library
    } else if any_holds(ds, "docs"@) {
        ProjectType::Documentation
    } else {
        ProjectType::Unknown
    }
}

fn marker_type(f: &str) -> (r: ProjectType)
    ensures
        r == marker_kind(f@),
{
    if str_eq(f, "Cargo.toml") || str_eq(f, "pyproject.toml") || str_eq(f, "setup.py") || str_eq(f, "go.mod")
        || str_eq(f, "pom.xml") || str_eq(f, "build.gradle") {
        ProjectType::Library
    } else if str_eq(f, "package.json") {
        ProjectType::WebApp
    } else {
        ProjectType::Unknown
    }
}

/// The kind the first recognised marker file points to: Cargo, Python, Go
/// and Java build files mean a library, a `package.json` a web application.
pub fn detect_project_type_from_markers(marker_files: &Vec<String>) -> (r: ProjectType)
    ensures
        r == kind_from_markers(views(marker_files@)),
{
    let ghost fs = views(marker_files@);
    let mut i: usize = 0;
    assert(fs.subrange(0, fs.len() as int) == fs);
    while i < marker_files.len()
        invariant
            i <= marker_files@.len(),
            fs == views(marker_files@),
            kind_from_markers(fs) == kind_from_markers(fs.subrange(i as int, fs.len() as int)),
        decreases marker_files@.len() - i,
    {
        let t = marker_type(marker_files[i].as_str());
        let ghost rest = fs.subrange(i as int, fs.len() as int);
        assert(rest[0] == marker_files@[i as int]@);
        assert(rest.drop_first() == fs.subrange(i + 1, fs.len() as int));
        match t {
            ProjectType::Unknown => {},
            _ => return t,
        }
        i = i + 1;
    }
    ProjectType::Unknown
}

fn any_contains(dirs: &Vec<String>, sub: &str) -> (r: bool)
    ensures
        r == any_holds(views(dirs@), sub@),
{
    let mut i: usize = 0;
    while i < dirs.len()
        invariant
            i <= dirs@.len(),
            forall|j: int| 0 <= j < i ==> !has_infix(#[trigger] views(dirs@)[j], sub@),
        decreases dirs@.len() - i,
    {
        assert(views(dirs@)[i as int] == dirs@[i as int]@);
        if contains_str(dirs[i].as_str(), sub) {
            return true;
        }
        i = i + 1;
    }
    false
}

/// The kind the top-level directories suggest: a name holding `src` or `lib`
/// means a library, one holding `docs` documentation.
pub fn detect_project_type_from_dirs(top_dirs: &Vec<String>) -> (r: ProjectType)
    ensures
        r == kind_from_dirs(views(top_dirs@)),
{
    if any_contains(top_dirs, "src") || any_contains(top_dirs, "lib") {
        ProjectType::Library
    } else if any_contains(top_dirs, "docs") {
        ProjectType::Documentation
    } else {
        ProjectType::Unknown
    }
}

/// The kind from the marker files, or from the directories when the markers
/// say nothing.
pub fn detect_project_type(marker_files: &Vec<String>, top_dirs: &Vec<String>) -> (r: ProjectType)
    ensures
        r == if kind_from_markers(views(marker_files@)) != ProjectType::Unknown {
            kind_from_markers(views(marker_files@))
        } else {
            kind_from_dirs(views(top_dirs@))
        },
{
    let marker_result = detect_project_type_from_markers(marker_files);
    match marker_result {
        ProjectType::Unknown => detect_project_type_from_dirs(top_dirs),
        _ => marker_result,
    }
}

/// The build system a path's file name points to, if any.
pub open spec fn build_system_of(f: Seq<char>) -> Option<Seq<char>> {
    if is_suffix("Cargo.toml"@, f) {
        Some("Cargo"@)
    } else if is_suffix("package.json"@, f) {
        Some("npm/yarn/pnpm"@)
    } else if is_suffix("Makefile"@, f) {
        Some("Make"@)
    } else if is_suffix("CMakeLists.txt"@, f) {
        Some("CMake"@)
    } else if is_suffix("pom.xml"@, f) {
        Some("Maven"@)
    } else if is_suffix("build.gradle"@, f) {
        Some("Gradle"@)
    } else {
        None
    }
}

/// The build systems of a list of paths, in order, one per matching path.
pub open spec fn build_systems_of(fs: Seq<Seq<char>>) -> Seq<Seq<char>>
    decreases fs.len(),
{
    if fs.len() == 0 {
        Seq::empty()
    } else {
        let rest = build_systems_of(fs.drop_last());
        match build_system_of(fs.last()) {
            Some(b) => rest.push(b),
            None => rest,
        }
    }
}

fn build_system(f: &str) -> (r: Option<String>)
    ensures
        match r {
            Some(s) => build_system_of(f@) == Some(s@),
            None => build_system_of(f@) is None,
        },
{
    if ends_with(f, "Cargo.toml") {
        Some(owned("Cargo"))
    } else if ends_with(f, "package.json") {
        Some(owned("npm/yarn/pnpm"))
    } else if ends_with(f, "Makefile") {
        Some(owned("Make"))
    } else if ends_with(f, "CMakeLists.txt") {
        Some(owned("CMake"))
    } else if ends_with(f, "pom.xml") {
        Some(owned("Maven"))
    } else if ends_with(f, "build.gradle") {
        Some(owned("Gradle"))
    } else {
        None
    }
}

/// The build systems the paths point to, one per matching path, in order.
pub fn detect_build_systems(files: &Vec<String>) -> (r: Vec<String>)
    ensures
        views(r@) == build_systems_of(views(files@)),
{
    let mut out: Vec<String> = Vec::new();
    let mut i: usize = 0;
    while i < files.len()
        invariant
            i <= files@.len(),
            views(out@) == build_systems_of(views(files@).subrange(0, i as int)),
        decreases files@.len() - i,
    {
        let ghost pre = views(files@).subrange(0, i as int);
        let ghost post = views(files@).subrange(0, i + 1);
        assert(post.drop_last() == pre);
        assert(post.last() == files@[i as int]@);
        let ghost old_out = views(out@);
        match build_system(files[i].as_str()) {
            Some(b) => {
                out.push(b);
                assert(views(out@) =~= old_out.push(b@));
            },
            None => {},
        }
        i = i + 1;
    }
    assert(views(files@).subrange(0, files@.len() as int) == views(files@));
    out
}

/// Scan settings reported with a listing.
#[derive(Debug, Clone, Copy, PartialEq, Eq, Structural)]
pub struct ScanFlags {
    pub recursive: bool,
    pub include_hidden: bool,
    pub follow_symlinks: bool,
    pub git_status: bool,
}

/// Metadata about a scan.
#[derive(Debug, Clone)]
pub struct ScanMetadata {
    pub root_path: String,
    pub timestamp: String,
    pub scan_flags: ScanFlags,
    pub sap_version: String,
}

/// Commands a consumer may run to explore a spilled payload.
#[derive(Debug, Clone)]
pub struct McpInstructions {
    pub tool_name: String,
    pub available_commands: Vec<String>,
    pub usage_examples: Vec<String>,
}

/// Statistics about a scan.
#[derive(Debug, Clone)]
pub struct FileStatistics {
    pub total_files: usize,
    pub total_dirs: usize,
    pub total_size_bytes: usize,
    pub primary_language: Option<String>,
    pub file_type_distribution: Vec<(String, usize)>,
}

/// Analysis of a project's structure.
#[derive(Debug, Clone)]
pub struct StructureAnalysis {
    pub project_type: ProjectType,
    pub key_directories: Vec<String>,
    pub observations: Vec<String>,
    pub detected_frameworks: Vec<String>,
    pub build_systems: Vec<String>,
}

/// A structured analysis of a listing.
#[derive(Debug, Clone)]
pub struct AgentResponse {
    pub summary: String,
    pub statistics: FileStatistics,
    pub key_files: Vec<String>,
    pub structure_analysis: StructureAnalysis,
    pub recommendations: Vec<String>,
}

} // verus!
