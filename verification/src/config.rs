//! Project structure and the scan settings that follow from it.

use vstd::prelude::*;
use crate::text::{chars_of, contains_text, includes, same_text};

verus! {

/// What a project looks like on disk.
#[derive(Debug)]
pub struct ProjectStructure {
    /// `monorepo`, `multi-app` or `single`.
    pub project_type: String,
    pub file_count: usize,
    pub total_size: u64,
    pub roots: Vec<String>,
}

/// Scan settings, as they are written into a generated configuration.
#[derive(Debug)]
pub struct PerformanceConfig {
    pub threads: String,
    pub cache_strategy: String,
    pub max_file_size: String,
    pub estimated_scan_time: String,
}

/// The number of threads for a project of `file_count` files.
pub open spec fn threads_for(file_count: usize) -> Seq<char> {
    if file_count > 5000 {
        "8"@
    } else if file_count > 1000 {
        "4"@
    } else {
        "auto"@
    }
}

/// The cache strategy for a project of `file_count` files.
pub open spec fn cache_strategy_for(file_count: usize) -> Seq<char> {
    if file_count > 10000 {
        "aggressive"@
    } else if file_count > 1000 {
        "balanced"@
    } else {
        "minimal"@
    }
}

/// The largest file that is read in a project of `file_count` files.
pub open spec fn max_file_size_for(file_count: usize) -> Seq<char> {
    if file_count > 5000 {
        "512KB"@
    } else {
        "1MB"@
    }
}

/// The time that a scan of `file_count` files is expected to take.
pub open spec fn scan_time_for(file_count: usize) -> Seq<char> {
    if file_count > 10000 {
        "2-5 minutes"@
    } else if file_count > 1000 {
        "30-60 seconds"@
    } else {
        "<10 seconds"@
    }
}

/// Derives the settings of a generated configuration.
#[derive(Debug, Clone, Copy)]
pub struct ConfigGenerator {
    debug_mode: bool,
}

impl ConfigGenerator {
    pub fn new(debug_mode: bool) -> (out: ConfigGenerator)
        ensures
            out.debug_mode() == debug_mode,
    {
        ConfigGenerator { debug_mode }
    }

    /// Whether debug output is wanted.
    pub closed spec fn debug_mode(&self) -> bool {
        self.debug_mode
    }

    /// Whether debug output is wanted.
    pub fn is_debug(&self) -> (out: bool)
        ensures
            out == self.debug_mode(),
    {
        self.debug_mode
    }

    /// The scan settings for a project: they depend on its number of files
    /// alone.
    pub fn calculate_performance_config(&self, structure: &ProjectStructure) -> (out:
        PerformanceConfig)
        ensures
            out.threads@ == threads_for(structure.file_count),
            out.cache_strategy@ == cache_strategy_for(structure.file_count),
            out.max_file_size@ == max_file_size_for(structure.file_count),
            out.estimated_scan_time@ == scan_time_for(structure.file_count),
    {
        let threads = if structure.file_count > 5000 {
            "8"
        } else if structure.file_count > 1000 {
            "4"
        } else {
            "auto"
        };
        let cache_strategy = if structure.file_count > 10000 {
            "aggressive"
        } else if structure.file_count > 1000 {
            "balanced"
        } else {
            "minimal"
        };
        let max_file_size = if structure.file_count > 5000 {
            "512KB"
        } else {
            "1MB"
        };
        let estimated_scan_time = if structure.file_count > 10000 {
            "2-5 minutes"
        } else if structure.file_count > 1000 {
            "30-60 seconds"
        } else {
            "<10 seconds"
        };
        PerformanceConfig {
            threads: threads.to_owned(),
            cache_strategy: cache_strategy.to_owned(),
            max_file_size: max_file_size.to_owned(),
            estimated_scan_time: estimated_scan_time.to_owned(),
        }
    }
}

/// Whether a directory of this name may be the root of an application.
pub open spec fn potential_app_root(name: Seq<char>) -> bool {
    name == "apps"@ || name == "packages"@ || name == "services"@ || name == "libs"@ || name
        == "src"@ || name == "backend"@ || name == "frontend"@ || name == "api"@ || name == "web"@
}

/// Whether the files below a directory of this name are left uncounted.
pub open spec fn uncounted_directory(name: Seq<char>) -> bool {
    name == "node_modules"@ || name == ".git"@ || name == "target"@ || name == "dist"@ || name
        == "build"@ || name == ".next"@ || name == "__pycache__"@
}

/// Whether the text of a manifest speaks of workspaces.
pub open spec fn mentions_workspaces(content: Seq<char>) -> bool {
    contains_text(content, "workspace"@) || contains_text(content, "apps"@) || contains_text(
        content,
        "packages"@,
    )
}

/// The type of a project: a monorepo where it was recognised as one,
/// several applications where more than one root was found, a single
/// application otherwise.
pub open spec fn project_type_for(is_monorepo: bool, roots: nat) -> Seq<char> {
    if is_monorepo {
        "monorepo"@
    } else if roots > 1 {
        "multi-app"@
    } else {
        "single"@
    }
}

/// Analyses the structure of a project.
#[derive(Debug, Clone, Copy)]
pub struct ConfigDiscovery {
    debug_mode: bool,
}

impl ConfigDiscovery {
    pub fn new(debug_mode: bool) -> (out: ConfigDiscovery)
        ensures
            out.debug_mode() == debug_mode,
    {
        ConfigDiscovery { debug_mode }
    }

    /// Whether debug output is wanted.
    pub closed spec fn debug_mode(&self) -> bool {
        self.debug_mode
    }

    /// Whether debug output is wanted.
    pub fn is_debug(&self) -> (out: bool)
        ensures
            out == self.debug_mode(),
    {
        self.debug_mode
    }

    /// Whether a directory of this name may be the root of an application.
    pub fn is_potential_app_root(&self, dir_name: &str) -> (out: bool)
        ensures
            out == potential_app_root(dir_name@),
    {
        same_text(dir_name, "apps") || same_text(dir_name, "packages") || same_text(
            dir_name,
            "services",
        ) || same_text(dir_name, "libs") || same_text(dir_name, "src") || same_text(
            dir_name,
            "backend",
        ) || same_text(dir_name, "frontend") || same_text(dir_name, "api") || same_text(
            dir_name,
            "web",
        )
    }

    /// Whether the files below a directory of this name are left uncounted.
    pub fn is_uncounted_directory(&self, dir_name: &str) -> (out: bool)
        ensures
            out == uncounted_directory(dir_name@),
    {
        same_text(dir_name, "node_modules") || same_text(dir_name, ".git") || same_text(
            dir_name,
            "target",
        ) || same_text(dir_name, "dist") || same_text(dir_name, "build") || same_text(
            dir_name,
            ".next",
        ) || same_text(dir_name, "__pycache__")
    }

    /// Whether the text of a manifest speaks of workspaces.
    pub fn manifest_mentions_workspaces(&self, content: &str) -> (out: bool)
        ensures
            out == mentions_workspaces(content@),
    {
        let text = chars_of(content);
        includes(&text, &chars_of("workspace")) || includes(&text, &chars_of("apps")) || includes(
            &text,
            &chars_of("packages"),
        )
    }

    /// Whether a project is a monorepo: one of its manifests speaks of
    /// workspaces, or it holds at least two of the usual workspace
    /// directories.
    pub fn is_monorepo(&self, manifest_hint: bool, workspace_directories: usize) -> (out: bool)
        ensures
            out == (manifest_hint || workspace_directories >= 2),
    {
        manifest_hint || workspace_directories >= 2
    }

    /// Puts the structure of a project together from what was counted.
    pub fn describe_structure(
        &self,
        is_monorepo: bool,
        file_count: usize,
        total_size: u64,
        roots: Vec<String>,
    ) -> (out: ProjectStructure)
        ensures
            out.project_type@ == project_type_for(is_monorepo, roots@.len()),
            out.file_count == file_count,
            out.total_size == total_size,
            out.roots == roots,
    {
        let project_type = if is_monorepo {
            "monorepo"
        } else if roots.len() > 1 {
            "multi-app"
        } else {
            "single"
        };
        ProjectStructure { project_type: project_type.to_owned(), file_count, total_size, roots }
    }
}

} // verus!
