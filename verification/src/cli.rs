//! The indexing front end's verifiable parts: the command-line shapes, the
//! file-skipping rules, and the default index location. Directory walking,
//! parsing and persistence I/O are driven from outside the library.

use vstd::prelude::*;
use crate::text::{contains_str, eq_str, spec_contains, spec_starts_with, starts_with_str};
use crate::paths::{file_name_of, join_path, spec_file_name, spec_join};

verus! {

/// The command-line surface of the indexer.
pub struct Cli {
    pub command: Commands,
}

/// The subcommands the indexer accepts.
pub enum Commands {
    Index { path: String, output: Option<String>, force: bool, verbose: bool },
    Serve { index: Option<String>, auto_refresh: bool, refresh_interval: Option<u64> },
    Mcp { project: Option<String>, refresh_interval: Option<u64> },
}

/// The project indexer's decision logic.
pub struct Indexer {
}

/// Whether a path is skipped during indexing: dependency, cache, build and
/// VCS directories, and hidden files other than `.env`.
pub open spec fn spec_should_skip(p: Seq<char>) -> bool {
    ||| spec_contains(p, "node_modules/"@)
    ||| spec_contains(p, ".git/"@)
    ||| spec_contains(p, "__pycache__/"@)
    ||| spec_contains(p, ".pytest_cache/"@)
    ||| spec_contains(p, "venv/"@)
    ||| spec_contains(p, ".venv/"@)
    ||| spec_contains(p, "env/"@)
    ||| spec_contains(p, ".env/"@)
    ||| spec_contains(p, "dist/"@)
    ||| spec_contains(p, "build/"@)
    ||| spec_contains(p, ".next/"@)
    ||| spec_contains(p, ".nuxt/"@)
    ||| spec_contains(p, "coverage/"@)
    ||| spec_contains(p, ".nyc_output/"@)
    ||| spec_contains(p, "target/"@)
    ||| spec_contains(p, ".DS_Store"@)
    ||| (spec_starts_with(spec_file_name(p), "."@) && spec_file_name(p) != ".env"@)
}

impl Indexer {
    pub fn new() -> (r: Indexer) {
        Indexer {  }
    }

    /// Applies the skip rules to one path.
    pub fn should_skip_file(&self, path: &str) -> (r: bool)
        ensures
            r == spec_should_skip(path@),
    {
        if contains_str(path, "node_modules/") || contains_str(path, ".git/") || contains_str(
            path,
            "__pycache__/",
        ) || contains_str(path, ".pytest_cache/") || contains_str(path, "venv/") || contains_str(
            path,
            ".venv/",
        ) || contains_str(path, "env/") || contains_str(path, ".env/") || contains_str(
            path,
            "dist/",
        ) || contains_str(path, "build/") || contains_str(path, ".next/") || contains_str(
            path,
            ".nuxt/",
        ) || contains_str(path, "coverage/") || contains_str(path, ".nyc_output/") || contains_str(
            path,
            "target/",
        ) || contains_str(path, ".DS_Store") {
            return true;
        }
        let name = file_name_of(path);
        starts_with_str(name.as_str(), ".") && !eq_str(name.as_str(), ".env")
    }

    /// Where the index lives by default: `.codegraph/index.bin` under the
    /// project.
    pub fn get_default_index_path(project_path: &str) -> (r: String)
        ensures
            r@ == spec_join(spec_join(project_path@, ".codegraph"@), "index.bin"@),
    {
        let first = join_path(project_path, ".codegraph");
        join_path(first.as_str(), "index.bin")
    }
}

} // verus!
