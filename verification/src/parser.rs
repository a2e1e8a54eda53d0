//! Dispatch for the per-language parsers: which language a file belongs to.
//! The parsers themselves — black-box producers of symbol and relation
//! records — live outside the library.

use vstd::prelude::*;
use crate::graph::Language;
use crate::paths::spec_extension;
use crate::text::eq_str;

verus! {

/// The language a path's extension selects, if any.
pub open spec fn spec_language(p: Seq<char>) -> Option<Language> {
    match spec_extension(p) {
        Some(e) => if e == "py"@ {
            Some(Language::Python)
        } else if e == "js"@ || e == "jsx"@ || e == "mjs"@ {
            Some(Language::JavaScript)
        } else if e == "ts"@ || e == "tsx"@ {
            Some(Language::TypeScript)
        } else if e == "rs"@ {
            Some(Language::Rust)
        } else {
            None
        },
        None => None,
    }
}

/// Chooses per-language parsers by file extension; the parsers themselves
/// are external collaborators.
pub struct ParserManager {
}

impl ParserManager {
    pub fn new() -> (r: ParserManager) {
        ParserManager {  }
    }

    /// The language a file would be parsed as.
    pub fn get_language(file_path: &str) -> (r: Option<Language>)
        ensures
            r == spec_language(file_path@),
    {
        match crate::paths::extension_of(file_path) {
            Some(e) => {
                let ext = e.as_str();
                if eq_str(ext, "py") {
                    Some(Language::Python)
                } else if eq_str(ext, "js") || eq_str(ext, "jsx") || eq_str(ext, "mjs") {
                    Some(Language::JavaScript)
                } else if eq_str(ext, "ts") || eq_str(ext, "tsx") {
                    Some(Language::TypeScript)
                } else if eq_str(ext, "rs") {
                    Some(Language::Rust)
                } else {
                    None
                }
            },
            None => None,
        }
    }
}

} // verus!
