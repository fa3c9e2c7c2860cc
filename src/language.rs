//! Source languages, told apart by file extension.
use vstd::prelude::*;

use crate::project::extension_of;
use crate::symbols::lower_of;

verus! {

/// Languages the front end reads.
#[derive(Debug, Clone, Copy, PartialEq, Eq, Structural)]
pub enum Language {
    C,
    Cpp,
}

/// Failures of the source front end.
#[derive(Debug)]
pub enum ParseError {
    LanguageError(String),
    ParseFailed,
    Io(String),
}

/// The language of a file with extension `ext`, letter case aside.
pub open spec fn language_of_extension(ext: Seq<char>) -> Option<Language> {
    let e = lower_of(ext);
    if e == "c"@ || e == "h"@ {
        Some(Language::C)
    } else if e == "cpp"@ || e == "cxx"@ || e == "cc"@ || e == "hpp"@ || e == "hxx"@ || e == "hh"@ {
        Some(Language::Cpp)
    } else {
        None
    }
}

impl Language {
    /// The language of the file at `path`, judged by its extension.
    pub fn from_path(path: &str) -> (r: Option<Self>)
        ensures
            r == match extension_of(path@) {
                Some(e) => language_of_extension(e),
                None => None,
            },
    {
        let cs = crate::text::chars_of(path);
        match crate::project::extension_chars(&cs) {
            Some(e) => {
                proof {
                    crate::project::lemma_extension_is_suffix(cs@);
                }
                let ext = crate::text::slice_string(path, cs.len() - e.len(), cs.len());
                let low = crate::text::chars_of(crate::symbols::lowercase(ext.as_str()).as_str());
                if crate::project::literal_eq(&low, "c") || crate::project::literal_eq(&low, "h") {
                    Some(Language::C)
                } else if crate::project::literal_eq(&low, "cpp") || crate::project::literal_eq(&low, "cxx")
                    || crate::project::literal_eq(&low, "cc") || crate::project::literal_eq(&low, "hpp")
                    || crate::project::literal_eq(&low, "hxx") || crate::project::literal_eq(&low, "hh") {
                    Some(Language::Cpp)
                } else {
                    None
                }
            },
            None => None,
        }
    }
}

} // verus!
