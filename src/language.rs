//! The languages whose indexes can be analysed.
use vstd::prelude::*;

verus! {

/// A supported programming language.
#[derive(Debug, Clone, Copy, PartialEq, Eq)]
pub enum Language {
    Rust,
    Python,
}

/// The characters of `s` in lower case, as `str::to_lowercase` gives them.
pub uninterp spec fn lower_of(s: Seq<char>) -> Seq<char>;

/// Relies on `str::to_lowercase`: the result depends on the characters alone,
/// and the empty string stays empty.
#[verifier::external_body]
pub(crate) fn lowercase(s: &str) -> (r: String)
    ensures
        r@ == lower_of(s@),
        s@.len() == 0 ==> r@.len() == 0,
{
    s.to_lowercase()
}

/// The extension of the last component of `path`, as `Path::extension`
/// gives it, where it has one that is valid text.
pub uninterp spec fn extension_of(path: Seq<char>) -> Option<Seq<char>>;

/// Relies on `std::path::Path::extension` (and `OsStr::to_str`): the result
/// depends on the path alone.
#[verifier::external_body]
pub(crate) fn path_extension(path: &str) -> (r: Option<String>)
    ensures
        match r {
            Some(e) => extension_of(path@) == Some(e@),
            None => extension_of(path@) is None,
        },
{
    std::path::Path::new(path).extension().and_then(|e| e.to_str()).map(|e| e.to_string())
}

/// The language a lower-case name or abbreviation stands for.
pub open spec fn language_named(lower: Seq<char>) -> Option<Language> {
    if lower == "rust"@ || lower == "rs"@ {
        Some(Language::Rust)
    } else if lower == "python"@ || lower == "py"@ {
        Some(Language::Python)
    } else {
        None
    }
}

/// The language whose files carry the lower-case extension `lower`.
pub open spec fn language_of_extension(lower: Seq<char>) -> Option<Language> {
    if lower == "rs"@ {
        Some(Language::Rust)
    } else if lower == "py"@ {
        Some(Language::Python)
    } else {
        None
    }
}

fn str_eq(a: &str, b: &str) -> (r: bool)
    ensures
        r == (a@ == b@),
{
    String::from_str(a) == String::from_str(b)
}

impl Language {
    /// The language a lower-case name or abbreviation stands for.
    pub fn from_lowercase_name(lower: &str) -> (r: Option<Language>)
        ensures
            r == language_named(lower@),
    {
        if str_eq(lower, "rust") || str_eq(lower, "rs") {
            Some(Language::Rust)
        } else if str_eq(lower, "python") || str_eq(lower, "py") {
            Some(Language::Python)
        } else {
            None
        }
    }

    /// The language a name or abbreviation stands for, in any case.
    pub fn from_str(s: &str) -> (r: Option<Language>)
        ensures
            r == language_named(lower_of(s@)),
    {
        let lower = lowercase(s);
        Self::from_lowercase_name(lower.as_str())
    }

    /// The language whose files carry the lower-case extension `lower`.
    pub fn from_lowercase_extension(lower: &str) -> (r: Option<Language>)
        ensures
            r == language_of_extension(lower@),
    {
        if str_eq(lower, "rs") {
            Some(Language::Rust)
        } else if str_eq(lower, "py") {
            Some(Language::Python)
        } else {
            None
        }
    }

    /// The language whose files carry the extension `ext`, in any case.
    pub fn from_extension(ext: &str) -> (r: Option<Language>)
        ensures
            r == language_of_extension(lower_of(ext@)),
    {
        let lower = lowercase(ext);
        Self::from_lowercase_extension(lower.as_str())
    }

    /// The language of the file at `path`, by its extension.
    pub fn from_path(path: &str) -> (r: Option<Language>)
        ensures
            r == match extension_of(path@) {
                Some(e) => language_of_extension(lower_of(e)),
                None => None,
            },
    {
        match path_extension(path) {
            Some(e) => Self::from_extension(e.as_str()),
            None => None,
        }
    }

    /// The display name.
    pub fn name(&self) -> (r: &'static str)
        ensures
            r@ == match self {
                Language::Rust => "Rust"@,
                Language::Python => "Python"@,
            },
    {
        match self {
            Language::Rust => "Rust",
            Language::Python => "Python",
        }
    }

    /// The file extensions of the language.
    pub fn extensions(&self) -> (r: Vec<&'static str>)
        ensures
            r@.len() == 1,
            r@[0]@ == match self {
                Language::Rust => "rs"@,
                Language::Python => "py"@,
            },
    {
        match self {
            Language::Rust => vec!["rs"],
            Language::Python => vec!["py"],
        }
    }

    /// The program that produces the index for this language.
    pub fn scip_command(&self) -> (r: &'static str)
        ensures
            r@ == match self {
                Language::Rust => "rust-analyzer"@,
                Language::Python => "scip-python"@,
            },
    {
        match self {
            Language::Rust => "rust-analyzer",
            Language::Python => "scip-python",
        }
    }

    /// How to install the indexing program.
    pub fn install_instructions(&self) -> (r: &'static str)
        ensures
            r@ == match self {
                Language::Rust => "Install rust-analyzer: https://rust-analyzer.github.io/manual.html#installation"@,
                Language::Python => "Install scip-python: npm install -g @sourcegraph/scip-python"@,
            },
    {
        match self {
            Language::Rust => "Install rust-analyzer: https://rust-analyzer.github.io/manual.html#installation",
            Language::Python => "Install scip-python: npm install -g @sourcegraph/scip-python",
        }
    }
}

impl Default for Language {
    fn default() -> (r: Language)
        ensures
            r == Language::Rust,
    {
        Language::Rust
    }
}

} // verus!
