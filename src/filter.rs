use vstd::prelude::*;

verus! {

#[verifier::external_type_specification]
#[verifier::external_body]
pub struct ExRegex(regex::Regex);

#[verifier::external_type_specification]
#[verifier::external_body]
pub struct ExRegexError(regex::Error);

/// Whether the regular expression `pattern` compiles under the regex crate's
/// default settings (syntax and size limit).
pub uninterp spec fn pattern_compiles(pattern: Seq<char>) -> bool;

/// Whether the regular expression `pattern` matches somewhere in `haystack`.
pub uninterp spec fn regex_matches(pattern: Seq<char>, haystack: Seq<char>) -> bool;

/// Relies on regex::Regex::new: it fails exactly on the patterns that do not
/// compile, which depends on the pattern alone.
#[verifier::external_body]
fn compile_regex(pattern: &str) -> (r: Result<regex::Regex, regex::Error>)
    ensures
        r is Ok <==> pattern_compiles(pattern@),
{
    regex::Regex::new(pattern)
}

/// Relies on the `Display` impl of regex::Error for a readable message.
#[verifier::external_body]
fn regex_error_message(e: &regex::Error) -> (r: String) {
    e.to_string()
}

/// Relies on regex::Regex::is_match: true exactly when the regex matches
/// somewhere in `haystack`. The filter's regex is always the one that
/// `FileFilter::new` compiled from the filter's pattern (its fields are
/// private and `new` is its only constructor), so the answer is that of the
/// pattern.
#[verifier::external_body]
fn filter_regex_is_match(f: &FileFilter, haystack: &str) -> (r: bool)
    ensures
        r == regex_matches(f@, haystack@),
{
    f.regex.is_match(haystack)
}

/// Why a file filter could not be built.
#[derive(Debug, Clone, PartialEq, Eq)]
pub enum FilterError {
    /// The pattern does not compile; the message says why.
    InvalidPattern(String),
}

/// A compiled file-name filter, tested against the full path of each file.
///
/// The pattern is compiled once, when the filter is built, and kept beside
/// the compiled form so that both always agree.
pub struct FileFilter {
    pattern: String,
    regex: regex::Regex,
}

impl View for FileFilter {
    type V = Seq<char>;

    /// The pattern the filter was compiled from.
    closed spec fn view(&self) -> Seq<char> {
        self.pattern@
    }
}

impl FileFilter {
    /// Compiles `pattern`; fails exactly when the pattern does not compile.
    pub fn new(pattern: &str) -> (r: Result<FileFilter, FilterError>)
        ensures
            r is Ok <==> pattern_compiles(pattern@),
            r matches Ok(f) ==> f@ == pattern@,
    {
        match compile_regex(pattern) {
            Ok(regex) => Ok(FileFilter { pattern: pattern.to_string(), regex }),
            Err(e) => Err(FilterError::InvalidPattern(regex_error_message(&e))),
        }
    }

    /// The pattern the filter was compiled from.
    pub fn pattern(&self) -> (r: &str)
        ensures
            r@ == self@,
    {
        self.pattern.as_str()
    }

    /// Whether `path` passes the filter.
    pub fn is_match(&self, path: &str) -> (r: bool)
        ensures
            r == regex_matches(self@, path@),
    {
        filter_regex_is_match(self, path)
    }
}

/// Whether a path passes an optional filter given by its pattern: no filter
/// lets every path through.
pub open spec fn accepts(filter: Option<Seq<char>>, path: Seq<char>) -> bool {
    match filter {
        None => true,
        Some(p) => regex_matches(p, path),
    }
}

/// The pattern of an optional filter.
pub open spec fn filter_pattern(filter: Option<FileFilter>) -> Option<Seq<char>> {
    match filter {
        None => None,
        Some(f) => Some(f@),
    }
}

/// Whether `path` passes `filter`; with no filter every path passes.
pub fn passes(filter: &Option<FileFilter>, path: &str) -> (r: bool)
    ensures
        r == accepts(filter_pattern(*filter), path@),
{
    match filter {
        None => true,
        Some(f) => f.is_match(path),
    }
}

} // verus!
