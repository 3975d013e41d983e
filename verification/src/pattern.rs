//! The pattern matcher: a compiled regular expression (regex crate) plus the
//! resolved case policy and the full-path-versus-basename choice. The regex
//! engine is relied upon through the contracts below; everything around it is
//! verified.

use vstd::prelude::*;

verus! {

/// Outside type: a compiled regular expression of the regex crate.
#[verifier::external_type_specification]
#[verifier::external_body]
pub struct ExRegex(regex::Regex);

/// Outside type: the regex crate's compilation error.
#[verifier::external_type_specification]
#[verifier::external_body]
pub struct ExRegexError(regex::Error);

/// The pattern text a compiled expression was built from.
pub uninterp spec fn re_pattern(re: regex::Regex) -> Seq<char>;

/// Whether the expression was compiled case-insensitive.
pub uninterp spec fn re_case_insensitive(re: regex::Regex) -> bool;

/// Whether the expression `pattern`, compiled with the given case policy and
/// with `.` also matching newline, matches somewhere in `text` — a function
/// of these three alone.
pub uninterp spec fn re_match(pattern: Seq<char>, case_insensitive: bool, text: Seq<char>) -> bool;

/// Whether `pattern` is a valid regular expression under the given case
/// policy — compilation success is a function of the pattern text and the
/// flags alone.
pub uninterp spec fn re_compiles(pattern: Seq<char>, case_insensitive: bool) -> bool;

/// Relies on regex::RegexBuilder: `new` takes the pattern text,
/// `case_insensitive` and `dot_matches_new_line` set those two flags, and
/// `build` compiles the pattern, failing exactly on an invalid one — every
/// other build setting is fixed here, so success depends on these two alone.
#[verifier::external_body]
fn compile_regex(pattern: &str, case_insensitive: bool) -> (r: Result<regex::Regex, regex::Error>)
    ensures
        (r is Ok) == re_compiles(pattern@, case_insensitive),
        r matches Ok(re) ==> re_pattern(re) == pattern@ && re_case_insensitive(re)
            == case_insensitive,
{
    regex::RegexBuilder::new(pattern).case_insensitive(case_insensitive).dot_matches_new_line(
        true,
    ).build()
}

/// Relies on regex::Regex::is_match: whether the expression matches anywhere
/// in `text`; the answer depends on the compiled pattern, its flags and the
/// text alone.
#[verifier::external_body]
fn regex_is_match(re: &regex::Regex, text: &str) -> (r: bool)
    ensures
        r == re_match(re_pattern(*re), re_case_insensitive(*re), text@),
{
    re.is_match(text)
}

/// The pattern was not a valid regular expression: a fatal startup error.
#[derive(Clone, Copy, PartialEq, Eq, Structural, Debug)]
pub enum PatternError {
    InvalidPattern,
}

/// A compiled search pattern plus what it is matched against.
pub struct PatternMatcher {
    pub re: regex::Regex,
    pub search_full_path: bool,
}

impl PatternMatcher {
    /// The pattern text this matcher searches for.
    pub open spec fn pattern(&self) -> Seq<char> {
        re_pattern(self.re)
    }

    /// Whether this matcher ignores case.
    pub open spec fn case_insensitive(&self) -> bool {
        re_case_insensitive(self.re)
    }

    /// What it means for this matcher to accept an entry: the expression
    /// matches the full path when so configured, else the basename.
    pub open spec fn spec_matches(&self, path: Seq<char>, name: Seq<char>) -> bool {
        if self.search_full_path {
            re_match(self.pattern(), self.case_insensitive(), path)
        } else {
            re_match(self.pattern(), self.case_insensitive(), name)
        }
    }

    /// Compile a matcher. `case_sensitive` should already carry the resolved
    /// smart-case policy. Fails iff the pattern is invalid, before any
    /// traversal begins.
    pub fn new(pattern: &str, case_sensitive: bool, search_full_path: bool) -> (r: Result<
        PatternMatcher,
        PatternError,
    >)
        ensures
            (r is Ok) == re_compiles(pattern@, !case_sensitive),
            r matches Ok(m) ==> m.pattern() == pattern@ && m.case_insensitive() == !case_sensitive
                && m.search_full_path == search_full_path,
            r matches Err(e) ==> e == PatternError::InvalidPattern,
    {
        match compile_regex(pattern, !case_sensitive) {
            Ok(re) => Ok(PatternMatcher { re, search_full_path }),
            Err(_) => Err(PatternError::InvalidPattern),
        }
    }

    /// Test one entry, given its path and its basename.
    pub fn matches_entry(&self, path: &str, name: &str) -> (r: bool)
        ensures
            r == self.spec_matches(path@, name@),
    {
        if self.search_full_path {
            regex_is_match(&self.re, path)
        } else {
            regex_is_match(&self.re, name)
        }
    }
}

} // verus!
