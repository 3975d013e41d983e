//! The immutable search configuration, built once before traversal starts and
//! read by every other component, and the smart-case policy.

use vstd::prelude::*;
use crate::cmd::CommandTemplate;
use crate::strutil::{concat_str, has_upper, has_uppercase_char, lower_of, to_lowercase};
use crate::walk::FileType;

verus! {

/// Everything a run is configured with. Never mutated after construction.
pub struct SearchConfig {
    /// Match case-sensitively (the smart-case policy already resolved).
    pub case_sensitive: bool,
    /// Match against the full path instead of the basename alone.
    pub search_full_path: bool,
    /// Prune entries whose name starts with a dot.
    pub ignore_hidden: bool,
    /// Consult generic ignore files.
    pub read_ignore: bool,
    /// Consult VCS ignore files as well.
    pub read_gitignore: bool,
    /// Follow symbolic links while walking.
    pub follow_links: bool,
    /// Separate printed paths by NUL instead of newline.
    pub null_separator: bool,
    /// Entries strictly deeper than this are neither reported nor entered.
    pub max_depth: Option<usize>,
    /// Number of walker threads, at least 1.
    pub threads: usize,
    /// How long to buffer output before streaming; absent means stream at
    /// once.
    pub max_buffer_time_ms: Option<u64>,
    /// Accepted entry tags.
    pub file_types: Vec<FileType>,
    /// Accepted extensions, already lowercased, without a leading dot;
    /// absent means any.
    pub extensions: Option<Vec<String>>,
    /// The command template to run per match, if any.
    pub command: Option<CommandTemplate>,
    /// Exclude rules, each already written as a negated override glob.
    pub exclude_patterns: Vec<String>,
}

impl SearchConfig {
    /// The one structural invariant: at least one worker.
    pub open spec fn wf(&self) -> bool {
        self.threads >= 1
    }

    /// Whether the configured set of tags accepts `ft`.
    pub open spec fn type_accepted(&self, ft: FileType) -> bool {
        self.file_types@.contains(ft)
    }

    /// Test an entry tag against the configured set.
    pub fn accepts_type(&self, ft: FileType) -> (r: bool)
        ensures
            r == self.type_accepted(ft),
    {
        let n = self.file_types.len();
        let mut i: usize = 0;
        while i < n
            invariant
                n == self.file_types@.len(),
                i <= n,
                forall|k: int| 0 <= k < i ==> self.file_types@[k] != ft,
            decreases n - i,
        {
            if self.file_types[i] == ft {
                proof {
                    assert(self.file_types@[i as int] == ft);
                }
                return true;
            }
            i = i + 1;
        }
        false
    }
}

/// Smart case: matching is case-sensitive iff the user forced it or the
/// pattern holds an uppercase character — unless ignore-case overrides both.
pub fn resolve_case_sensitivity(ignore_case: bool, force_case_sensitive: bool, pattern: &str) -> (r:
    bool)
    ensures
        r == (!ignore_case && (force_case_sensitive || has_upper(pattern@))),
{
    !ignore_case && (force_case_sensitive || has_uppercase_char(pattern))
}

/// The default accepted tags: regular files, directories and symlinks.
pub fn default_file_types() -> (r: Vec<FileType>)
    ensures
        r@ == seq![FileType::RegularFile, FileType::Directory, FileType::SymLink],
{
    let mut r: Vec<FileType> = Vec::new();
    r.push(FileType::RegularFile);
    r.push(FileType::Directory);
    r.push(FileType::SymLink);
    proof {
        assert(r@ =~= seq![FileType::RegularFile, FileType::Directory, FileType::SymLink]);
    }
    r
}

/// `s` without its leading dots.
pub open spec fn strip_leading_dots(s: Seq<char>) -> Seq<char>
    decreases s.len(),
{
    if s.len() > 0 && s[0] == '.' {
        strip_leading_dots(s.drop_first())
    } else {
        s
    }
}

/// The index where the leading dots of `e` end.
fn first_non_dot(e: &str) -> (i: usize)
    ensures
        i <= e@.len(),
        strip_leading_dots(e@) == e@.skip(i as int),
{
    let n = e.unicode_len();
    let mut i: usize = 0;
    proof {
        assert(e@.skip(0) =~= e@);
    }
    while i < n
        invariant
            n == e@.len(),
            i <= n,
            strip_leading_dots(e@) == strip_leading_dots(e@.skip(i as int)),
        decreases n - i,
    {
        proof {
            assert(e@.skip(i as int)[0] == e@[i as int]);
            assert(e@.skip(i as int).drop_first() =~= e@.skip(i as int + 1));
        }
        if e.get_char(i) != '.' {
            return i;
        }
        i = i + 1;
    }
    proof {
        assert(e@.skip(i as int).len() == 0);
    }
    i
}

/// Normalize one user-given extension: drop leading dots, fold to lower case.
pub fn normalize_extension(e: &str) -> (r: String)
    ensures
        r@ == lower_of(strip_leading_dots(e@)),
{
    let n = e.unicode_len();
    let i = first_non_dot(e);
    let tail = e.substring_char(i, n);
    proof {
        assert(tail@ == e@.skip(i as int));
    }
    to_lowercase(tail)
}

/// Materialize one user exclude pattern as an override rule: prefixing `!`
/// turns it into a highest-precedence ignore line, so exclusion prunes
/// during traversal rather than hiding entries after it.
pub fn make_exclude_rule(pattern: &str) -> (r: String)
    ensures
        r@ == "!"@ + pattern@,
{
    concat_str("!", pattern)
}

/// At least one worker thread, whatever count was asked for.
pub fn clamp_threads(requested: usize) -> (r: usize)
    ensures
        r >= 1,
        requested >= 1 ==> r == requested,
        requested == 0 ==> r == 1,
{
    if requested == 0 {
        1
    } else {
        requested
    }
}

} // verus!
