//! The entry filter: file-type and extension tests, AND-combined. The
//! exclude globs are not applied here — they live in the ignore-rule layer
//! the walker consults, so excluded directories are pruned during traversal.

use vstd::prelude::*;
use crate::config::SearchConfig;
use crate::strutil::{extension, extension_of, lower_of, to_lowercase};
use crate::walk::FileType;

verus! {

/// The configured extension set, if any, as sequences.
pub open spec fn exts_model(config: SearchConfig) -> Option<Seq<Seq<char>>> {
    match config.extensions {
        Some(v) => Some(v.deep_view()),
        None => None,
    }
}

/// Whether the extension filter accepts a basename: no set means everything;
/// a set means the name's lowercased extension must be a member.
pub open spec fn ext_accepted(exts: Option<Seq<Seq<char>>>, name: Seq<char>) -> bool {
    match exts {
        None => true,
        Some(set) => match extension_of(name) {
            Some(e) => set.contains(lower_of(e)),
            None => false,
        },
    }
}

/// Whether both filters accept an entry of tag `ft` and basename `name`.
pub open spec fn passes_filters(config: SearchConfig, ft: FileType, name: Seq<char>) -> bool {
    config.type_accepted(ft) && ext_accepted(exts_model(config), name)
}

/// Whether a vector of strings holds one with the given characters.
fn contains_string(v: &Vec<String>, s: &String) -> (r: bool)
    ensures
        r == v.deep_view().contains(s@),
{
    let n = v.len();
    let mut i: usize = 0;
    while i < n
        invariant
            n == v@.len(),
            i <= n,
            forall|k: int| 0 <= k < i ==> v.deep_view()[k] != s@,
        decreases n - i,
    {
        if v[i] == *s {
            proof {
                assert(v.deep_view()[i as int] == s@);
            }
            return true;
        }
        i = i + 1;
    }
    proof {
        assert forall|k: int| 0 <= k < v.deep_view().len() implies v.deep_view()[k] != s@ by {}
    }
    false
}

/// Apply the file-type and extension filters to one candidate entry.
pub fn entry_passes_filters(config: &SearchConfig, ft: FileType, name: &str) -> (r: bool)
    ensures
        r == passes_filters(*config, ft, name@),
{
    if !config.accepts_type(ft) {
        return false;
    }
    match &config.extensions {
        None => true,
        Some(set) => {
            match extension(name) {
                Some(e) => {
                    let low = to_lowercase(e.as_str());
                    contains_string(set, &low)
                },
                None => false,
            }
        },
    }
}

} // verus!
