//! Traversal data: entry tags, accepted entries, and the set of directory
//! identities already entered, which keeps a walk that follows symlinks from
//! visiting a directory twice.

use vstd::prelude::*;
use crate::config::SearchConfig;
use crate::exclude::{ov_globs, ov_root, override_ignores, override_matched_ignore};
use crate::filter::{entry_passes_filters, passes_filters};
use crate::pattern::PatternMatcher;
use crate::strutil::append_str;

verus! {

/// The tag of a filesystem entry.
#[derive(Clone, Copy, PartialEq, Eq, Structural, Debug)]
pub enum FileType {
    RegularFile,
    Directory,
    SymLink,
}

/// One accepted filesystem entry: its path, its tag, and its depth below the
/// root it was found under (a root's own children have depth 1).
pub struct WalkEntry {
    pub path: String,
    pub file_type: FileType,
    pub depth: usize,
}


/// The identity of a directory on disk: device and inode numbers (or the
/// platform's equivalent pair).
#[derive(Clone, Copy, PartialEq, Eq, Structural, Debug)]
pub struct FileId {
    pub device: u64,
    pub inode: u64,
}

/// The directory identities already entered during one walk.
pub struct VisitedSet {
    pub ids: Vec<FileId>,
}

impl VisitedSet {
    /// The set never holds an identity twice.
    pub open spec fn wf(&self) -> bool {
        self.ids@.no_duplicates()
    }

    /// Whether `id` was already recorded.
    pub open spec fn has_visited(&self, id: FileId) -> bool {
        self.ids@.contains(id)
    }

    /// An empty set: no directory has been entered yet.
    pub fn new() -> (r: VisitedSet)
        ensures
            r.wf(),
            forall|id: FileId| !r.has_visited(id),
    {
        let r = VisitedSet { ids: Vec::new() };
        proof {
            assert forall|id: FileId| !r.has_visited(id) by {
                assert(r.ids@.len() == 0);
            }
        }
        r
    }

    /// Record that the walk is about to enter the directory with identity
    /// `id`. Returns true iff the directory was never entered before; only
    /// then is it recorded, so a cycle of followed symlinks is entered once.
    pub fn record_visit(&mut self, id: FileId) -> (fresh: bool)
        requires
            old(self).wf(),
        ensures
            final(self).wf(),
            fresh == !old(self).has_visited(id),
            fresh ==> final(self).ids@ == old(self).ids@.push(id),
            !fresh ==> final(self).ids@ == old(self).ids@,
            final(self).has_visited(id),
    {
        let n = self.ids.len();
        let mut i: usize = 0;
        while i < n
            invariant
                self == old(self),
                old(self).wf(),
                n == self.ids@.len(),
                i <= n,
                forall|k: int| 0 <= k < i ==> self.ids@[k] != id,
            decreases n - i,
        {
            if self.ids[i] == id {
                proof {
                    assert(self.ids@[i as int] == id);
                }
                return false;
            }
            i = i + 1;
        }
        proof {
            let s = self.ids@;
            assert(!s.contains(id));
            assert(s.push(id).no_duplicates()) by {
                assert forall|p: int, q: int|
                    0 <= p < s.push(id).len() && 0 <= q < s.push(id).len() && p != q implies s.push(
                    id,
                )[p] != s.push(id)[q] by {
                    if p < s.len() && q < s.len() {
                        assert(s.push(id)[p] == s[p] && s.push(id)[q] == s[q]);
                    } else if p < s.len() {
                        assert(s.push(id)[q] == id && s.push(id)[p] == s[p]);
                    } else {
                        assert(s.push(id)[p] == id && s.push(id)[q] == s[q]);
                    }
                }
            }
        }
        self.ids.push(id);
        proof {
            assert(self.ids@[self.ids@.len() - 1] == id);
        }
        true
    }

    /// No directory is entered twice: any two positions among the recorded
    /// identities hold different directories, so no path below a revisited
    /// directory can be reported a second time.
    pub proof fn lemma_no_directory_entered_twice(&self, i: int, j: int)
        requires
            self.wf(),
            0 <= i < j < self.ids@.len(),
        ensures
            self.ids@[i] != self.ids@[j],
    {
    }
}

/// What the caller read from disk for one child of a directory being listed.
pub struct ChildEntry {
    /// The basename.
    pub name: String,
    /// Its tag, as the configured symlink policy resolved it.
    pub file_type: FileType,
    /// Whether the per-directory ignore-rule layer excluded it.
    pub ignored_by_rules: bool,
}

/// A directory the walk still has to enter, with its depth.
pub struct PendingDir {
    pub path: String,
    pub depth: usize,
}

/// What processing one directory listing produced: the accepted entries, in
/// listing order, and the subdirectories to enter next.
pub struct DirOutcome {
    pub matches: Vec<WalkEntry>,
    pub subdirs: Vec<PendingDir>,
}

/// The mathematical shape of an accepted entry.
#[verifier::ext_equal]
pub struct EntryModel {
    pub path: Seq<char>,
    pub file_type: FileType,
    pub depth: int,
}

impl View for WalkEntry {
    type V = EntryModel;

    open spec fn view(&self) -> EntryModel {
        EntryModel { path: self.path@, file_type: self.file_type, depth: self.depth as int }
    }
}

/// The mathematical shape of a pending directory.
#[verifier::ext_equal]
pub struct PendingModel {
    pub path: Seq<char>,
    pub depth: int,
}

impl View for PendingDir {
    type V = PendingModel;

    open spec fn view(&self) -> PendingModel {
        PendingModel { path: self.path@, depth: self.depth as int }
    }
}

/// The models of a vector of entries.
pub open spec fn entry_models(s: Seq<WalkEntry>) -> Seq<EntryModel> {
    s.map_values(|e: WalkEntry| e@)
}

/// The models of a vector of pending directories.
pub open spec fn pending_models(s: Seq<PendingDir>) -> Seq<PendingModel> {
    s.map_values(|p: PendingDir| p@)
}

/// A child's path below the directory being listed.
pub open spec fn joined_path(dir: Seq<char>, name: Seq<char>) -> Seq<char> {
    dir + "/"@ + name
}

/// The platform convention for hidden entries: a name starting with a dot.
pub open spec fn is_hidden_name(name: Seq<char>) -> bool {
    name.len() > 0 && name[0] == '.'
}

/// Whether depth `d` is within the configured bound.
pub open spec fn within_depth(max_depth: Option<usize>, d: int) -> bool {
    match max_depth {
        Some(m) => d <= m,
        None => true,
    }
}

/// Whether a child is pruned outright: hidden while hidden entries are
/// ignored, excluded by the ignore-rule layer, excluded by an override glob,
/// or deeper than the bound. A pruned child is neither reported nor entered.
pub open spec fn child_pruned(
    config: SearchConfig,
    root: Seq<char>,
    globs: Seq<Seq<char>>,
    dir: Seq<char>,
    c: ChildEntry,
    child_depth: int,
) -> bool {
    ||| (config.ignore_hidden && is_hidden_name(c.name@))
    ||| (config.read_ignore && c.ignored_by_rules)
    ||| override_ignores(root, globs, joined_path(dir, c.name@), c.file_type is Directory)
    ||| !within_depth(config.max_depth, child_depth)
}

/// Whether a child is reported: not pruned, accepted by the type and
/// extension filters, and matched by the pattern.
pub open spec fn child_reported(
    config: SearchConfig,
    matcher: PatternMatcher,
    root: Seq<char>,
    globs: Seq<Seq<char>>,
    dir: Seq<char>,
    c: ChildEntry,
    child_depth: int,
) -> bool {
    &&& !child_pruned(config, root, globs, dir, c, child_depth)
    &&& passes_filters(config, c.file_type, c.name@)
    &&& matcher.spec_matches(joined_path(dir, c.name@), c.name@)
}

/// Whether the walk enters a child directory: not pruned, a directory, and
/// strictly above the depth bound, so its own children stay within it.
pub open spec fn child_descended(
    config: SearchConfig,
    root: Seq<char>,
    globs: Seq<Seq<char>>,
    dir: Seq<char>,
    c: ChildEntry,
    child_depth: int,
) -> bool {
    &&& !child_pruned(config, root, globs, dir, c, child_depth)
    &&& c.file_type is Directory
    &&& match config.max_depth {
        Some(m) => child_depth < m,
        None => true,
    }
}

/// The model of the entry a reported child becomes.
pub open spec fn entry_model_of(dir: Seq<char>, c: ChildEntry, child_depth: int) -> EntryModel {
    EntryModel { path: joined_path(dir, c.name@), file_type: c.file_type, depth: child_depth }
}

/// The entries a listing must report, in listing order.
pub open spec fn expected_matches(
    config: SearchConfig,
    matcher: PatternMatcher,
    root: Seq<char>,
    globs: Seq<Seq<char>>,
    dir: Seq<char>,
    children: Seq<ChildEntry>,
    child_depth: int,
) -> Seq<EntryModel>
    decreases children.len(),
{
    if children.len() == 0 {
        Seq::empty()
    } else {
        let head: Seq<EntryModel> = if child_reported(
            config,
            matcher,
            root,
            globs,
            dir,
            children[0],
            child_depth,
        ) {
            seq![entry_model_of(dir, children[0], child_depth)]
        } else {
            Seq::empty()
        };
        head + expected_matches(config, matcher, root, globs, dir, children.drop_first(), child_depth)
    }
}

/// The subdirectories a listing must queue, in listing order.
pub open spec fn expected_subdirs(
    config: SearchConfig,
    root: Seq<char>,
    globs: Seq<Seq<char>>,
    dir: Seq<char>,
    children: Seq<ChildEntry>,
    child_depth: int,
) -> Seq<PendingModel>
    decreases children.len(),
{
    if children.len() == 0 {
        Seq::empty()
    } else {
        let head: Seq<PendingModel> = if child_descended(
            config,
            root,
            globs,
            dir,
            children[0],
            child_depth,
        ) {
            seq![PendingModel { path: joined_path(dir, children[0].name@), depth: child_depth }]
        } else {
            Seq::empty()
        };
        head + expected_subdirs(config, root, globs, dir, children.drop_first(), child_depth)
    }
}

/// A child's path below the directory being listed.
pub fn join_path(dir: &str, name: &str) -> (r: String)
    ensures
        r@ == joined_path(dir@, name@),
{
    let mut r = dir.to_owned();
    append_str(&mut r, "/");
    append_str(&mut r, name);
    proof {
        assert(r@ =~= joined_path(dir@, name@));
    }
    r
}

/// Whether a basename follows the hidden convention.
pub fn starts_with_dot(name: &str) -> (r: bool)
    ensures
        r == is_hidden_name(name@),
{
    if name.is_empty() {
        false
    } else {
        name.get_char(0) == '.'
    }
}

/// Whether depth `d` is beyond the configured bound.
fn exceeds_depth(max_depth: Option<usize>, d: usize) -> (r: bool)
    ensures
        r == !within_depth(max_depth, d as int),
{
    match max_depth {
        Some(m) => d > m,
        None => false,
    }
}

/// Process one directory listing: decide for every child, in order, whether
/// it is reported and whether it is entered. Every decision of the walk but
/// the reading of the disk happens here.
///
/// The outcome is a function of the configuration, the pattern, the exclude
/// overrides and the listing alone — so the set of reported entries does not
/// depend on how many workers share the walk or how their arrivals
/// interleave.
pub fn process_directory(
    config: &SearchConfig,
    matcher: &PatternMatcher,
    excludes: &ignore::overrides::Override,
    dir_path: &str,
    dir_depth: usize,
    children: &Vec<ChildEntry>,
) -> (r: DirOutcome)
    requires
        dir_depth < usize::MAX,
    ensures
        entry_models(r.matches@) == expected_matches(
            *config,
            *matcher,
            ov_root(*excludes),
            ov_globs(*excludes),
            dir_path@,
            children@,
            dir_depth + 1,
        ),
        pending_models(r.subdirs@) == expected_subdirs(
            *config,
            ov_root(*excludes),
            ov_globs(*excludes),
            dir_path@,
            children@,
            dir_depth + 1,
        ),
{
    let ghost root = ov_root(*excludes);
    let ghost globs = ov_globs(*excludes);
    let ghost all = children@;
    let ghost d = dir_depth + 1 as int;
    let child_depth = dir_depth + 1;
    let mut matches: Vec<WalkEntry> = Vec::new();
    let mut subdirs: Vec<PendingDir> = Vec::new();
    let n = children.len();
    let mut i: usize = 0;
    proof {
        assert(all.skip(0) =~= all);
        assert(entry_models(matches@) + expected_matches(*config, *matcher, root, globs, dir_path@, all, d)
            =~= expected_matches(*config, *matcher, root, globs, dir_path@, all, d));
        assert(pending_models(subdirs@) + expected_subdirs(*config, root, globs, dir_path@, all, d)
            =~= expected_subdirs(*config, root, globs, dir_path@, all, d));
    }
    while i < n
        invariant
            n == children@.len(),
            all == children@,
            root == ov_root(*excludes),
            globs == ov_globs(*excludes),
            d == dir_depth + 1,
            child_depth == dir_depth + 1,
            dir_depth < usize::MAX,
            i <= n,
            expected_matches(*config, *matcher, root, globs, dir_path@, all, d) == entry_models(
                matches@,
            ) + expected_matches(*config, *matcher, root, globs, dir_path@, all.skip(i as int), d),
            expected_subdirs(*config, root, globs, dir_path@, all, d) == pending_models(subdirs@)
                + expected_subdirs(*config, root, globs, dir_path@, all.skip(i as int), d),
        decreases n - i,
    {
        let ghost pend = all.skip(i as int);
        proof {
            assert(pend[0] == all[i as int]);
            assert(pend.drop_first() =~= all.skip(i as int + 1));
        }
        let c = &children[i];
        let path = join_path(dir_path, c.name.as_str());
        let is_dir = match c.file_type {
            FileType::Directory => true,
            _ => false,
        };
        let hidden = starts_with_dot(c.name.as_str());
        let e1 = config.ignore_hidden && hidden;
        let e2 = config.read_ignore && c.ignored_by_rules;
        let e3 = override_matched_ignore(excludes, path.as_str(), is_dir);
        let e4 = exceeds_depth(config.max_depth, child_depth);
        let pruned = e1 || e2 || e3 || e4;
        proof {
            let cm = all[i as int];
            assert(*c == cm);
            assert(hidden == is_hidden_name(cm.name@));
            assert(path@ == joined_path(dir_path@, cm.name@));
            assert(is_dir == (cm.file_type is Directory));
            assert((child_depth as int) == d);
            let p1 = config.ignore_hidden && is_hidden_name(cm.name@);
            let p2 = config.read_ignore && cm.ignored_by_rules;
            let p3 = override_ignores(root, globs, joined_path(dir_path@, cm.name@), cm.file_type is Directory);
            let p4 = !within_depth(config.max_depth, d);
            assert(e1 == p1);
            assert(e2 == p2);
            assert(e3 == p3);
            assert(e4 == p4);
            assert(child_pruned(*config, root, globs, dir_path@, cm, d) == (p1 || p2 || p3 || p4));
            assert(pruned == child_pruned(*config, root, globs, dir_path@, cm, d));
        }
        let ghost matches0 = matches@;
        let ghost subdirs0 = subdirs@;
        if !pruned {
            let fine = entry_passes_filters(config, c.file_type, c.name.as_str());
            let matched = if fine {
                matcher.matches_entry(path.as_str(), c.name.as_str())
            } else {
                false
            };
            let descend = is_dir && {
                match config.max_depth {
                    Some(m) => child_depth < m,
                    None => true,
                }
            };
            if fine && matched {
                matches.push(
                    WalkEntry { path: path.clone(), file_type: c.file_type, depth: child_depth },
                );
            }
            if descend {
                subdirs.push(PendingDir { path: path, depth: child_depth });
            }
        }
        proof {
            let cm = all[i as int];
            let reported = child_reported(*config, *matcher, root, globs, dir_path@, cm, d);
            let descended = child_descended(*config, root, globs, dir_path@, cm, d);
            if reported {
                assert(entry_models(matches@) =~= entry_models(matches0).push(
                    entry_model_of(dir_path@, cm, d),
                )) by {
                    assert(matches@ == matches0.push(matches@[matches@.len() - 1]));
                }
            } else {
                assert(matches@ == matches0);
            }
            if descended {
                assert(pending_models(subdirs@) =~= pending_models(subdirs0).push(
                    PendingModel { path: joined_path(dir_path@, cm.name@), depth: d },
                )) by {
                    assert(subdirs@ == subdirs0.push(subdirs@[subdirs@.len() - 1]));
                }
            } else {
                assert(subdirs@ == subdirs0);
            }
            assert(expected_matches(*config, *matcher, root, globs, dir_path@, pend, d)
                == (if reported { seq![entry_model_of(dir_path@, cm, d)] } else { Seq::<EntryModel>::empty() })
                + expected_matches(*config, *matcher, root, globs, dir_path@, all.skip(i as int + 1), d));
            assert(expected_subdirs(*config, root, globs, dir_path@, pend, d)
                == (if descended { seq![PendingModel { path: joined_path(dir_path@, cm.name@), depth: d }] } else { Seq::<PendingModel>::empty() })
                + expected_subdirs(*config, root, globs, dir_path@, all.skip(i as int + 1), d));
            assert(expected_matches(*config, *matcher, root, globs, dir_path@, all, d)
                =~= entry_models(matches@) + expected_matches(*config, *matcher, root, globs, dir_path@, all.skip(i as int + 1), d));
            assert(expected_subdirs(*config, root, globs, dir_path@, all, d)
                =~= pending_models(subdirs@) + expected_subdirs(*config, root, globs, dir_path@, all.skip(i as int + 1), d));
        }
        i = i + 1;
    }
    proof {
        assert(all.skip(n as int).len() == 0);
        assert(entry_models(matches@) + expected_matches(*config, *matcher, root, globs, dir_path@, all.skip(n as int), d)
            =~= entry_models(matches@));
        assert(pending_models(subdirs@) + expected_subdirs(*config, root, globs, dir_path@, all.skip(n as int), d)
            =~= pending_models(subdirs@));
    }
    DirOutcome { matches, subdirs }
}

/// Exclude precedence: a child whose path the exclude overrides mark ignored
/// is neither reported nor entered, whatever else holds of it — so nothing
/// below an excluded directory is ever listed, let alone reported.
pub proof fn lemma_excluded_is_pruned(
    config: SearchConfig,
    matcher: PatternMatcher,
    root: Seq<char>,
    globs: Seq<Seq<char>>,
    dir: Seq<char>,
    c: ChildEntry,
    child_depth: int,
)
    requires
        override_ignores(root, globs, joined_path(dir, c.name@), c.file_type is Directory),
    ensures
        !child_reported(config, matcher, root, globs, dir, c, child_depth),
        !child_descended(config, root, globs, dir, c, child_depth),
{
}

/// Depth bound: with a bound `m`, every expected entry of a listing at child
/// depth `d <= m` has depth at most `m`, and every queued subdirectory lies
/// strictly above the bound, so no directory at depth `m` is entered.
pub proof fn lemma_depth_bound(
    config: SearchConfig,
    matcher: PatternMatcher,
    root: Seq<char>,
    globs: Seq<Seq<char>>,
    dir: Seq<char>,
    children: Seq<ChildEntry>,
    child_depth: int,
    m: usize,
)
    requires
        config.max_depth == Some(m),
    ensures
        forall|k: int|
            0 <= k < expected_matches(config, matcher, root, globs, dir, children, child_depth).len()
                ==> #[trigger] expected_matches(config, matcher, root, globs, dir, children, child_depth)[k].depth
                <= m,
        forall|k: int|
            0 <= k < expected_subdirs(config, root, globs, dir, children, child_depth).len()
                ==> #[trigger] expected_subdirs(config, root, globs, dir, children, child_depth)[k].depth
                < m,
    decreases children.len(),
{
    let em = expected_matches(config, matcher, root, globs, dir, children, child_depth);
    let es = expected_subdirs(config, root, globs, dir, children, child_depth);
    if children.len() > 0 {
        let rest = children.drop_first();
        let emr = expected_matches(config, matcher, root, globs, dir, rest, child_depth);
        let esr = expected_subdirs(config, root, globs, dir, rest, child_depth);
        lemma_depth_bound(config, matcher, root, globs, dir, rest, child_depth, m);
        let reported = child_reported(config, matcher, root, globs, dir, children[0], child_depth);
        let descended = child_descended(config, root, globs, dir, children[0], child_depth);
        assert forall|k: int| 0 <= k < em.len() implies em[k].depth <= m by {
            if reported {
                if k == 0 {
                    assert(em[0] == entry_model_of(dir, children[0], child_depth));
                    assert(within_depth(Some(m), child_depth));
                } else {
                    assert(em[k] == emr[k - 1]);
                }
            } else {
                assert(em[k] == emr[k]);
            }
        }
        assert forall|k: int| 0 <= k < es.len() implies es[k].depth < m by {
            if descended {
                if k == 0 {
                    assert(es[0].depth == child_depth);
                    assert(child_depth < m);
                } else {
                    assert(es[k] == esr[k - 1]);
                }
            } else {
                assert(es[k] == esr[k]);
            }
        }
    }
}

/// Whether `e` is the entry of some reported child of the listing.
pub open spec fn from_reported_child(
    config: SearchConfig,
    matcher: PatternMatcher,
    root: Seq<char>,
    globs: Seq<Seq<char>>,
    dir: Seq<char>,
    children: Seq<ChildEntry>,
    child_depth: int,
    e: EntryModel,
) -> bool {
    exists|k: int|
        0 <= k < children.len() && child_reported(
            config,
            matcher,
            root,
            globs,
            dir,
            #[trigger] children[k],
            child_depth,
        ) && e == entry_model_of(dir, children[k], child_depth)
}

/// Completeness: for a fixed listing the expected matches are exactly the
/// reported children — every reported child's entry appears, and every entry
/// that appears is some reported child's. With no ignore rules in play, that
/// set is precisely the children whose basename matches the pattern and whose
/// tag and extension pass the filters, however many workers share the walk.
pub proof fn lemma_matches_characterization(
    config: SearchConfig,
    matcher: PatternMatcher,
    root: Seq<char>,
    globs: Seq<Seq<char>>,
    dir: Seq<char>,
    children: Seq<ChildEntry>,
    child_depth: int,
)
    ensures
        forall|k: int|
            0 <= k < children.len() && child_reported(
                config,
                matcher,
                root,
                globs,
                dir,
                #[trigger] children[k],
                child_depth,
            ) ==> expected_matches(config, matcher, root, globs, dir, children, child_depth)
                .contains(entry_model_of(dir, children[k], child_depth)),
        forall|j: int|
            #![trigger expected_matches(config, matcher, root, globs, dir, children, child_depth)[j]]
            0 <= j < expected_matches(config, matcher, root, globs, dir, children, child_depth).len()
                ==> from_reported_child(
                config,
                matcher,
                root,
                globs,
                dir,
                children,
                child_depth,
                expected_matches(config, matcher, root, globs, dir, children, child_depth)[j],
            ),
    decreases children.len(),
{
    let em = expected_matches(config, matcher, root, globs, dir, children, child_depth);
    if children.len() > 0 {
        let rest = children.drop_first();
        let emr = expected_matches(config, matcher, root, globs, dir, rest, child_depth);
        lemma_matches_characterization(config, matcher, root, globs, dir, rest, child_depth);
        let reported0 = child_reported(config, matcher, root, globs, dir, children[0], child_depth);
        let off: int = if reported0 {
            1
        } else {
            0
        };
        assert forall|k: int|
            0 <= k < children.len() && child_reported(
                config,
                matcher,
                root,
                globs,
                dir,
                children[k],
                child_depth,
            ) implies em.contains(entry_model_of(dir, children[k], child_depth)) by {
            if k == 0 {
                assert(em[0] == entry_model_of(dir, children[0], child_depth));
            } else {
                assert(rest[k - 1] == children[k]);
                assert(emr.contains(entry_model_of(dir, rest[k - 1], child_depth)));
                let j = choose|j: int|
                    0 <= j < emr.len() && emr[j] == entry_model_of(dir, rest[k - 1], child_depth);
                assert(em[j + off] == emr[j]);
            }
        }
        assert forall|j: int| #![trigger em[j]] 0 <= j < em.len() implies from_reported_child(
            config,
            matcher,
            root,
            globs,
            dir,
            children,
            child_depth,
            em[j],
        ) by {
            if reported0 && j == 0 {
                assert(child_reported(
                    config,
                    matcher,
                    root,
                    globs,
                    dir,
                    children[0],
                    child_depth,
                ) && em[0] == entry_model_of(dir, children[0], child_depth));
            } else {
                assert(em[j] == emr[j - off]);
                assert(from_reported_child(
                    config,
                    matcher,
                    root,
                    globs,
                    dir,
                    rest,
                    child_depth,
                    emr[j - off],
                ));
                let k = choose|k: int|
                    0 <= k < rest.len() && child_reported(
                        config,
                        matcher,
                        root,
                        globs,
                        dir,
                        #[trigger] rest[k],
                        child_depth,
                    ) && emr[j - off] == entry_model_of(dir, rest[k], child_depth);
                assert(children[k + 1] == rest[k]);
                assert(child_reported(
                    config,
                    matcher,
                    root,
                    globs,
                    dir,
                    children[k + 1],
                    child_depth,
                ) && em[j] == entry_model_of(dir, children[k + 1], child_depth));
            }
        }
    }
}

} // verus!
