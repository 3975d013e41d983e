//! Exclude rules: user globs carried as negated override lines of the ignore
//! crate, compiled once and consulted during traversal so an excluded
//! directory is pruned, not merely hidden from output.

use vstd::prelude::*;

verus! {

/// Outside type: a compiled override matcher of the ignore crate.
#[verifier::external_type_specification]
#[verifier::external_body]
pub struct ExOverride(ignore::overrides::Override);

/// Outside type: its builder.
#[verifier::external_type_specification]
#[verifier::external_body]
pub struct ExOverrideBuilder(ignore::overrides::OverrideBuilder);

/// Outside type: the ignore crate's error.
#[verifier::external_type_specification]
#[verifier::external_body]
pub struct ExIgnoreError(ignore::Error);

/// The root a compiled override set matches relative to.
pub uninterp spec fn ov_root(ov: ignore::overrides::Override) -> Seq<char>;

/// The glob lines a compiled override set was built from, in order.
pub uninterp spec fn ov_globs(ov: ignore::overrides::Override) -> Seq<Seq<char>>;

/// The root a builder was opened with.
pub uninterp spec fn ob_root(b: ignore::overrides::OverrideBuilder) -> Seq<char>;

/// The glob lines added to a builder so far, in order.
pub uninterp spec fn ob_globs(b: ignore::overrides::OverrideBuilder) -> Seq<Seq<char>>;

/// Whether the override set built from `globs` against `root` marks `path`
/// (`is_dir` telling its kind) as ignored — a function of these alone.
pub uninterp spec fn override_ignores(
    root: Seq<char>,
    globs: Seq<Seq<char>>,
    path: Seq<char>,
    is_dir: bool,
) -> bool;

/// Whether one glob line is valid — parsing success is a function of the
/// line's text alone.
pub uninterp spec fn glob_ok(glob: Seq<char>) -> bool;

/// Whether a set of glob lines compiles into a matcher — a function of the
/// lines alone.
pub uninterp spec fn build_ok(globs: Seq<Seq<char>>) -> bool;

/// Every line of the set is a valid glob.
pub open spec fn all_globs_ok(globs: Seq<Seq<char>>) -> bool {
    forall|i: int| 0 <= i < globs.len() ==> glob_ok(#[trigger] globs[i])
}

/// Relies on ignore::overrides::OverrideBuilder::new: a builder with no globs
/// yet, matching relative to `root`.
#[verifier::external_body]
fn override_builder_new(root: &str) -> (b: ignore::overrides::OverrideBuilder)
    ensures
        ob_root(b) == root@,
        ob_globs(b) == Seq::<Seq<char>>::empty(),
{
    ignore::overrides::OverrideBuilder::new(root)
}

/// Relies on OverrideBuilder::add: appends one glob line (gitignore syntax
/// with the meaning of `!` inverted); it fails exactly when the line's text
/// is not a valid glob, and on success the root and the earlier lines are
/// unchanged.
#[verifier::external_body]
fn override_builder_add(b: &mut ignore::overrides::OverrideBuilder, glob: &str) -> (r: Result<
    (),
    ignore::Error,
>)
    ensures
        (r is Ok) == glob_ok(glob@),
        r is Ok ==> ob_root(*final(b)) == ob_root(*old(b)) && ob_globs(*final(b)) == ob_globs(
            *old(b),
        ).push(glob@),
{
    match b.add(glob) {
        Ok(_) => Ok(()),
        Err(e) => Err(e),
    }
}

/// Relies on OverrideBuilder::build: compiles exactly the added glob lines
/// against the builder's root; success is a function of the lines alone.
#[verifier::external_body]
fn override_build(b: &ignore::overrides::OverrideBuilder) -> (r: Result<
    ignore::overrides::Override,
    ignore::Error,
>)
    ensures
        (r is Ok) == build_ok(ob_globs(*b)),
        r matches Ok(ov) ==> ov_root(ov) == ob_root(*b) && ov_globs(ov) == ob_globs(*b),
{
    b.build()
}

/// Relies on Override::matched: whether the path is marked ignored by the
/// override set; its documentation says that with no globs it returns
/// `Match::None` for every path.
#[verifier::external_body]
pub fn override_matched_ignore(ov: &ignore::overrides::Override, path: &str, is_dir: bool) -> (r:
    bool)
    ensures
        r == override_ignores(ov_root(*ov), ov_globs(*ov), path@, is_dir),
        ov_globs(*ov).len() == 0 ==> r == false,
{
    match ov.matched(path, is_dir) {
        ignore::Match::Ignore(_) => true,
        _ => false,
    }
}

/// Some exclude rule was not a valid glob: a fatal startup error.
#[derive(Clone, Copy, PartialEq, Eq, Structural, Debug)]
pub enum ExcludeError {
    InvalidRule,
}

/// Compile the configured exclude rules into an override matcher rooted at
/// `root`. Succeeds iff every rule is a valid glob line and the set of them
/// compiles; the one error says which kind of failure that was.
pub fn build_overrides(root: &str, rules: &Vec<String>) -> (r: Result<
    ignore::overrides::Override,
    ExcludeError,
>)
    ensures
        (r is Ok) == (all_globs_ok(rules.deep_view()) && build_ok(rules.deep_view())),
        r matches Ok(ov) ==> ov_root(ov) == root@ && ov_globs(ov) == rules.deep_view(),
        r matches Err(e) ==> e == ExcludeError::InvalidRule,
{
    let ghost all = rules.deep_view();
    let mut b = override_builder_new(root);
    let n = rules.len();
    let mut i: usize = 0;
    while i < n
        invariant
            n == rules@.len(),
            all == rules.deep_view(),
            i <= n,
            ob_root(b) == root@,
            ob_globs(b) == all.take(i as int),
            forall|k: int| 0 <= k < i ==> glob_ok(#[trigger] all[k]),
        decreases n - i,
    {
        let ghost before = ob_globs(b);
        match override_builder_add(&mut b, rules[i].as_str()) {
            Ok(_) => {},
            Err(_) => {
                proof {
                    assert(!glob_ok(all[i as int]));
                    assert(!all_globs_ok(all));
                }
                return Err(ExcludeError::InvalidRule);
            },
        }
        proof {
            assert(all.take(i as int + 1).drop_last() =~~= before);
            assert(all.take(i as int + 1)[i as int] == all[i as int]);
            assert(ob_globs(b) =~~= all.take(i as int + 1));
        }
        i = i + 1;
    }
    proof {
        assert(all.take(n as int) =~~= all);
        assert(all_globs_ok(all));
    }
    match override_build(&b) {
        Ok(ov) => Ok(ov),
        Err(_) => Err(ExcludeError::InvalidRule),
    }
}

} // verus!
