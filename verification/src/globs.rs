//! Trusted interface to the `globset` crate, which compiles glob patterns
//! and matches paths against a whole set of them in one pass.
//!
//! The matching relation itself is not restated here: `glob_match` names the
//! crate's matching verdict for one pattern and one path, and the wrappers
//! relate every call to that name and to the patterns a value holds.

use vstd::prelude::*;

verus! {

/// Whether `pat` is valid glob syntax, exactly as `globset::Glob::new`
/// decides it; a function of the pattern text alone.
pub uninterp spec fn glob_pattern_ok(pat: Seq<char>) -> bool;

/// Whether the glob pattern `pat` matches the path `path`, exactly as the
/// `globset` crate decides it; a function of the two texts alone.
pub uninterp spec fn glob_match(pat: Seq<char>, path: Seq<char>) -> bool;

/// The pattern text a compiled `globset::Glob` holds.
pub uninterp spec fn glob_pat(g: globset::Glob) -> Seq<char>;

/// The pattern texts a `globset::GlobSetBuilder` holds, in insertion order.
pub uninterp spec fn builder_pats(b: globset::GlobSetBuilder) -> Seq<Seq<char>>;

/// The pattern texts a compiled `globset::GlobSet` holds.
pub uninterp spec fn globset_pats(gs: globset::GlobSet) -> Seq<Seq<char>>;

/// Whether `globset::GlobSetBuilder::build` succeeds on a builder holding
/// exactly the patterns `pats`; a function of the pattern texts alone (the
/// one failure past pattern validation is the regex engine refusing the
/// compiled set, which depends only on the patterns).
pub uninterp spec fn globset_buildable(pats: Seq<Seq<char>>) -> bool;

/// Some pattern of `pats` matches `path`.
pub open spec fn any_glob_match(pats: Seq<Seq<char>>, path: Seq<char>) -> bool {
    exists|k: int| 0 <= k < pats.len() && glob_match(pats[k], path)
}

#[verifier::external_type_specification]
#[verifier::external_body]
pub struct ExGlob(globset::Glob);

#[verifier::external_type_specification]
#[verifier::external_body]
pub struct ExGlobSetBuilder(globset::GlobSetBuilder);

#[verifier::external_type_specification]
#[verifier::external_body]
pub struct ExGlobSet(globset::GlobSet);

#[verifier::external_type_specification]
#[verifier::external_body]
pub struct ExGlobError(globset::Error);

/// Relies on globset::Glob::new: it succeeds exactly on valid glob syntax,
/// and the compiled glob then holds that pattern.
#[verifier::external_body]
pub(crate) fn glob_new(pat: &str) -> (r: Result<globset::Glob, globset::Error>)
    ensures
        r is Ok <==> glob_pattern_ok(pat@),
        r matches Ok(g) ==> glob_pat(g) == pat@,
{
    globset::Glob::new(pat)
}

/// Relies on globset::GlobSetBuilder::new: a new builder holds no patterns.
#[verifier::external_body]
pub(crate) fn globset_builder_new() -> (b: globset::GlobSetBuilder)
    ensures
        builder_pats(b) == Seq::<Seq<char>>::empty(),
{
    globset::GlobSetBuilder::new()
}

/// Relies on globset::GlobSetBuilder::add: it appends the glob's pattern to
/// the builder's patterns.
#[verifier::external_body]
pub(crate) fn globset_builder_add(b: &mut globset::GlobSetBuilder, g: globset::Glob)
    ensures
        builder_pats(*final(b)) == builder_pats(*old(b)).push(glob_pat(g)),
{
    b.add(g);
}

/// Relies on globset::GlobSetBuilder::build: success is a function of the
/// builder's patterns alone, and on success the compiled set holds exactly
/// those patterns.
#[verifier::external_body]
pub(crate) fn globset_builder_build(b: &globset::GlobSetBuilder) -> (r: Result<
    globset::GlobSet,
    globset::Error,
>)
    ensures
        r is Ok <==> globset_buildable(builder_pats(*b)),
        r matches Ok(gs) ==> globset_pats(gs) == builder_pats(*b),
{
    b.build()
}

/// Relies on globset::GlobSet::is_match: it returns true exactly when some
/// glob of the set matches the path.
#[verifier::external_body]
pub(crate) fn globset_is_match(gs: &globset::GlobSet, path: &str) -> (r: bool)
    ensures
        r == (exists|k: int|
            0 <= k < globset_pats(*gs).len() && glob_match(globset_pats(*gs)[k], path@)),
        r == any_glob_match(globset_pats(*gs), path@),
{
    gs.is_match(path)
}

} // verus!
