//! Global-trigger configuration: a list of glob patterns whose modification
//! forces a full-workspace rebuild.
//!
//! The configuration may come from at most one of two sources (a local
//! configuration file, or metadata embedded in the workspace manifest); both
//! being present and valid at once is an error, and neither being present
//! leaves the trigger set empty. Reading the sources is the caller's
//! business; combining them is decided here.

use vstd::prelude::*;

verus! {

use crate::SelectError;
use crate::globs::builder_pats;
use crate::globs::glob_new;
use crate::globs::globset_buildable;
use crate::globs::glob_pat;
use crate::globs::glob_pattern_ok;
use crate::globs::globset_builder_add;
use crate::globs::globset_builder_build;
use crate::globs::globset_builder_new;
use crate::globs::globset_pats;
use crate::strings_view;

/// The global-trigger configuration.
#[derive(Debug)]
pub struct Config {
    /// Glob patterns; a changed file matching any of them forces a rebuild
    /// of every workspace member.
    pub global_dependencies: Vec<String>,
}

impl Default for Config {
    /// The default configuration holds no global trigger patterns.
    fn default() -> (c: Config)
        ensures
            c.global_dependencies@.len() == 0,
    {
        Config { global_dependencies: Vec::new() }
    }
}

impl Config {
    /// Compiles the configured patterns into one glob matcher set. A pattern
    /// with invalid glob syntax fails the compilation with `BadGlobPattern`
    /// carrying that pattern; a set the matcher library refuses as a whole
    /// fails with `BadGlobPattern` carrying an empty pattern. On success the
    /// matcher holds exactly the configured patterns, in order.
    pub fn global_deps_matcher(&self) -> (r: Result<globset::GlobSet, SelectError>)
        ensures
            r matches Ok(gs) ==> globset_pats(gs) == strings_view(self.global_dependencies@),
            r is Err <==> ((exists|k: int|
                0 <= k < self.global_dependencies@.len() && !glob_pattern_ok(
                    #[trigger] self.global_dependencies@[k]@,
                )) || !globset_buildable(strings_view(self.global_dependencies@))),
            r matches Err(e) ==> (e matches SelectError::BadGlobPattern(p) && ((strings_view(
                self.global_dependencies@,
            ).contains(p@) && !glob_pattern_ok(p@)) || (p@ == Seq::<char>::empty()
                && !globset_buildable(strings_view(self.global_dependencies@))))),
    {
        let mut b = globset_builder_new();
        let mut i: usize = 0;
        while i < self.global_dependencies.len()
            invariant
                i <= self.global_dependencies@.len(),
                builder_pats(b) == strings_view(self.global_dependencies@).subrange(0, i as int),
                forall|k: int| 0 <= k < i ==> glob_pattern_ok(self.global_dependencies@[k]@),
            decreases self.global_dependencies@.len() - i,
        {
            match glob_new(self.global_dependencies[i].as_str()) {
                Ok(g) => {
                    proof {
                        assert(strings_view(self.global_dependencies@).subrange(0, i + 1)
                            =~= strings_view(self.global_dependencies@).subrange(0, i as int).push(
                            self.global_dependencies@[i as int]@,
                        ));
                    }
                    globset_builder_add(&mut b, g);
                },
                Err(_) => {
                    let p: String = self.global_dependencies[i].clone();
                    proof {
                        assert(strings_view(self.global_dependencies@)[i as int] == p@);
                        assert(strings_view(self.global_dependencies@).contains(p@));
                    }
                    return Err(SelectError::BadGlobPattern(p));
                },
            }
            i = i + 1;
        }
        proof {
            assert(strings_view(self.global_dependencies@).subrange(
                0,
                self.global_dependencies@.len() as int,
            ) =~= strings_view(self.global_dependencies@));
        }
        match globset_builder_build(&b) {
            Ok(gs) => Ok(gs),
            Err(_) => Err(SelectError::BadGlobPattern(String::new())),
        }
    }

    /// Combines the two optional configuration sources: both present is a
    /// `ConfigurationConflict`, exactly one present selects that one, and
    /// neither present selects no configuration (the caller treats that as
    /// an empty trigger set).
    pub fn load(from_file: Option<Config>, from_workspace: Option<Config>) -> (r: Result<
        Option<Config>,
        SelectError,
    >)
        ensures
            r is Err <==> (from_file is Some && from_workspace is Some),
            r matches Err(e) ==> e is ConfigurationConflict,
            from_file is Some && from_workspace is None ==> r == Ok::<
                Option<Config>,
                SelectError,
            >(from_file),
            from_file is None && from_workspace is Some ==> r == Ok::<
                Option<Config>,
                SelectError,
            >(from_workspace),
            from_file is None && from_workspace is None ==> (r matches Ok(c) && c is None),
    {
        match (from_file, from_workspace) {
            (Some(_), Some(_)) => Err(SelectError::ConfigurationConflict),
            (Some(c), None) => Ok(Some(c)),
            (None, Some(c)) => Ok(Some(c)),
            (None, None) => Ok(None),
        }
    }
}

} // verus!
