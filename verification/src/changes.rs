//! Deriving the change set from a version-control comparison.
//!
//! The comparison itself (resolving revisions, diffing trees) is the
//! caller's business; it hands over one entry per changed file, with the
//! entry's classification and its path before and after the change. This
//! module turns those entries into the deduplicated set of changed paths:
//! added and modified entries contribute both their old and their new path,
//! so a rename marks both locations; pure deletions contribute their old
//! path.

use vstd::prelude::*;

verus! {

use crate::add_unique;
use crate::distinct_strings;
use crate::strings_view;

/// The classification of one entry of a version-control diff.
#[derive(Debug, Clone, Copy, PartialEq, Eq, Structural)]
pub enum ChangeKind {
    /// The file exists only after the change.
    Added,
    /// The file exists before and after the change.
    Modified,
    /// The file exists only before the change.
    Deleted,
}

/// One changed entry: its classification and its repository-relative path
/// under its pre-change and post-change identity.
pub struct FileDelta {
    /// How the entry changed.
    pub kind: ChangeKind,
    /// The path before the change, when one exists.
    pub old_path: Option<String>,
    /// The path after the change, when one exists.
    pub new_path: Option<String>,
}

/// Whether the delta `d` contributes the path `p` to the change set: added
/// and modified entries contribute their new and their old path, deletions
/// their old path.
pub open spec fn delta_contributes(d: FileDelta, p: Seq<char>) -> bool {
    if d.kind is Added || d.kind is Modified {
        (d.new_path matches Some(np) && np@ == p) || (d.old_path matches Some(op) && op@ == p)
    } else {
        d.old_path matches Some(op) && op@ == p
    }
}

/// Collects the deduplicated set of changed paths from the diff entries.
pub fn get_changed_files(deltas: &Vec<FileDelta>) -> (files: Vec<String>)
    ensures
        forall|p: Seq<char>| #[trigger]
            strings_view(files@).contains(p) <==> exists|k: int|
                0 <= k < deltas@.len() && delta_contributes(deltas@[k], p),
        distinct_strings(files@),
{
    let mut files: Vec<String> = Vec::new();
    let mut i: usize = 0;
    while i < deltas.len()
        invariant
            i <= deltas@.len(),
            distinct_strings(files@),
            forall|p: Seq<char>| #[trigger]
                strings_view(files@).contains(p) <==> exists|k: int|
                    0 <= k < i && delta_contributes(deltas@[k], p),
        decreases deltas@.len() - i,
    {
        let ghost before = files@;
        let d = &deltas[i];
        let include_new = match d.kind {
            ChangeKind::Added => true,
            ChangeKind::Modified => true,
            ChangeKind::Deleted => false,
        };
        if include_new {
            if let Some(np) = &d.new_path {
                add_unique(&mut files, np);
            }
        }
        if let Some(op) = &d.old_path {
            add_unique(&mut files, op);
        }
        proof {
            assert forall|p: Seq<char>| #[trigger]
                strings_view(files@).contains(p) <==> exists|k: int|
                    0 <= k < i + 1 && delta_contributes(deltas@[k], p) by {
                assert(strings_view(files@).contains(p) <==> (strings_view(before).contains(p)
                    || delta_contributes(deltas@[i as int], p)));
                if strings_view(files@).contains(p) {
                    if strings_view(before).contains(p) {
                        let k = choose|k: int| 0 <= k < i && delta_contributes(deltas@[k], p);
                        assert(0 <= k < i + 1 && delta_contributes(deltas@[k], p));
                    } else {
                        assert(delta_contributes(deltas@[i as int], p));
                    }
                }
                if exists|k: int| 0 <= k < i + 1 && delta_contributes(deltas@[k], p) {
                    let k = choose|k: int| 0 <= k < i + 1 && delta_contributes(deltas@[k], p);
                    if k < i {
                        assert(strings_view(before).contains(p));
                    }
                }
            }
        }
        i = i + 1;
    }
    files
}

} // verus!
