//! Lexical path handling: splitting a path string into segments, making a
//! path absolute against a working directory, normalizing `.` and `..`
//! segments, and deciding whether one path lies beneath another.
//!
//! Paths are modelled as sequences of non-empty segments plus an
//! absolute/relative flag; no filesystem access is involved.

use vstd::prelude::*;

verus! {

use crate::strings_view;

/// State after scanning a prefix of a path string: the completed segments and
/// the partial segment currently under construction.
pub open spec fn split_state(s: Seq<char>) -> (Seq<Seq<char>>, Seq<char>)
    decreases s.len(),
{
    if s.len() == 0 {
        (Seq::empty(), Seq::empty())
    } else {
        let (segs, cur) = split_state(s.drop_last());
        if s.last() == '/' {
            if cur.len() == 0 {
                (segs, Seq::empty())
            } else {
                (segs.push(cur), Seq::empty())
            }
        } else {
            (segs, cur.push(s.last()))
        }
    }
}

/// The non-empty `/`-separated segments of a path string, in order.
pub open spec fn path_segments(s: Seq<char>) -> Seq<Seq<char>> {
    let (segs, cur) = split_state(s);
    if cur.len() == 0 {
        segs
    } else {
        segs.push(cur)
    }
}

/// Whether a path string denotes an absolute path.
pub open spec fn path_is_absolute(s: Seq<char>) -> bool {
    s.len() > 0 && s[0] == '/'
}

/// The one-character segment `.`.
pub open spec fn dot_seg() -> Seq<char> {
    seq!['.']
}

/// The two-character segment `..`.
pub open spec fn dotdot_seg() -> Seq<char> {
    seq!['.', '.']
}

/// Lexical normalization of the segments of an absolute path: `.` segments
/// vanish and `..` removes the preceding segment, or vanishes at the root.
pub open spec fn norm_segs(segs: Seq<Seq<char>>) -> Seq<Seq<char>>
    decreases segs.len(),
{
    if segs.len() == 0 {
        Seq::empty()
    } else {
        let prev = norm_segs(segs.drop_last());
        if segs.last() == dot_seg() {
            prev
        } else if segs.last() == dotdot_seg() {
            if prev.len() == 0 {
                prev
            } else {
                prev.drop_last()
            }
        } else {
            prev.push(segs.last())
        }
    }
}

/// A path string made absolute against the directory `cwd` (given as absolute
/// segments) and then lexically normalized.
pub open spec fn abs_norm(cwd: Seq<Seq<char>>, path: Seq<char>) -> Seq<Seq<char>> {
    if path_is_absolute(path) {
        norm_segs(path_segments(path))
    } else {
        norm_segs(cwd + path_segments(path))
    }
}

/// A package root `root` owns `path` when `root` is a segment-wise prefix.
pub open spec fn owns(root: Seq<Seq<char>>, path: Seq<Seq<char>>) -> bool {
    root.len() <= path.len() && root == path.subrange(0, root.len() as int)
}

/// Splits a path string into its non-empty `/`-separated segments and
/// reports whether the path is absolute.
pub fn split_path(s: &str) -> (r: (bool, Vec<String>))
    ensures
        r.0 == path_is_absolute(s@),
        strings_view(r.1@) == path_segments(s@),
{
    let n: usize = s.unicode_len();
    let is_abs: bool = n > 0 && s.get_char(0) == '/';
    let mut segs: Vec<String> = Vec::new();
    let mut start: usize = 0;
    let mut i: usize = 0;
    while i < n
        invariant
            start <= i <= n,
            n == s@.len(),
            forall|j: int| start <= j < i ==> s@[j] != '/',
            split_state(s@.subrange(0, i as int)).0 == strings_view(segs@),
            split_state(s@.subrange(0, i as int)).1 == s@.subrange(start as int, i as int),
        decreases n - i,
    {
        let c = s.get_char(i);
        proof {
            assert(s@.subrange(0, i + 1).drop_last() =~= s@.subrange(0, i as int));
            assert(s@.subrange(0, i + 1).last() == s@[i as int]);
        }
        if c == '/' {
            if i > start {
                let seg: String = s.substring_char(start, i).to_owned();
                proof {
                    assert(strings_view(segs@.push(seg)) =~= strings_view(segs@).push(seg@));
                }
                segs.push(seg);
            }
            proof {
                assert(s@.subrange(i + 1, i + 1) =~= Seq::<char>::empty());
            }
            start = i + 1;
        } else {
            proof {
                assert(s@.subrange(start as int, i + 1) =~= s@.subrange(
                    start as int,
                    i as int,
                ).push(s@[i as int]));
            }
        }
        i = i + 1;
    }
    proof {
        assert(s@.subrange(0, n as int) =~= s@);
    }
    if start < n {
        let seg: String = s.substring_char(start, n).to_owned();
        proof {
            assert(strings_view(segs@.push(seg)) =~= strings_view(segs@).push(seg@));
        }
        segs.push(seg);
    }
    (is_abs, segs)
}

/// Whether a segment is exactly `.`.
fn is_dot(s: &String) -> (r: bool)
    ensures
        r == (s@ == dot_seg()),
{
    let r = s.as_str().unicode_len() == 1 && s.as_str().get_char(0) == '.';
    proof {
        if r {
            assert(s@ =~= dot_seg());
        }
    }
    r
}

/// Whether a segment is exactly `..`.
fn is_dotdot(s: &String) -> (r: bool)
    ensures
        r == (s@ == dotdot_seg()),
{
    let r = s.as_str().unicode_len() == 2 && s.as_str().get_char(0) == '.' && s.as_str().get_char(
        1,
    ) == '.';
    proof {
        if r {
            assert(s@ =~= dotdot_seg());
        }
    }
    r
}

/// Normalizes a list of absolute-path segments lexically: `.` segments are
/// dropped and `..` removes the preceding segment, or is dropped at the root.
pub fn normalize_segments(segs: &Vec<String>) -> (r: Vec<String>)
    ensures
        strings_view(r@) == norm_segs(strings_view(segs@)),
{
    let mut out: Vec<String> = Vec::new();
    let mut i: usize = 0;
    while i < segs.len()
        invariant
            i <= segs@.len(),
            strings_view(out@) == norm_segs(strings_view(segs@).subrange(0, i as int)),
        decreases segs@.len() - i,
    {
        proof {
            assert(strings_view(segs@).subrange(0, i + 1).drop_last() =~= strings_view(
                segs@,
            ).subrange(0, i as int));
            assert(strings_view(segs@).subrange(0, i + 1).last() == segs@[i as int]@);
        }
        let s = &segs[i];
        if is_dot(s) {
        } else if is_dotdot(s) {
            if out.len() > 0 {
                proof {
                    assert(strings_view(out@.drop_last()) =~= strings_view(out@).drop_last());
                }
                out.pop();
            }
        } else {
            let c: String = s.clone();
            proof {
                assert(strings_view(out@.push(c)) =~= strings_view(out@).push(c@));
            }
            out.push(c);
        }
        i = i + 1;
    }
    proof {
        assert(strings_view(segs@).subrange(0, segs@.len() as int) =~= strings_view(segs@));
    }
    out
}

/// Makes a path string absolute against `cwd` (an absolute directory in
/// segment form) and lexically normalizes the result.
pub fn make_absolute(path: &str, cwd: &Vec<String>) -> (r: Vec<String>)
    ensures
        strings_view(r@) == abs_norm(strings_view(cwd@), path@),
{
    let (is_abs, segs) = split_path(path);
    if is_abs {
        normalize_segments(&segs)
    } else {
        let mut joined: Vec<String> = Vec::new();
        let mut i: usize = 0;
        while i < cwd.len()
            invariant
                i <= cwd@.len(),
                strings_view(joined@) == strings_view(cwd@).subrange(0, i as int),
            decreases cwd@.len() - i,
        {
            let c: String = cwd[i].clone();
            proof {
                assert(strings_view(joined@.push(c)) =~= strings_view(joined@).push(c@));
                assert(strings_view(cwd@).subrange(0, i + 1) =~= strings_view(cwd@).subrange(
                    0,
                    i as int,
                ).push(strings_view(cwd@)[i as int]));
            }
            joined.push(c);
            i = i + 1;
        }
        proof {
            assert(strings_view(cwd@).subrange(0, cwd@.len() as int) =~= strings_view(cwd@));
        }
        let mut j: usize = 0;
        while j < segs.len()
            invariant
                j <= segs@.len(),
                strings_view(joined@) == strings_view(cwd@) + strings_view(segs@).subrange(0, j as int),
            decreases segs@.len() - j,
        {
            let c: String = segs[j].clone();
            proof {
                assert(strings_view(joined@.push(c)) =~= strings_view(joined@).push(c@));
                assert(strings_view(cwd@) + strings_view(segs@).subrange(0, j + 1) =~= (strings_view(cwd@)
                    + strings_view(segs@).subrange(0, j as int)).push(strings_view(segs@)[j as int]));
            }
            joined.push(c);
            j = j + 1;
        }
        proof {
            assert(strings_view(cwd@) + strings_view(segs@).subrange(0, segs@.len() as int) =~= strings_view(
                cwd@,
            ) + path_segments(path@));
        }
        normalize_segments(&joined)
    }
}

/// Whether the path `path` is equal to or nested beneath the root `root`,
/// both in absolute segment form.
pub fn is_owned_by(path: &Vec<String>, root: &Vec<String>) -> (r: bool)
    ensures
        r == owns(strings_view(root@), strings_view(path@)),
{
    if root.len() > path.len() {
        return false;
    }
    let mut i: usize = 0;
    while i < root.len()
        invariant
            i <= root@.len() <= path@.len(),
            forall|j: int| 0 <= j < i ==> strings_view(root@)[j] == strings_view(path@)[j],
        decreases root@.len() - i,
    {
        if !(root[i] == path[i]) {
            proof {
                let rv = strings_view(root@);
                let pv = strings_view(path@);
                assert(rv[i as int] != pv.subrange(0, rv.len() as int)[i as int]);
            }
            return false;
        }
        i = i + 1;
    }
    proof {
        assert(strings_view(root@) =~= strings_view(path@).subrange(0, strings_view(root@).len() as int));
    }
    true
}

} // verus!
