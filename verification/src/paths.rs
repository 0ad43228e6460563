//! The path normalizer: the directory a stored executable path lives in,
//! needed for the working-directory change before a launch.

use vstd::prelude::*;
use vstd::string::StrSliceExecFns;

verus! {

/// The last index below `i` holding `c`, if any.
pub open spec fn spec_rfind(s: Seq<char>, c: char, i: int) -> Option<int>
    decreases i
        when i <= s.len()
{
    if i <= 0 {
        None
    } else if s[i - 1] == c {
        Some(i - 1)
    } else {
        spec_rfind(s, c, i - 1)
    }
}

/// The directory of a stored path: what stands before the last separator,
/// or the separator itself when it is the first character and something
/// follows it. Nothing when the path has no separator at all, or is the
/// bare root: such a path has no parent to name.
pub open spec fn spec_parent_dir(s: Seq<char>, sep: char) -> Option<Seq<char>> {
    match spec_rfind(s, sep, s.len() as int) {
        None => None,
        Some(p) => if p == 0 {
            if s.len() == 1 {
                None
            } else {
                Some(s.subrange(0, 1))
            }
        } else {
            Some(s.subrange(0, p))
        },
    }
}

/// The backward character search finds the last hit below `i`.
proof fn lemma_rfind_agrees(s: Seq<char>, c: char, i: int)
    requires
        0 <= i <= s.len(),
    ensures
        match spec_rfind(s, c, i) {
            Some(j) => 0 <= j < i && s[j] == c && forall|k: int| j < k < i ==> s[k] != c,
            None => forall|k: int| 0 <= k < i ==> s[k] != c,
        },
    decreases i,
{
    if i > 0 && s[i - 1] != c {
        lemma_rfind_agrees(s, c, i - 1);
    }
}

/// The directory a stored path points into, splitting at the given
/// separator character.
pub fn parent_dir(path: &str, sep: char) -> (r: Option<String>)
    ensures
        match r {
            Some(d) => spec_parent_dir(path@, sep) == Some(d@),
            None => spec_parent_dir(path@, sep) is None,
        },
{
    let n = path.unicode_len();
    proof {
        lemma_rfind_agrees(path@, sep, n as int);
    }
    let mut i: usize = n;
    while i > 0
        invariant
            i <= n,
            n == path@.len(),
            forall|k: int| i <= k < n ==> path@[k] != sep,
        decreases i,
    {
        if path.get_char(i - 1) == sep {
            let p = i - 1;
            proof {
                lemma_rfind_agrees(path@, sep, n as int);
                assert(spec_rfind(path@, sep, n as int) == Some(p as int));
            }
            if p == 0 && n == 1 {
                return None;
            }
            let d = if p == 0 {
                path.substring_char(0, 1)
            } else {
                path.substring_char(0, p)
            };
            return Some(d.to_owned());
        }
        i = i - 1;
    }
    None
}

} // verus!
