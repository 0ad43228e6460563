//! Consistency-check decisions: the advisory warnings about a record, and
//! the opportunistic pruning of the ignore list.
//!
//! Whether a path exists or names a directory or file is the caller's to
//! find out; the rules of what to report and what to drop live here.

use crate::text::contains_char;
use crate::text::string_views;
use vstd::prelude::*;

verus! {

/// What the check has to say about the games directory.
#[derive(Clone, Copy, Debug, PartialEq, Eq, Structural)]
pub enum GamesDirWarning {
    /// The configured directory does not exist.
    Missing,
    /// The configured path exists but is not a directory.
    NotADirectory,
    /// The path never uses the system's separator, which hints at a typo.
    NoSeparator,
}

/// The games-directory warning, given what the filesystem says about the
/// configured path: missing beats not-a-directory beats an unusual
/// separator, and a directory whose path uses the separator draws none.
pub fn games_dir_warning(games_dir: &str, exists: bool, is_dir: bool, sep: char) -> (r: Option<
    GamesDirWarning,
>)
    ensures
        r == (if !exists {
            Some(GamesDirWarning::Missing)
        } else if !is_dir {
            Some(GamesDirWarning::NotADirectory)
        } else if !games_dir@.contains(sep) {
            Some(GamesDirWarning::NoSeparator)
        } else {
            None::<GamesDirWarning>
        }),
{
    if !exists {
        Some(GamesDirWarning::Missing)
    } else if !is_dir {
        Some(GamesDirWarning::NotADirectory)
    } else if !contains_char(games_dir, sep) {
        Some(GamesDirWarning::NoSeparator)
    } else {
        None
    }
}

/// What the check has to say about one alias binding.
#[derive(Clone, Copy, Debug, PartialEq, Eq, Structural)]
pub enum AliasWarning {
    /// The stored path does not exist.
    TargetMissing,
    /// The stored path exists but is not a file.
    TargetNotAFile,
}

/// The warning for one alias, given what the filesystem says about its
/// stored path.
pub fn alias_warning(exists: bool, is_file: bool) -> (r: Option<AliasWarning>)
    ensures
        r == (if !exists {
            Some(AliasWarning::TargetMissing)
        } else if !is_file {
            Some(AliasWarning::TargetNotAFile)
        } else {
            None::<AliasWarning>
        }),
{
    if !exists {
        Some(AliasWarning::TargetMissing)
    } else if !is_file {
        Some(AliasWarning::TargetNotAFile)
    } else {
        None
    }
}

/// The entries of `l` whose flag in `keep` is set, in order.
pub open spec fn spec_pruned(l: Seq<Seq<char>>, keep: Seq<bool>) -> Seq<Seq<char>>
    recommends
        l.len() == keep.len(),
    decreases l.len(),
{
    if l.len() == 0 {
        Seq::empty()
    } else if keep[0] {
        seq![l[0]] + spec_pruned(l.drop_first(), keep.drop_first())
    } else {
        spec_pruned(l.drop_first(), keep.drop_first())
    }
}

proof fn lemma_pruned_snoc(l: Seq<Seq<char>>, keep: Seq<bool>, x: Seq<char>, b: bool)
    requires
        l.len() == keep.len(),
    ensures
        spec_pruned(l.push(x), keep.push(b)) == if b {
            spec_pruned(l, keep).push(x)
        } else {
            spec_pruned(l, keep)
        },
    decreases l.len(),
{
    if l.len() == 0 {
        assert(l.push(x)[0] == x);
        assert(keep.push(b)[0] == b);
        assert(l.push(x).drop_first() =~= Seq::<Seq<char>>::empty());
        assert(keep.push(b).drop_first() =~= Seq::<bool>::empty());
        assert(spec_pruned(l.push(x).drop_first(), keep.push(b).drop_first()) =~= Seq::<
            Seq<char>,
        >::empty());
        if b {
            assert(seq![x] + Seq::<Seq<char>>::empty() =~= spec_pruned(l, keep).push(x));
        }
    } else {
        assert(l.push(x)[0] == l[0]);
        assert(keep.push(b)[0] == keep[0]);
        assert(l.push(x).drop_first() =~= l.drop_first().push(x));
        assert(keep.push(b).drop_first() =~= keep.drop_first().push(b));
        lemma_pruned_snoc(l.drop_first(), keep.drop_first(), x, b);
        if keep[0] && b {
            assert(seq![l[0]] + spec_pruned(l.drop_first(), keep.drop_first()).push(x) =~= (
            seq![l[0]] + spec_pruned(l.drop_first(), keep.drop_first())).push(x));
        }
    }
}

/// Drop from the ignore list every entry whose flag says its target is no
/// longer on disk; the kept entries stay in order.
pub fn prune_ignore(ignore: &Vec<String>, keep: &Vec<bool>) -> (r: Vec<String>)
    requires
        ignore@.len() == keep@.len(),
    ensures
        string_views(r@) == spec_pruned(string_views(ignore@), keep@),
{
    let n = ignore.len();
    let mut out: Vec<String> = Vec::new();
    let ghost iv = string_views(ignore@);
    proof {
        assert(string_views(out@) =~= spec_pruned(iv.subrange(0, 0), keep@.subrange(0, 0)));
    }
    let mut i: usize = 0;
    while i < n
        invariant
            i <= n,
            n == ignore@.len(),
            n == keep@.len(),
            iv == string_views(ignore@),
            string_views(out@) == spec_pruned(iv.subrange(0, i as int), keep@.subrange(0, i as int)),
        decreases n - i,
    {
        if keep[i] {
            out.push(ignore[i].clone());
        }
        proof {
            lemma_pruned_snoc(
                iv.subrange(0, i as int),
                keep@.subrange(0, i as int),
                iv[i as int],
                keep@[i as int],
            );
            assert(iv.subrange(0, i + 1) =~= iv.subrange(0, i as int).push(iv[i as int]));
            assert(keep@.subrange(0, i + 1) =~= keep@.subrange(0, i as int).push(keep@[i as int]));
            assert(string_views(out@) =~= spec_pruned(
                iv.subrange(0, i + 1),
                keep@.subrange(0, i + 1),
            ));
        }
        i = i + 1;
    }
    proof {
        assert(iv.subrange(0, n as int) =~= iv);
        assert(keep@.subrange(0, n as int) =~= keep@);
    }
    out
}

} // verus!
