//! The hostname-labeling heuristic: turn a raw download URL into a short
//! human label.
//!
//! The rule, fixed here once for every provider: strip the scheme up to and
//! including `://`, strip one leading `www.` if present, keep what stands
//! before the first `.` after that, and uppercase the first alphabetic
//! character found, leaving the rest unchanged. So
//! `https://www.example.com/x` is labeled `Example`, and `1fichier.com`
//! gives `1Fichier`.

use crate::text::find_char_from;
use crate::text::matches_at;
use vstd::prelude::*;
use vstd::string::StrSliceExecFns;
use vstd::string::StringExecFns;

verus! {

/// Whether a character has the Unicode `Alphabetic` property, as
/// `char::is_alphabetic` decides it.
pub uninterp spec fn is_alphabetic_char(c: char) -> bool;

/// The Unicode uppercase mapping of a character, one or more characters, as
/// `char::to_uppercase` yields it.
pub uninterp spec fn upper_of(c: char) -> Seq<char>;

/// Relies on `char::is_alphabetic`: whether the character has the Unicode
/// `Alphabetic` property, a function of the character alone.
#[verifier::external_body]
fn char_is_alphabetic(c: char) -> (r: bool)
    ensures
        r == is_alphabetic_char(c),
{
    c.is_alphabetic()
}

/// Relies on `char::to_uppercase`: the character's unconditional Unicode
/// uppercase mapping, a function of the character alone.
#[verifier::external_body]
fn char_upper(c: char) -> (r: String)
    ensures
        r@ == upper_of(c),
{
    c.to_uppercase().collect::<String>()
}

/// The first alphabetic character uppercased, everything else unchanged; a
/// string without an alphabetic character stays as it is.
pub open spec fn spec_titlecase(s: Seq<char>) -> Seq<char>
    decreases s.len(),
{
    if s.len() == 0 {
        s
    } else if is_alphabetic_char(s[0]) {
        upper_of(s[0]) + s.drop_first()
    } else {
        seq![s[0]] + spec_titlecase(s.drop_first())
    }
}

proof fn lemma_titlecase_skip(s: Seq<char>, i: int)
    requires
        0 <= i <= s.len(),
        forall|k: int| 0 <= k < i ==> !is_alphabetic_char(s[k]),
    ensures
        spec_titlecase(s) == s.take(i) + spec_titlecase(s.skip(i)),
    decreases i,
{
    if i == 0 {
        assert(s.skip(0) =~= s);
        assert(s.take(0) + spec_titlecase(s) =~= spec_titlecase(s));
    } else {
        assert(s.drop_first() =~= s.skip(1));
        lemma_titlecase_skip(s.skip(1), i - 1);
        assert(s.skip(1).take(i - 1) =~= s.take(i).drop_first());
        assert(s.skip(1).skip(i - 1) =~= s.skip(i));
        assert(seq![s[0]] + (s.take(i).drop_first() + spec_titlecase(s.skip(i))) =~= s.take(i)
            + spec_titlecase(s.skip(i)));
    }
}

/// Uppercase the first alphabetic character of a non-empty string, leaving
/// the rest unchanged.
pub fn titlecase(string: &str) -> (r: String)
    requires
        string@.len() > 0,
    ensures
        r@ == spec_titlecase(string@),
{
    let n = string.unicode_len();
    let mut i: usize = 0;
    while i < n
        invariant
            i <= n,
            n == string@.len(),
            forall|k: int| 0 <= k < i ==> !is_alphabetic_char(string@[k]),
        decreases n - i,
    {
        let c = string.get_char(i);
        if char_is_alphabetic(c) {
            let mut out = string.substring_char(0, i).to_owned();
            let up = char_upper(c);
            out.append(up.as_str());
            out.append(string.substring_char(i + 1, n));
            proof {
                lemma_titlecase_skip(string@, i as int);
                assert(string@.skip(i as int)[0] == string@[i as int]);
                assert(string@.skip(i as int).drop_first() =~= string@.skip(i + 1));
                assert(spec_titlecase(string@.skip(i as int)) == upper_of(string@[i as int])
                    + string@.skip(i + 1));
                assert(out@ =~= string@.take(i as int) + (upper_of(string@[i as int])
                    + string@.skip(i + 1)));
            }
            return out;
        }
        i = i + 1;
    }
    proof {
        lemma_titlecase_skip(string@, n as int);
        assert(string@.skip(n as int) =~= Seq::<char>::empty());
        assert(spec_titlecase(string@.skip(n as int)) =~= Seq::<char>::empty());
        assert(string@.take(n as int) + Seq::<char>::empty() =~= string@);
    }
    string.to_owned()
}

/// The position right after the first occurrence of `://`, if any.
pub open spec fn spec_after_scheme(s: Seq<char>, i: int) -> Option<int>
    decreases s.len() - i
        when 0 <= i
{
    if i < 0 || i + 3 > s.len() {
        None
    } else if s.subrange(i, i + 3) == "://"@ {
        Some(i + 3)
    } else {
        spec_after_scheme(s, i + 1)
    }
}

/// The first index at or after `i` holding `c`, if any.
pub open spec fn spec_find_char(s: Seq<char>, c: char, i: int) -> Option<int>
    decreases s.len() - i
        when 0 <= i
{
    if i < 0 || i >= s.len() {
        None
    } else if s[i] == c {
        Some(i)
    } else {
        spec_find_char(s, c, i + 1)
    }
}

/// What the heuristic makes of a URL: the first host component after the
/// scheme and an optional `www.`, titlecased; nothing when the URL has no
/// scheme, no dot after the host start, or an empty component.
pub open spec fn spec_label(url: Seq<char>) -> Option<Seq<char>> {
    match spec_after_scheme(url, 0) {
        None => None,
        Some(h) => {
            let start = if h + 4 <= url.len() && url.subrange(h, h + 4) == "www."@ {
                h + 4
            } else {
                h
            };
            match spec_find_char(url, '.', start) {
                None => None,
                Some(d) => if d == start {
                    None
                } else {
                    Some(spec_titlecase(url.subrange(start, d)))
                },
            }
        },
    }
}

/// Find `://` at or after `i`.
fn find_scheme_end(s: &str, i: usize) -> (r: Option<usize>)
    requires
        i <= s@.len(),
    ensures
        match r {
            Some(j) => spec_after_scheme(s@, i as int) == Some(j as int) && j <= s@.len(),
            None => spec_after_scheme(s@, i as int) is None,
        },
    decreases s@.len() - i,
{
    let n = s.unicode_len();
    if n < 3 || i > n - 3 {
        proof {
            reveal_strlit("://");
        }
        return None;
    }
    if matches_at(s, i, "://") {
        proof {
            reveal_strlit("://");
        }
        Some(i + 3)
    } else {
        proof {
            reveal_strlit("://");
        }
        find_scheme_end(s, i + 1)
    }
}

/// The label the heuristic gives `url`, when it gives one.
pub fn label_of_url(url: &str) -> (r: Option<String>)
    ensures
        match r {
            Some(lab) => spec_label(url@) == Some(lab@),
            None => spec_label(url@) is None,
        },
{
    let n = url.unicode_len();
    let scheme = find_scheme_end(url, 0);
    match scheme {
        None => None,
        Some(h) => {
            let start = if matches_at(url, h, "www.") {
                proof {
                    reveal_strlit("www.");
                }
                h + 4
            } else {
                proof {
                    reveal_strlit("www.");
                }
                h
            };
            let dot = find_char_from(url, '.', start);
            proof {
                lemma_find_char_agrees(url@, '.', start as int);
            }
            match dot {
                None => None,
                Some(d) => {
                    if d == start {
                        None
                    } else {
                        let seg = url.substring_char(start, d);
                        Some(titlecase(seg))
                    }
                },
            }
        },
    }
}

/// The executable character search and the specification one agree: the
/// first hit at or after `i` is the same on both sides.
pub proof fn lemma_find_char_agrees(s: Seq<char>, c: char, i: int)
    requires
        0 <= i <= s.len(),
    ensures
        match spec_find_char(s, c, i) {
            Some(j) => i <= j < s.len() && s[j] == c && forall|k: int| i <= k < j ==> s[k] != c,
            None => forall|k: int| i <= k < s.len() ==> s[k] != c,
        },
    decreases s.len() - i,
{
    if i < s.len() && s[i] != c {
        lemma_find_char_agrees(s, c, i + 1);
    }
}

} // verus!
