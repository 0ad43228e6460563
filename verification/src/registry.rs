//! The alias registry: a mapping from alias names to executable paths.
//!
//! The registry is a sequence of name/path pairs whose names are pairwise
//! distinct. Overwriting an existing name requires an explicit confirmation
//! flag; without it the registry is left unchanged.

use crate::text::str_eq;
use vstd::prelude::*;
use vstd::multiset::Multiset;
use vstd::seq_lib::group_to_multiset_ensures;
use vstd::seq_lib::lemma_multiset_commutative;
use vstd::string::StrSliceExecFns;

verus! {

/// Abstract model of a registry: a sequence of (name, path) pairs.
pub type AliasModel = Seq<(Seq<char>, Seq<char>)>;

/// Whether some pair in `m` carries the name `name`.
pub open spec fn has_name(m: AliasModel, name: Seq<char>) -> bool {
    exists|i: int| 0 <= i < m.len() && m[i].0 == name
}

/// The index of the pair carrying `name` (meaningful when `has_name` holds).
pub open spec fn name_index(m: AliasModel, name: Seq<char>) -> int {
    choose|i: int| 0 <= i < m.len() && m[i].0 == name
}

/// The path stored under `name` (meaningful when `has_name` holds).
pub open spec fn path_of(m: AliasModel, name: Seq<char>) -> Seq<char> {
    m[name_index(m, name)].1
}

/// Names are pairwise distinct in `m`.
pub open spec fn unique_names(m: AliasModel) -> bool {
    forall|i: int, j: int| 0 <= i < j < m.len() ==> m[i].0 != m[j].0
}

/// What `add` reports back.
#[derive(Clone, Copy, Debug, PartialEq, Eq, Structural)]
pub enum AddOutcome {
    /// The name was new and the pair was appended.
    Added,
    /// The name existed and the caller had confirmed the overwrite.
    Overwritten,
    /// The name existed and the caller had not confirmed; nothing changed.
    Refused,
}

/// Errors the registry reports.
#[derive(Clone, Copy, Debug, PartialEq, Eq, Structural)]
pub enum RegistryError {
    /// The named alias is not in the registry.
    AliasNotFound,
    /// A random pick was asked of a registry with no entries.
    EmptyRegistry,
}

/// The alias registry; entries keep insertion order.
pub struct Registry {
    aliases: Vec<(String, String)>,
}

impl View for Registry {
    type V = AliasModel;

    closed spec fn view(&self) -> AliasModel {
        self.aliases@.map_values(|p: (String, String)| (p.0@, p.1@))
    }
}

impl Registry {
    /// Names are pairwise distinct: each name resolves to exactly one path.
    pub open spec fn wf(&self) -> bool {
        unique_names(self@)
    }

    /// An empty registry.
    pub fn new() -> (r: Registry)
        ensures
            r@ == Seq::<(Seq<char>, Seq<char>)>::empty(),
            r.wf(),
    {
        let r = Registry { aliases: Vec::new() };
        proof {
            assert(r@ =~= Seq::<(Seq<char>, Seq<char>)>::empty());
        }
        r
    }

    /// Number of entries.
    pub fn len(&self) -> (n: usize)
        ensures
            n == self@.len(),
    {
        self.aliases.len()
    }

    /// The entry at position `i`, as fresh strings.
    pub fn entry_at(&self, i: usize) -> (r: (String, String))
        requires
            i < self@.len(),
        ensures
            (r.0@, r.1@) == self@[i as int],
    {
        let p = &self.aliases[i];
        (p.0.clone(), p.1.clone())
    }

    /// Index of the entry named `name`, if any.
    fn find(&self, name: &str) -> (r: Option<usize>)
        ensures
            match r {
                Some(i) => i < self@.len() && self@[i as int].0 == name@,
                None => !has_name(self@, name@),
            },
    {
        let n = self.aliases.len();
        let mut i: usize = 0;
        while i < n
            invariant
                i <= n,
                n == self@.len(),
                forall|j: int| 0 <= j < i ==> self@[j].0 != name@,
            decreases n - i,
        {
            if str_eq(self.aliases[i].0.as_str(), name) {
                return Some(i);
            }
            i = i + 1;
        }
        None
    }

    /// Whether an alias named `name` exists.
    pub fn contains(&self, name: &str) -> (r: bool)
        ensures
            r == has_name(self@, name@),
    {
        self.find(name).is_some()
    }

    /// The path stored under `name`.
    pub fn get(&self, name: &str) -> (r: Result<String, RegistryError>)
        requires
            self.wf(),
        ensures
            match r {
                Ok(p) => has_name(self@, name@) && p@ == path_of(self@, name@),
                Err(e) => e == RegistryError::AliasNotFound && !has_name(self@, name@),
            },
    {
        match self.find(name) {
            Some(i) => {
                proof {
                    let k = name_index(self@, name@);
                    assert(has_name(self@, name@));
                    if k != i {
                        assert(self@[k].0 == self@[i as int].0);
                    }
                }
                Ok(self.aliases[i].1.clone())
            },
            None => Err(RegistryError::AliasNotFound),
        }
    }

    /// Insert or overwrite the binding for `name`.
    ///
    /// A new name is appended. An existing name is overwritten only when the
    /// caller passes `confirmed`; otherwise the registry is untouched.
    pub fn add(&mut self, name: &str, path: &str, confirmed: bool) -> (r: AddOutcome)
        requires
            old(self).wf(),
        ensures
            final(self).wf(),
            !has_name(old(self)@, name@) ==> r == AddOutcome::Added
                && final(self)@ == old(self)@.push((name@, path@)),
            has_name(old(self)@, name@) && confirmed ==> r == AddOutcome::Overwritten
                && final(self)@ == old(self)@.update(name_index(old(self)@, name@), (name@, path@)),
            has_name(old(self)@, name@) && !confirmed ==> r == AddOutcome::Refused
                && final(self)@ == old(self)@,
    {
        match self.find(name) {
            Some(i) => {
                if confirmed {
                    self.aliases.set(i, (name.to_owned(), path.to_owned()));
                    proof {
                        let k = name_index(old(self)@, name@);
                        if k != i {
                            assert(old(self)@[k].0 == old(self)@[i as int].0);
                        }
                        assert(self@ =~= old(self)@.update(i as int, (name@, path@)));
                    }
                    AddOutcome::Overwritten
                } else {
                    AddOutcome::Refused
                }
            },
            None => {
                self.aliases.push((name.to_owned(), path.to_owned()));
                proof {
                    assert(self@ =~= old(self)@.push((name@, path@)));
                }
                AddOutcome::Added
            },
        }
    }

    /// Remove the binding for `name`; reports when it is absent.
    pub fn remove(&mut self, name: &str) -> (r: Result<(), RegistryError>)
        requires
            old(self).wf(),
        ensures
            final(self).wf(),
            match r {
                Ok(()) => has_name(old(self)@, name@) && final(self)@ == old(self)@.remove(
                    name_index(old(self)@, name@),
                ),
                Err(e) => e == RegistryError::AliasNotFound && !has_name(old(self)@, name@)
                    && final(self)@ == old(self)@,
            },
    {
        match self.find(name) {
            Some(i) => {
                self.aliases.remove(i);
                proof {
                    let k = name_index(old(self)@, name@);
                    if k != i {
                        assert(old(self)@[k].0 == old(self)@[i as int].0);
                    }
                    assert(self@ =~= old(self)@.remove(i as int));
                }
                Ok(())
            },
            None => Err(RegistryError::AliasNotFound),
        }
    }

    /// All entries in display order: longest names first, and entries with
    /// equally long names in their insertion order.
    pub fn list(&self) -> (r: Vec<(String, String)>)
        ensures
            sorted_by_name_len(pairs_model(r@)),
            pairs_model(r@).to_multiset() == self@.to_multiset(),
            forall|n: nat| entries_with_len(pairs_model(r@), n) == entries_with_len(self@, n),
    {
        let n = self.aliases.len();
        let mut copy: Vec<(String, String)> = Vec::new();
        proof {
            assert(pairs_model(copy@) =~= self@.subrange(0, 0));
        }
        let mut i: usize = 0;
        while i < n
            invariant
                i <= n,
                n == self@.len(),
                pairs_model(copy@) == self@.subrange(0, i as int),
            decreases n - i,
        {
            let p = self.entry_at(i);
            let ghost before = copy@;
            copy.push(p);
            proof {
                assert(pairs_model(before).len() == i);
                assert(before.len() == i);
                assert(pairs_model(copy@).len() == i + 1);
                assert(forall|k: int|
                    0 <= k < i ==> #[trigger] pairs_model(copy@)[k] == pairs_model(before)[k]);
                assert(pairs_model(copy@)[i as int] == self@[i as int]);
                assert(pairs_model(copy@) =~= self@.subrange(0, i + 1));
            }
            i = i + 1;
        }
        proof {
            assert(self@.subrange(0, n as int) =~= self@);
        }
        sort_by_key_length(copy)
    }

    /// Whether some alias points at exactly this path.
    pub fn contains_path(&self, path: &str) -> (r: bool)
        ensures
            r == exists|i: int| 0 <= i < self@.len() && self@[i].1 == path@,
    {
        let n = self.aliases.len();
        let mut i: usize = 0;
        while i < n
            invariant
                i <= n,
                n == self@.len(),
                forall|j: int| 0 <= j < i ==> self@[j].1 != path@,
            decreases n - i,
        {
            if str_eq(self.aliases[i].1.as_str(), path) {
                proof {
                    assert(self@[i as int].1 == path@);
                }
                return true;
            }
            i = i + 1;
        }
        false
    }

    /// Build a registry from a sequence of pairs, reporting `None` when two
    /// pairs carry the same name.
    pub fn from_pairs(pairs: &Vec<(String, String)>) -> (r: Option<Registry>)
        ensures
            match r {
                Some(reg) => reg@ == pairs_model(pairs@) && reg.wf(),
                None => !unique_names(pairs_model(pairs@)),
            },
    {
        let mut reg = Registry::new();
        let n = pairs.len();
        proof {
            assert(reg@ =~= pairs_model(pairs@).subrange(0, 0));
        }
        let mut k: usize = 0;
        while k < n
            invariant
                k <= n,
                n == pairs@.len(),
                reg.wf(),
                reg@ == pairs_model(pairs@).subrange(0, k as int),
            decreases n - k,
        {
            let outcome = reg.add(pairs[k].0.as_str(), pairs[k].1.as_str(), false);
            match outcome {
                AddOutcome::Added => {
                    proof {
                        assert(pairs_model(pairs@)[k as int] == (pairs@[k as int].0@, pairs@[k
                            as int].1@));
                        assert(reg@ =~= pairs_model(pairs@).subrange(0, k + 1));
                    }
                },
                _ => {
                    proof {
                        let m = pairs_model(pairs@);
                        let prefix = m.subrange(0, k as int);
                        assert(has_name(prefix, pairs@[k as int].0@));
                        let w = choose|w: int|
                            0 <= w < prefix.len() && prefix[w].0 == pairs@[k as int].0@;
                        assert(m[w].0 == m[k as int].0);
                        assert(!unique_names(m));
                    }
                    return None;
                },
            }
            k = k + 1;
        }
        proof {
            assert(pairs_model(pairs@).subrange(0, n as int) =~= pairs_model(pairs@));
        }
        Some(reg)
    }

    /// Pick the entry at position `draw % len`, reporting `EmptyRegistry`
    /// when there are no entries (in particular, no modulo by zero is taken).
    pub fn random(&self, draw: usize) -> (r: Result<(String, String), RegistryError>)
        ensures
            match r {
                Ok(p) => self@.len() > 0 && (p.0@, p.1@) == self@[draw as int % self@.len() as int],
                Err(e) => e == RegistryError::EmptyRegistry && self@.len() == 0,
            },
    {
        let n = self.aliases.len();
        if n == 0 {
            Err(RegistryError::EmptyRegistry)
        } else {
            Ok(self.entry_at(draw % n))
        }
    }
}

/// Law: in a well-formed registry a name resolves to exactly one path; two
/// entries carrying the same name are one and the same entry.
pub proof fn lemma_unique_resolution(r: &Registry, i: int, j: int)
    requires
        r.wf(),
        0 <= i < r@.len(),
        0 <= j < r@.len(),
        r@[i].0 == r@[j].0,
    ensures
        i == j,
        r@[i].1 == r@[j].1,
{
}

/// Abstract view of a sequence of owned (name, path) pairs.
pub open spec fn pairs_model(s: Seq<(String, String)>) -> AliasModel {
    s.map_values(|p: (String, String)| (p.0@, p.1@))
}

/// Name lengths never increase along the sequence.
pub open spec fn sorted_by_name_len(m: AliasModel) -> bool {
    forall|i: int, j: int| 0 <= i < j < m.len() ==> m[i].0.len() >= m[j].0.len()
}

/// The subsequence of the entries whose name has exactly `n` characters,
/// in their original order.
pub open spec fn entries_with_len(m: AliasModel, n: nat) -> AliasModel
    decreases m.len(),
{
    if m.len() == 0 {
        Seq::empty()
    } else if m[0].0.len() == n {
        seq![m[0]] + entries_with_len(m.drop_first(), n)
    } else {
        entries_with_len(m.drop_first(), n)
    }
}

proof fn lemma_entries_concat(a: AliasModel, b: AliasModel, n: nat)
    ensures
        entries_with_len(a + b, n) == entries_with_len(a, n) + entries_with_len(b, n),
    decreases a.len(),
{
    if a.len() == 0 {
        assert(a + b =~= b);
        assert(entries_with_len(a, n) + entries_with_len(b, n) =~= entries_with_len(b, n));
    } else {
        assert((a + b).len() > 0 && (a + b)[0] == a[0]);
        assert((a + b).drop_first() =~= a.drop_first() + b);
        lemma_entries_concat(a.drop_first(), b, n);
        if a[0].0.len() == n {
            assert(seq![a[0]] + (entries_with_len(a.drop_first(), n) + entries_with_len(b, n))
                =~= (seq![a[0]] + entries_with_len(a.drop_first(), n)) + entries_with_len(b, n));
        }
    }
}

proof fn lemma_entries_absent(m: AliasModel, n: nat)
    requires
        forall|i: int| 0 <= i < m.len() ==> m[i].0.len() != n,
    ensures
        entries_with_len(m, n) == Seq::<(Seq<char>, Seq<char>)>::empty(),
    decreases m.len(),
{
    if m.len() > 0 {
        lemma_entries_absent(m.drop_first(), n);
    }
}

proof fn lemma_entries_single(x: (Seq<char>, Seq<char>), n: nat)
    ensures
        x.0.len() == n ==> entries_with_len(seq![x], n) == seq![x],
        x.0.len() != n ==> entries_with_len(seq![x], n) == Seq::<(Seq<char>, Seq<char>)>::empty(),
{
    assert(seq![x].drop_first() =~= Seq::<(Seq<char>, Seq<char>)>::empty());
    assert(entries_with_len(seq![x].drop_first(), n) =~= Seq::<(Seq<char>, Seq<char>)>::empty());
    if x.0.len() == n {
        assert(seq![x] + entries_with_len(seq![x].drop_first(), n) =~= seq![x]);
    }
}

/// Stable sort of (name, path) pairs by descending character length of the
/// name: longest names first, and entries whose names are equally long keep
/// their relative order.
pub fn sort_by_key_length(pairs: Vec<(String, String)>) -> (r: Vec<(String, String)>)
    ensures
        sorted_by_name_len(pairs_model(r@)),
        pairs_model(r@).to_multiset() == pairs_model(pairs@).to_multiset(),
        forall|n: nat|
            entries_with_len(pairs_model(r@), n) == entries_with_len(pairs_model(pairs@), n),
{
    let len = pairs.len();
    let mut out: Vec<(String, String)> = Vec::new();
    proof {
        assert(pairs_model(out@) =~= Seq::<(Seq<char>, Seq<char>)>::empty());
        assert(pairs_model(pairs@.take(0)) =~= Seq::<(Seq<char>, Seq<char>)>::empty());
    }
    let mut k: usize = 0;
    while k < len
        invariant
            k <= len,
            len == pairs@.len(),
            sorted_by_name_len(pairs_model(out@)),
            pairs_model(out@).to_multiset() == pairs_model(pairs@.take(k as int)).to_multiset(),
            forall|n: nat|
                entries_with_len(pairs_model(out@), n) == entries_with_len(
                    pairs_model(pairs@.take(k as int)),
                    n,
                ),
        decreases len - k,
    {
        let name = pairs[k].0.clone();
        let path = pairs[k].1.clone();
        let xlen = name.as_str().unicode_len();
        let mut pos: usize = out.len();
        while pos > 0 && out[pos - 1].0.as_str().unicode_len() < xlen
            invariant
                pos <= out@.len(),
                xlen == name@.len(),
                sorted_by_name_len(pairs_model(out@)),
                forall|i: int| pos <= i < out@.len() ==> pairs_model(out@)[i].0.len() < xlen,
            decreases pos,
        {
            pos = pos - 1;
        }
        let ghost mo = pairs_model(out@);
        let ghost mi = pairs_model(pairs@.take(k as int));
        let ghost x = (name@, path@);
        proof {
            assert(forall|i: int| 0 <= i < pos ==> mo[i].0.len() >= xlen) by {
                if pos > 0 {
                    assert(forall|i: int|
                        0 <= i < pos ==> #[trigger] mo[i].0.len() >= mo[pos - 1].0.len());
                }
            }
        }
        out.insert(pos, (name, path));
        k = k + 1;
        proof {
            broadcast use group_to_multiset_ensures;

            let mo2 = pairs_model(out@);
            let front = mo.take(pos as int);
            let back = mo.skip(pos as int);
            assert(mo =~= front + back);
            assert(mo2 =~= front + (seq![x] + back));
            // Sortedness: everything before the insertion point is at least
            // as long as x's name, everything after is strictly shorter.
            assert(forall|i: int| 0 <= i < pos ==> mo2[i] == mo[i]);
            assert(mo2[pos as int] == x);
            assert(forall|i: int| pos < i < mo2.len() ==> mo2[i] == mo[i - 1]);
            assert(sorted_by_name_len(mo2));
            // Permutation: the new multiset is the old one plus x.
            lemma_multiset_commutative(front, back);
            lemma_multiset_commutative(front, seq![x] + back);
            lemma_multiset_commutative(seq![x], back);
            assert(seq![x] =~= Seq::<(Seq<char>, Seq<char>)>::empty().push(x));
            assert(seq![x].to_multiset() =~= Multiset::<(Seq<char>, Seq<char>)>::empty().insert(x));
            let mi2 = pairs_model(pairs@.take(k as int));
            assert(mi2 =~= mi.push(x));
            assert(mo2.to_multiset() =~= mi2.to_multiset());
            // Stability: for every name length the subsequence of entries of
            // that length grows exactly as it does on the input side.
            assert forall|n: nat|
                entries_with_len(mo2, n) == entries_with_len(mi2, n) by {
                lemma_entries_concat(front, back, n);
                lemma_entries_concat(front, seq![x] + back, n);
                lemma_entries_concat(seq![x], back, n);
                lemma_entries_single(x, n);
                assert(mi2 =~= mi + seq![x]);
                lemma_entries_concat(mi, seq![x], n);
                if n == xlen {
                    lemma_entries_absent(back, n);
                    assert(entries_with_len(front, n) + (seq![x]
                        + Seq::<(Seq<char>, Seq<char>)>::empty()) =~= (entries_with_len(front, n)
                        + Seq::<(Seq<char>, Seq<char>)>::empty()) + seq![x]);
                } else {
                    assert(entries_with_len(front, n) + (Seq::<(Seq<char>, Seq<char>)>::empty()
                        + entries_with_len(back, n)) =~= (entries_with_len(front, n)
                        + entries_with_len(back, n)) + Seq::<(Seq<char>, Seq<char>)>::empty());
                }
            }
        }
    }
    proof {
        assert(pairs@.take(len as int) =~= pairs@);
    }
    out
}

} // verus!
