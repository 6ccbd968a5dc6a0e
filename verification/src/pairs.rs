//! Path-keyed text maps: the map a list of `(path, text)` pairs denotes, and a set of sources kept
//! sorted by path, the order a `BTreeMap<String, String>` walks its keys in.

use vstd::prelude::*;

use crate::order::{chars_less, chars_lt, lemma_chars_lt_irreflexive, lemma_chars_lt_total, lemma_chars_lt_transitive};
use crate::text::chars_of;

verus! {

/// The path-to-text map of a list of pairs, a later pair for a path replacing an earlier one.
pub open spec fn pairs_map(pairs: Seq<(Seq<char>, Seq<char>)>) -> Map<Seq<char>, Seq<char>>
    decreases pairs.len(),
{
    if pairs.len() == 0 {
        Map::empty()
    } else {
        pairs_map(pairs.drop_last()).insert(pairs.last().0, pairs.last().1)
    }
}

/// Replacing the value of a pair whose path occurs once leaves the map as if that path were
/// re-inserted last.
pub proof fn lemma_pairs_map_replace(pairs: Seq<(Seq<char>, Seq<char>)>, f: int, p: (Seq<char>, Seq<char>))
    requires
        0 <= f < pairs.len(),
        pairs[f].0 == p.0,
        forall|i: int, j: int| 0 <= i < j < pairs.len() ==> (#[trigger] pairs[i]).0 != (
        #[trigger] pairs[j]).0,
    ensures
        pairs_map(pairs.update(f, p)) == pairs_map(pairs).insert(p.0, p.1),
    decreases pairs.len(),
{
    let u = pairs.update(f, p);
    if f == pairs.len() - 1 {
        assert(u.drop_last() =~= pairs.drop_last());
        assert(pairs_map(u) =~= pairs_map(pairs).insert(p.0, p.1));
    } else {
        let d = pairs.drop_last();
        assert(u.drop_last() =~= d.update(f, p));
        assert forall|i: int, j: int| 0 <= i < j < d.len() implies (#[trigger] d[i]).0 != (
        #[trigger] d[j]).0 by {
            assert(d[i] == pairs[i] && d[j] == pairs[j]);
        }
        lemma_pairs_map_replace(d, f, p);
        assert(pairs.last().0 != p.0);
        assert(pairs_map(u) =~= pairs_map(pairs).insert(p.0, p.1));
    }
}

/// The map holds a pair's path with the pair's value when the path occurs once.
pub proof fn lemma_pairs_map_lookup(pairs: Seq<(Seq<char>, Seq<char>)>, k: int)
    requires
        0 <= k < pairs.len(),
        forall|i: int, j: int| 0 <= i < j < pairs.len() ==> (#[trigger] pairs[i]).0 != (
        #[trigger] pairs[j]).0,
    ensures
        pairs_map(pairs).dom().contains(pairs[k].0),
        pairs_map(pairs)[pairs[k].0] == pairs[k].1,
    decreases pairs.len(),
{
    if k < pairs.len() - 1 {
        let d = pairs.drop_last();
        assert forall|i: int, j: int| 0 <= i < j < d.len() implies (#[trigger] d[i]).0 != (
        #[trigger] d[j]).0 by {
            assert(d[i] == pairs[i] && d[j] == pairs[j]);
        }
        lemma_pairs_map_lookup(d, k);
        assert(d[k] == pairs[k]);
        assert(pairs.last().0 != pairs[k].0);
    }
}

/// A path no pair carries is not in the map.
pub proof fn lemma_pairs_map_absent(pairs: Seq<(Seq<char>, Seq<char>)>, path: Seq<char>)
    requires
        forall|j: int| 0 <= j < pairs.len() ==> pairs[j].0 != path,
    ensures
        !pairs_map(pairs).dom().contains(path),
    decreases pairs.len(),
{
    if pairs.len() > 0 {
        let d = pairs.drop_last();
        assert forall|j: int| 0 <= j < d.len() implies d[j].0 != path by {
            assert(d[j] == pairs[j]);
        }
        lemma_pairs_map_absent(d, path);
    }
}

/// Inserting a pair for a path no pair carries, anywhere in the list, maps that path to its value.
pub proof fn lemma_pairs_map_insert_at(pairs: Seq<(Seq<char>, Seq<char>)>, f: int, p: (Seq<char>, Seq<char>))
    requires
        0 <= f <= pairs.len(),
        forall|j: int| 0 <= j < pairs.len() ==> pairs[j].0 != p.0,
    ensures
        pairs_map(pairs.insert(f, p)) == pairs_map(pairs).insert(p.0, p.1),
    decreases pairs.len(),
{
    let u = pairs.insert(f, p);
    if f == pairs.len() {
        assert(u.drop_last() =~= pairs);
    } else {
        let d = pairs.drop_last();
        assert(u.drop_last() =~= d.insert(f, p));
        assert forall|j: int| 0 <= j < d.len() implies d[j].0 != p.0 by {
            assert(d[j] == pairs[j]);
        }
        lemma_pairs_map_insert_at(d, f, p);
        assert(u.last() == pairs.last());
        assert(pairs.last().0 != p.0);
        assert(pairs_map(u) =~= pairs_map(pairs).insert(p.0, p.1));
    }
}

/// Removing the one pair that carries a path drops that path from the map.
pub proof fn lemma_pairs_map_remove_at(pairs: Seq<(Seq<char>, Seq<char>)>, f: int)
    requires
        0 <= f < pairs.len(),
        forall|i: int, j: int| 0 <= i < j < pairs.len() ==> (#[trigger] pairs[i]).0 != (
        #[trigger] pairs[j]).0,
    ensures
        pairs_map(pairs.remove(f)) == pairs_map(pairs).remove(pairs[f].0),
    decreases pairs.len(),
{
    let k = pairs[f].0;
    let u = pairs.remove(f);
    let d = pairs.drop_last();
    if f == pairs.len() - 1 {
        assert(u =~= d);
        assert forall|j: int| 0 <= j < d.len() implies d[j].0 != k by {
            assert(d[j] == pairs[j]);
        }
        lemma_pairs_map_absent(d, k);
        assert(pairs_map(u) =~= pairs_map(pairs).remove(k));
    } else {
        assert(u.drop_last() =~= d.remove(f));
        assert forall|i: int, j: int| 0 <= i < j < d.len() implies (#[trigger] d[i]).0 != (
        #[trigger] d[j]).0 by {
            assert(d[i] == pairs[i] && d[j] == pairs[j]);
        }
        lemma_pairs_map_remove_at(d, f);
        assert(d[f] == pairs[f]);
        assert(u.last() == pairs.last());
        assert(pairs.last().0 != k);
        assert(pairs_map(u) =~= pairs_map(pairs).remove(k));
    }
}

/// The values of a list of owned string pairs.
pub open spec fn string_pairs_view(pairs: Seq<(String, String)>) -> Seq<(Seq<char>, Seq<char>)> {
    pairs.map_values(|p: (String, String)| (p.0@, p.1@))
}

/// Whether the pairs' paths strictly ascend, so that each path occurs once.
pub open spec fn paths_ascending(pairs: Seq<(Seq<char>, Seq<char>)>) -> bool {
    forall|i: int, j: int| 0 <= i < j < pairs.len() ==> chars_lt(#[trigger] pairs[i].0, #[trigger] pairs[j].0)
}

/// Ascending paths are pairwise distinct.
pub proof fn lemma_ascending_distinct(pairs: Seq<(Seq<char>, Seq<char>)>)
    requires
        paths_ascending(pairs),
    ensures
        forall|i: int, j: int| 0 <= i < j < pairs.len() ==> (#[trigger] pairs[i]).0 != (
        #[trigger] pairs[j]).0,
{
    assert forall|i: int, j: int| 0 <= i < j < pairs.len() implies (#[trigger] pairs[i]).0 != (
    #[trigger] pairs[j]).0 by {
        assert(chars_lt(pairs[i].0, pairs[j].0));
        lemma_chars_lt_irreflexive(pairs[i].0);
    }
}

/// Pairs with distinct paths map as many paths as there are pairs.
pub proof fn lemma_pairs_map_dom_len(pairs: Seq<(Seq<char>, Seq<char>)>)
    requires
        forall|i: int, j: int| 0 <= i < j < pairs.len() ==> (#[trigger] pairs[i]).0 != (
        #[trigger] pairs[j]).0,
    ensures
        pairs_map(pairs).dom().finite(),
        pairs_map(pairs).dom().len() == pairs.len(),
    decreases pairs.len(),
{
    if pairs.len() > 0 {
        let d = pairs.drop_last();
        assert forall|i: int, j: int| 0 <= i < j < d.len() implies (#[trigger] d[i]).0 != (#[trigger] d[j]).0 by {
            assert(d[i] == pairs[i] && d[j] == pairs[j]);
        }
        lemma_pairs_map_dom_len(d);
        assert forall|j: int| 0 <= j < d.len() implies d[j].0 != pairs.last().0 by {
            assert(d[j] == pairs[j]);
        }
        lemma_pairs_map_absent(d, pairs.last().0);
    }
}

/// A set of `(path, text)` sources held in ascending path order, each path once.
pub struct SourceSet {
    entries: Vec<(String, String)>,
}

impl SourceSet {
    /// The held pairs, in order.
    pub closed spec fn pairs(&self) -> Seq<(Seq<char>, Seq<char>)> {
        string_pairs_view(self.entries@)
    }

    /// The held paths ascend.
    pub open spec fn well_formed(&self) -> bool {
        paths_ascending(self.pairs())
    }

    /// The set as a map from path to text.
    pub open spec fn view_map(&self) -> Map<Seq<char>, Seq<char>> {
        pairs_map(self.pairs())
    }

    /// An empty set.
    pub fn new() -> (r: Self)
        ensures
            r.well_formed(),
            r.view_map() == Map::<Seq<char>, Seq<char>>::empty(),
    {
        let r = SourceSet { entries: Vec::new() };
        assert(r.pairs() =~= Seq::<(Seq<char>, Seq<char>)>::empty());
        r
    }

    /// The first position whose path does not precede `path`, and whether `path` is held there.
    fn locate(&self, path: &[char]) -> (r: (usize, bool))
        requires
            self.well_formed(),
        ensures
            r.0 <= self.pairs().len(),
            forall|j: int| 0 <= j < r.0 ==> chars_lt(#[trigger] self.pairs()[j].0, path@),
            r.1 <==> (r.0 < self.pairs().len() && self.pairs()[r.0 as int].0 == path@),
            (r.0 < self.pairs().len() && !r.1) ==> chars_lt(path@, self.pairs()[r.0 as int].0),
    {
        let ghost ps = self.pairs();
        let mut i: usize = 0;
        while i < self.entries.len()
            invariant
                i <= self.entries.len(),
                ps == self.pairs(),
                ps.len() == self.entries.len(),
                forall|j: int| 0 <= j < i ==> chars_lt(#[trigger] ps[j].0, path@),
            decreases self.entries.len() - i,
        {
            let key = chars_of(self.entries[i].0.as_str());
            assert(ps[i as int].0 == key@);
            if !chars_less(&key, path) {
                let found = crate::text::chars_eq(&key, path);
                proof {
                    if !found {
                        lemma_chars_lt_total(path@, key@);
                    }
                }
                return (i, found);
            }
            i = i + 1;
        }
        (i, false)
    }

    /// The set a list of pairs denotes, a later pair for a path replacing an earlier one.
    pub fn from_pairs(pairs: &[(String, String)]) -> (r: Self)
        ensures
            r.well_formed(),
            r.view_map() == pairs_map(string_pairs_view(pairs@)),
    {
        let mut set = SourceSet::new();
        let mut k: usize = 0;
        while k < pairs.len()
            invariant
                k <= pairs.len(),
                set.well_formed(),
                set.view_map() == pairs_map(string_pairs_view(pairs@.take(k as int))),
            decreases pairs.len() - k,
        {
            proof {
                assert(string_pairs_view(pairs@.take(k + 1)).drop_last() =~= string_pairs_view(
                    pairs@.take(k as int),
                ));
            }
            set.insert(pairs[k].0.clone(), pairs[k].1.clone());
            k = k + 1;
        }
        assert(pairs@.take(pairs.len() as int) =~= pairs@);
        set
    }

    /// Set `path` to `text`, replacing any text it held.
    pub fn insert(&mut self, path: String, text: String)
        requires
            old(self).well_formed(),
        ensures
            final(self).well_formed(),
            final(self).view_map() == old(self).view_map().insert(path@, text@),
    {
        let pc = chars_of(path.as_str());
        let (i, found) = self.locate(&pc);
        let ghost before = self.pairs();
        proof {
            lemma_ascending_distinct(before);
        }
        if found {
            self.entries.set(i, (path, text));
            proof {
                lemma_pairs_map_replace(before, i as int, (pc@, text@));
                assert(self.pairs() =~= before.update(i as int, (pc@, text@)));
            }
        } else {
            self.entries.insert(i, (path, text));
            proof {
                assert forall|j: int| 0 <= j < before.len() implies before[j].0 != pc@ by {
                    if j < i {
                        assert(chars_lt(before[j].0, pc@));
                        lemma_chars_lt_irreflexive(pc@);
                    } else {
                        if j > i {
                            assert(chars_lt(before[i as int].0, before[j].0));
                            lemma_chars_lt_transitive(pc@, before[i as int].0, before[j].0);
                        }
                        lemma_chars_lt_irreflexive(pc@);
                    }
                }
                lemma_pairs_map_insert_at(before, i as int, (pc@, text@));
                let after = self.pairs();
                assert(after =~= before.insert(i as int, (pc@, text@)));
                assert forall|a: int, b: int| 0 <= a < b < after.len() implies chars_lt(
                    #[trigger] after[a].0,
                    #[trigger] after[b].0,
                ) by {
                    if b < i {
                        assert(after[a] == before[a] && after[b] == before[b]);
                    } else if b == i {
                        assert(after[a] == before[a]);
                    } else if a == i {
                        assert(after[b] == before[b - 1]);
                        if b - 1 > i {
                            assert(chars_lt(before[i as int].0, before[b - 1].0));
                            lemma_chars_lt_transitive(pc@, before[i as int].0, before[b - 1].0);
                        }
                    } else if a < i {
                        assert(after[a] == before[a] && after[b] == before[b - 1]);
                    } else {
                        assert(after[a] == before[a - 1] && after[b] == before[b - 1]);
                    }
                }
            }
        }
    }

    /// Drop `path`, if held.
    pub fn remove(&mut self, path: &str)
        requires
            old(self).well_formed(),
        ensures
            final(self).well_formed(),
            final(self).view_map() == old(self).view_map().remove(path@),
    {
        let pc = chars_of(path);
        let (i, found) = self.locate(&pc);
        let ghost before = self.pairs();
        proof {
            lemma_ascending_distinct(before);
        }
        if found {
            self.entries.remove(i);
            proof {
                lemma_pairs_map_remove_at(before, i as int);
                let after = self.pairs();
                assert(after =~= before.remove(i as int));
                assert forall|a: int, b: int| 0 <= a < b < after.len() implies chars_lt(
                    #[trigger] after[a].0,
                    #[trigger] after[b].0,
                ) by {
                    if b < i {
                        assert(after[a] == before[a] && after[b] == before[b]);
                    } else if a < i {
                        assert(after[a] == before[a] && after[b] == before[b + 1]);
                    } else {
                        assert(after[a] == before[a + 1] && after[b] == before[b + 1]);
                    }
                }
            }
        } else {
            proof {
                assert forall|j: int| 0 <= j < before.len() implies before[j].0 != pc@ by {
                    if j < i {
                        assert(chars_lt(before[j].0, pc@));
                        lemma_chars_lt_irreflexive(pc@);
                    } else {
                        if j > i {
                            assert(chars_lt(before[i as int].0, before[j].0));
                            lemma_chars_lt_transitive(pc@, before[i as int].0, before[j].0);
                        }
                        lemma_chars_lt_irreflexive(pc@);
                    }
                }
                lemma_pairs_map_absent(before, pc@);
                assert(pairs_map(before).remove(pc@) =~= pairs_map(before));
            }
        }
    }

    /// The text held for `path`, if any.
    pub fn get(&self, path: &str) -> (r: Option<String>)
        requires
            self.well_formed(),
        ensures
            r is Some <==> self.view_map().dom().contains(path@),
            r is Some ==> r.unwrap()@ == self.view_map()[path@],
    {
        let pc = chars_of(path);
        let (i, found) = self.locate(&pc);
        let ghost before = self.pairs();
        proof {
            lemma_ascending_distinct(before);
        }
        if found {
            proof {
                lemma_pairs_map_lookup(before, i as int);
            }
            Some(self.entries[i].1.clone())
        } else {
            proof {
                assert forall|j: int| 0 <= j < before.len() implies before[j].0 != pc@ by {
                    if j < i {
                        assert(chars_lt(before[j].0, pc@));
                        lemma_chars_lt_irreflexive(pc@);
                    } else {
                        if j > i {
                            assert(chars_lt(before[i as int].0, before[j].0));
                            lemma_chars_lt_transitive(pc@, before[i as int].0, before[j].0);
                        }
                        lemma_chars_lt_irreflexive(pc@);
                    }
                }
                lemma_pairs_map_absent(before, pc@);
            }
            None
        }
    }

    /// How many paths the set holds.
    pub fn len(&self) -> (r: usize)
        requires
            self.well_formed(),
        ensures
            self.view_map().dom().finite(),
            r == self.view_map().dom().len(),
    {
        proof {
            lemma_ascending_distinct(self.pairs());
            lemma_pairs_map_dom_len(self.pairs());
        }
        self.entries.len()
    }

    /// The held pairs, in ascending path order.
    pub fn into_pairs(self) -> (r: Vec<(String, String)>)
        requires
            self.well_formed(),
        ensures
            paths_ascending(string_pairs_view(r@)),
            pairs_map(string_pairs_view(r@)) == self.view_map(),
    {
        self.entries
    }
}

} // verus!
