//! A map from string keys to values, backed by a vector of entries and
//! abstracted as a mathematical `Map`.  A later entry for a key shadows an
//! earlier one; the well-formedness predicate `wf` says that no key repeats.

use vstd::prelude::*;
use crate::strutil::str_eq;

verus! {

/// The map denoted by an entry sequence: later entries win.
pub open spec fn entries_map<T: View>(s: Seq<(String, T)>) -> Map<Seq<char>, T::V>
    decreases s,
{
    if s.len() == 0 {
        Map::<Seq<char>, T::V>::empty()
    } else {
        entries_map(s.drop_last()).insert(s.last().0@, s.last().1@)
    }
}

/// An entry at `i` whose key no later entry repeats gives the map's value at
/// that key.
pub proof fn lemma_entries_map_at<T: View>(s: Seq<(String, T)>, i: int)
    requires
        0 <= i < s.len(),
        forall|j: int| i < j < s.len() ==> (#[trigger] s[j]).0@ != s[i].0@,
    ensures
        entries_map(s).contains_key(s[i].0@),
        entries_map(s)[s[i].0@] == s[i].1@,
    decreases s.len(),
{
    if i < s.len() - 1 {
        assert(s.drop_last()[i] == s[i]);
        assert forall|j: int| i < j < s.drop_last().len() implies (#[trigger] s.drop_last()[j]).0@
            != s.drop_last()[i].0@ by {
            assert(s.drop_last()[j] == s[j]);
        }
        lemma_entries_map_at(s.drop_last(), i);
        assert(s.last().0@ != s[i].0@);
    }
}

/// A key no entry holds is not in the map.
pub proof fn lemma_entries_map_absent<T: View>(s: Seq<(String, T)>, d: Seq<char>)
    requires
        forall|j: int| 0 <= j < s.len() ==> (#[trigger] s[j]).0@ != d,
    ensures
        !entries_map(s).contains_key(d),
    decreases s.len(),
{
    if s.len() > 0 {
        assert forall|j: int| 0 <= j < s.drop_last().len() implies (#[trigger] s.drop_last()[j]).0@
            != d by {
            assert(s.drop_last()[j] == s[j]);
        }
        lemma_entries_map_absent(s.drop_last(), d);
    }
}

/// Every key of the map is held by some entry.
pub proof fn lemma_entries_map_key<T: View>(s: Seq<(String, T)>, d: Seq<char>)
    requires
        entries_map(s).contains_key(d),
    ensures
        exists|i: int| 0 <= i < s.len() && (#[trigger] s[i]).0@ == d,
    decreases s.len(),
{
    if s.len() > 0 {
        if s.last().0@ == d {
            assert((s[s.len() - 1]).0@ == d);
        } else {
            lemma_entries_map_key(s.drop_last(), d);
            let i = choose|i: int| 0 <= i < s.drop_last().len() && (#[trigger] s.drop_last()[i]).0@
                == d;
            assert((s[i]).0@ == d);
        }
    }
}

/// Every entry's key is in the map, whether or not a later entry shadows it.
pub proof fn lemma_entries_map_has<T: View>(s: Seq<(String, T)>, i: int)
    requires
        0 <= i < s.len(),
    ensures
        entries_map(s).contains_key(s[i].0@),
    decreases s.len(),
{
    if i < s.len() - 1 {
        lemma_entries_map_has(s.drop_last(), i);
        assert(s.drop_last()[i] == s[i]);
    }
}

/// The map's domain is exactly the set of entry keys.
pub proof fn lemma_entries_map_dom<T: View>(s: Seq<(String, T)>)
    ensures
        entries_map(s).dom() == s.map_values(|e: (String, T)| e.0@).to_set(),
        entries_map(s).dom().finite(),
    decreases s.len(),
{
    let keys = s.map_values(|e: (String, T)| e.0@);
    if s.len() == 0 {
        assert(entries_map(s).dom() =~= keys.to_set());
    } else {
        lemma_entries_map_dom(s.drop_last());
        let dkeys = s.drop_last().map_values(|e: (String, T)| e.0@);
        assert(keys =~= dkeys.push(s.last().0@));
        dkeys.lemma_push_to_set_commute(s.last().0@);
        assert(entries_map(s).dom() =~= dkeys.to_set().insert(s.last().0@));
    }
}

/// A vector of key/value entries read as a map from key to value.
pub struct AssocVec<T: View> {
    entries: Vec<(String, T)>,
}

impl<T: View> AssocVec<T> {
    /// The entry sequence itself.
    pub closed spec fn entry_seq(&self) -> Seq<(String, T)> {
        self.entries@
    }

    /// Number of entries held.
    pub open spec fn entry_count(&self) -> nat {
        self.entry_seq().len()
    }

    /// No two entries share a key: each key is recorded exactly once.
    pub open spec fn wf(&self) -> bool {
        forall|i: int, j: int|
            0 <= i < j < self.entry_seq().len() ==> (#[trigger] self.entry_seq()[i]).0@
                != (#[trigger] self.entry_seq()[j]).0@
    }

    pub closed spec fn view(&self) -> Map<Seq<char>, T::V> {
        entries_map(self.entries@)
    }

    pub fn new() -> (r: AssocVec<T>)
        ensures
            r.wf(),
            r@ == Map::<Seq<char>, T::V>::empty(),
            r.entry_count() == 0,
    {
        AssocVec { entries: Vec::new() }
    }

    /// Adds an entry; a later entry for the same key shadows the earlier one.
    pub fn insert(&mut self, key: String, value: T)
        ensures
            final(self)@ == old(self)@.insert(key@, value@),
            final(self).entry_seq() == old(self).entry_seq().push((key, value)),
            final(self).entry_count() == old(self).entry_count() + 1,
            old(self).wf() && !old(self)@.contains_key(key@) ==> final(self).wf(),
    {
        let ghost olds = self.entries@;
        proof {
            if self.wf() && !entries_map(olds).contains_key(key@) {
                if exists|i: int| 0 <= i < olds.len() && (#[trigger] olds[i]).0@ == key@ {
                    let i = choose|i: int| 0 <= i < olds.len() && (#[trigger] olds[i]).0@ == key@;
                    assert forall|j: int| i < j < olds.len() implies (#[trigger] olds[j]).0@
                        != olds[i].0@ by {}
                    lemma_entries_map_at(olds, i);
                }
            }
        }
        self.entries.push((key, value));
        proof {
            assert(self.entries@.drop_last() =~= olds);
        }
    }

    /// Looks up the value recorded for a key.
    pub fn get(&self, key: &str) -> (r: Option<&T>)
        ensures
            r is None ==> !self@.contains_key(key@),
            r matches Some(v) ==> self@.contains_key(key@) && v@ == self@[key@],
    {
        let n = self.entries.len();
        let mut i: usize = n;
        while i > 0
            invariant
                n == self.entries@.len(),
                i <= n,
                forall|j: int| i <= j < n ==> (#[trigger] self.entries@[j]).0@ != key@,
            decreases i,
    {
            i = i - 1;
            if str_eq(self.entries[i].0.as_str(), key) {
                proof {
                    lemma_entries_map_at(self.entries@, i as int);
                }
                return Some(&self.entries[i].1);
            }
        }
        proof {
            lemma_entries_map_absent(self.entries@, key@);
        }
        None
    }

    /// Whether any entry records the key.
    pub fn contains_key(&self, key: &str) -> (r: bool)
        ensures
            r == self@.contains_key(key@),
    {
        self.get(key).is_some()
    }

    /// Number of entries; with `wf` this is also the size of the map.
    pub fn len(&self) -> (n: usize)
        ensures
            n == self.entry_count(),
    {
        self.entries.len()
    }

    /// The entry at an index.
    pub fn entry_at(&self, i: usize) -> (r: &(String, T))
        requires
            i < self.entry_count(),
        ensures
            *r == self.entry_seq()[i as int],
    {
        &self.entries[i]
    }

    /// The entries, given up in order.
    pub fn into_entries(self) -> (r: Vec<(String, T)>)
        ensures
            r@ == self.entry_seq(),
    {
        self.entries
    }

    /// The map is the one the entry sequence denotes.
    pub proof fn lemma_view_is_entries(&self)
        ensures
            self@ == entries_map(self.entry_seq()),
    {
    }

    /// The map's domain is the finite set of entry keys.
    pub proof fn lemma_dom_finite(&self)
        ensures
            self@.dom().finite(),
            self@.dom() == self.entry_seq().map_values(|e: (String, T)| e.0@).to_set(),
    {
        lemma_entries_map_dom(self.entries@);
    }

    /// The map is determined by the entry sequence.
    pub proof fn lemma_view_from_entries(&self, other: &AssocVec<T>)
        requires
            self.entry_seq() == other.entry_seq(),
        ensures
            self@ == other@,
    {
    }

    /// With no key repeated, each entry is the map's record for its key.
    pub proof fn lemma_wf_entry(&self, i: int)
        requires
            self.wf(),
            0 <= i < self.entry_count(),
        ensures
            self@.contains_key(self.entry_seq()[i].0@),
            self@[self.entry_seq()[i].0@] == self.entry_seq()[i].1@,
    {
        lemma_entries_map_at(self.entries@, i);
    }

    /// Every key of the map is some entry's key.
    pub proof fn lemma_key_has_entry(&self, d: Seq<char>)
        requires
            self@.contains_key(d),
        ensures
            exists|i: int|
                0 <= i < self.entry_count() && (#[trigger] self.entry_seq()[i]).0@ == d,
    {
        lemma_entries_map_key(self.entries@, d);
        let i = choose|i: int| 0 <= i < self.entries@.len() && (#[trigger] self.entries@[i]).0@
            == d;
        assert((self.entry_seq()[i]).0@ == d);
    }

    /// With no key repeated, the map holds exactly as many keys as there are
    /// entries.
    pub proof fn lemma_wf_dom_len(&self)
        requires
            self.wf(),
        ensures
            self@.dom().len() == self.entry_count(),
    {
        let keys = self.entry_seq().map_values(|e: (String, T)| e.0@);
        assert forall|i: int| 0 <= i < self.entry_count() implies self@.dom().contains(
            #[trigger] keys[i],
        ) by {
            self.lemma_wf_entry(i);
        }
        assert forall|d: Seq<char>| #[trigger] self@.dom().contains(d) implies keys.to_set()
            .contains(d) by {
            self.lemma_key_has_entry(d);
            let i = choose|i: int|
                0 <= i < self.entry_count() && (#[trigger] self.entry_seq()[i]).0@ == d;
            assert(keys[i] == d);
        }
        assert forall|d: Seq<char>| keys.to_set().contains(d) implies self@.dom().contains(d) by {
            let i = choose|i: int| 0 <= i < keys.len() && keys[i] == d;
            self.lemma_wf_entry(i);
        }
        assert(self@.dom() =~= keys.to_set());
        assert(keys.no_duplicates());
        keys.unique_seq_to_set();
    }
}

} // verus!
