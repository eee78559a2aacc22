//! A map keyed by strings, held as a list of entries with distinct keys.

use vstd::prelude::*;

use crate::text::{chars_eq, chars_of, chars_starts_with, starts_with};

verus! {

/// The keys of `es` are distinct.
pub open spec fn entries_wf<V>(es: Seq<(String, V)>) -> bool {
    forall|i: int, j: int| 0 <= i < j < es.len() ==> #[trigger] es[i].0@ != #[trigger] es[j].0@
}

/// Entry `i` of `es` has key `k`.
pub open spec fn has_at<V>(es: Seq<(String, V)>, k: Seq<char>, i: int) -> bool {
    0 <= i < es.len() && es[i].0@ == k
}

/// The map that a list of entries stands for.
pub open spec fn entries_map<V: View>(es: Seq<(String, V)>) -> Map<Seq<char>, V::V> {
    Map::new(
        |k: Seq<char>| exists|i: int| #[trigger] has_at(es, k, i),
        |k: Seq<char>| es[choose|i: int| #[trigger] has_at(es, k, i)].1@,
    )
}

/// The value of a key is the value of its entry.
pub proof fn lemma_entries_lookup<V: View>(es: Seq<(String, V)>, k: Seq<char>, i: int)
    requires
        entries_wf(es),
        has_at(es, k, i),
    ensures
        entries_map(es).contains_key(k),
        entries_map(es)[k] == es[i].1@,
{
    let c = choose|c: int| #[trigger] has_at(es, k, c);
    assert(has_at(es, k, c));
    if c < i {
        assert(es[c].0@ != es[i].0@);
    } else if c > i {
        assert(es[i].0@ != es[c].0@);
    }
}

/// The number of keys is the number of entries.
pub proof fn lemma_entries_len<V: View>(es: Seq<(String, V)>)
    requires
        entries_wf(es),
    ensures
        es.len() == entries_map(es).dom().len(),
{
    let keys = Seq::new(es.len(), |i: int| es[i].0@);
    assert forall|i: int, j: int| 0 <= i < keys.len() && 0 <= j < keys.len() && i != j implies keys[i]
        != keys[j] by {
        if i < j {
            assert(es[i].0@ != es[j].0@);
        } else {
            assert(es[j].0@ != es[i].0@);
        }
    }
    assert(keys.no_duplicates());
    keys.unique_seq_to_set();
    assert(keys.to_set() =~= entries_map(es).dom()) by {
        assert forall|k: Seq<char>| keys.to_set().contains(k) implies entries_map(
            es,
        ).dom().contains(k) by {
            let i = choose|i: int| 0 <= i < keys.len() && keys[i] == k;
            assert(has_at(es, k, i));
        }
        assert forall|k: Seq<char>| entries_map(es).dom().contains(k) implies keys.to_set().contains(
            k,
        ) by {
            let i = choose|i: int| #[trigger] has_at(es, k, i);
            assert(keys[i] == k);
        }
    }
}

/// A map from strings to values, kept as entries with distinct keys in the
/// order in which the keys were first inserted.
pub struct StrMap<V> {
    entries: Vec<(String, V)>,
}

impl<V: View> StrMap<V> {
    /// The entries' keys are distinct.
    pub closed spec fn wf(&self) -> bool {
        entries_wf(self.entries@)
    }

    /// An empty map.
    pub fn new() -> (res: Self)
        ensures
            res.wf(),
            res@ == Map::<Seq<char>, V::V>::empty(),
    {
        let res = StrMap { entries: Vec::new() };
        assert(entries_map(res.entries@) =~= Map::<Seq<char>, V::V>::empty());
        res
    }

    /// The number of keys.
    pub fn len(&self) -> (res: usize)
        requires
            self.wf(),
        ensures
            res == self@.dom().len(),
    {
        proof {
            lemma_entries_len(self.entries@);
        }
        self.entries.len()
    }

    /// Finds the entry with key `key`.
    fn find(&self, key: &str) -> (res: Option<usize>)
        requires
            self.wf(),
        ensures
            match res {
                Some(i) => has_at(self.entries@, key@, i as int),
                None => !self@.contains_key(key@),
            },
    {
        let kc = chars_of(key);
        let mut i: usize = 0;
        while i < self.entries.len()
            invariant
                i <= self.entries.len(),
                kc@ == key@,
                forall|j: int| 0 <= j < i ==> self.entries@[j].0@ != key@,
            decreases self.entries.len() - i,
        {
            let c = chars_of(self.entries[i].0.as_str());
            if chars_eq(&c, &kc) {
                return Some(i);
            }
            i = i + 1;
        }
        None
    }

    /// The value under `key`.
    pub fn get(&self, key: &str) -> (res: Option<&V>)
        requires
            self.wf(),
        ensures
            match res {
                Some(v) => self@.contains_key(key@) && self@[key@] == v@,
                None => !self@.contains_key(key@),
            },
    {
        match self.find(key) {
            Some(i) => {
                proof {
                    lemma_entries_lookup(self.entries@, key@, i as int);
                }
                Some(&self.entries[i].1)
            },
            None => None,
        }
    }

    /// Whether there is a value under `key`.
    pub fn contains_key(&self, key: &str) -> (res: bool)
        requires
            self.wf(),
        ensures
            res == self@.contains_key(key@),
    {
        self.find(key).is_some()
    }

    /// Puts `value` under `key`, in place of the value that was there.
    pub fn insert(&mut self, key: String, value: V)
        requires
            old(self).wf(),
        ensures
            final(self).wf(),
            final(self)@ == old(self)@.insert(key@, value@),
    {
        let ghost old_es = self.entries@;
        let ghost old_map = entries_map(old_es);
        let ghost kv = key@;
        let ghost vv = value@;
        let found = self.find(key.as_str());
        match found {
            Some(i) => {
                let _ = self.entries.remove(i);
                self.entries.insert(i, (key, value));
            },
            None => {
                self.entries.push((key, value));
            },
        }
        let ghost es = self.entries@;
        let ghost at: int = match found {
            Some(i) => i as int,
            None => old_es.len() as int,
        };
        assert(forall|j: int| 0 <= j < es.len() && j != at ==> es[j] == old_es[j]);
        assert(has_at(es, kv, at) && es[at].1@ == vv);
        assert(es.len() == old_es.len() || (es.len() == old_es.len() + 1 && !old_map.contains_key(
            kv,
        )));
        assert(entries_wf(es)) by {
            assert forall|i: int, j: int| 0 <= i < j < es.len() implies #[trigger] es[i].0@
                != #[trigger] es[j].0@ by {
                if i == at {
                    if has_at(old_es, kv, j) {
                        assert(old_map.contains_key(kv));
                        assert(at < old_es.len());
                        assert(old_es[at].0@ == kv);
                    }
                } else if j == at {
                    if has_at(old_es, kv, i) {
                        assert(old_map.contains_key(kv));
                        assert(old_es[at].0@ == kv);
                    }
                }
            }
        }
        assert(entries_map(es) =~= old_map.insert(kv, vv)) by {
            assert forall|k: Seq<char>| #![auto]
                entries_map(es).dom().contains(k) == old_map.insert(kv, vv).dom().contains(k) by {
                if k != kv {
                    if exists|j: int| #[trigger] has_at(es, k, j) {
                        let j = choose|j: int| #[trigger] has_at(es, k, j);
                        assert(has_at(old_es, k, j));
                    }
                    if exists|j: int| #[trigger] has_at(old_es, k, j) {
                        let j = choose|j: int| #[trigger] has_at(old_es, k, j);
                        assert(has_at(es, k, j));
                    }
                } else {
                    assert(has_at(es, k, at));
                }
            }
            assert forall|k: Seq<char>| #[trigger]
                entries_map(es).dom().contains(k) implies entries_map(es)[k] == old_map.insert(
                kv,
                vv,
            )[k] by {
                let j = choose|j: int| #[trigger] has_at(es, k, j);
                lemma_entries_lookup(es, k, j);
                if k == kv {
                    lemma_entries_lookup(es, k, at);
                } else {
                    assert(has_at(old_es, k, j));
                    lemma_entries_lookup(old_es, k, j);
                }
            }
        }
    }

    /// Removes every key that begins with `prefix`; the other keys keep
    /// their values.
    pub fn remove_prefixed(&mut self, prefix: &str)
        requires
            old(self).wf(),
        ensures
            final(self).wf(),
            final(self)@ == old(self)@.restrict(
                old(self)@.dom().filter(|k: Seq<char>| !starts_with(k, prefix@)),
            ),
    {
        let pc = chars_of(prefix);
        let ghost orig = self.entries@;
        let ghost old_map = entries_map(orig);
        let mut rest: Vec<(String, V)> = Vec::new();
        std::mem::swap(&mut rest, &mut self.entries);
        let mut kept: StrMap<V> = StrMap::new();
        let total = rest.len();
        let mut n: usize = 0;
        assert(orig.skip(0) =~= orig);
        assert(kept@ =~= old_map.restrict(
            Set::new(
                |k: Seq<char>| (exists|j: int| 0 <= j < 0 && #[trigger] has_at(orig, k, j)) && !starts_with(k, prefix@),
            ),
        ));
        while rest.len() > 0
            invariant
                pc@ == prefix@,
                total == orig.len(),
                n <= orig.len(),
                rest@ == orig.skip(n as int),
                entries_wf(orig),
                old_map == entries_map(orig),
                kept.wf(),
                kept@ == old_map.restrict(
                    Set::new(
                        |k: Seq<char>|
                            (exists|j: int| 0 <= j < n && #[trigger] has_at(orig, k, j))
                                && !starts_with(k, prefix@),
                    ),
                ),
            decreases rest.len(),
        {
            assert(n < orig.len());
            let e = rest.remove(0);
            assert(e == orig[n as int]);
            assert(orig.skip(n as int).remove(0) =~= orig.skip(n + 1));
            let ghost kn = e.0@;
            proof {
                lemma_entries_lookup(orig, kn, n as int);
            }
            let kc = chars_of(e.0.as_str());
            let prefixed = chars_starts_with(&kc, &pc);
            if !prefixed {
                kept.insert(e.0, e.1);
            }
            let ghost next_set = Set::new(
                |k: Seq<char>|
                    (exists|j: int| 0 <= j < n + 1 && #[trigger] has_at(orig, k, j)) && !starts_with(
                        k,
                        prefix@,
                    ),
            );
            assert(kept@ =~= old_map.restrict(next_set)) by {
                assert forall|k: Seq<char>| #![auto]
                    kept@.dom().contains(k) == old_map.restrict(next_set).dom().contains(k) by {
                    if exists|j: int| 0 <= j < n + 1 && #[trigger] has_at(orig, k, j) {
                        let j = choose|j: int| 0 <= j < n + 1 && #[trigger] has_at(orig, k, j);
                        if j < n {
                            assert(exists|j: int| 0 <= j < n && #[trigger] has_at(orig, k, j));
                        }
                        assert(old_map.dom().contains(k)) by {
                            lemma_entries_lookup(orig, k, j);
                        }
                    }
                    if k != kn && exists|j: int| 0 <= j < n + 1 && #[trigger] has_at(orig, k, j) {
                        let j = choose|j: int| 0 <= j < n + 1 && #[trigger] has_at(orig, k, j);
                        assert(j != n);
                        assert(exists|j: int| 0 <= j < n && #[trigger] has_at(orig, k, j));
                    }
                    if exists|j: int| 0 <= j < n && #[trigger] has_at(orig, k, j) {
                        let j = choose|j: int| 0 <= j < n && #[trigger] has_at(orig, k, j);
                        assert(has_at(orig, k, j) && 0 <= j < n + 1);
                    }
                    if k == kn {
                        assert(has_at(orig, k, n as int));
                    }
                }
            }
            n = n + 1;
        }
        assert(n == orig.len());
        assert(kept@ =~= old_map.restrict(
            old_map.dom().filter(|k: Seq<char>| !starts_with(k, prefix@)),
        )) by {
            assert forall|k: Seq<char>| #![auto]
                old_map.dom().contains(k) implies (exists|j: int| 0 <= j < n && #[trigger] has_at(orig, k, j)) by {
                let j = choose|j: int| #[trigger] has_at(orig, k, j);
                assert(0 <= j < n && has_at(orig, k, j));
            }
        }
        self.entries = kept.entries;
    }

    /// The entries, in the order in which their keys were first inserted.
    pub fn entries(&self) -> (res: &Vec<(String, V)>)
        requires
            self.wf(),
        ensures
            res@.len() == self@.dom().len(),
            forall|i: int|
                0 <= i < res@.len() ==> #[trigger] self@.contains_key(res@[i].0@) && self@[res@[i].0@]
                    == res@[i].1@,
    {
        proof {
            lemma_entries_len(self.entries@);
            assert forall|i: int| 0 <= i < self.entries@.len() implies #[trigger] self@.contains_key(
                self.entries@[i].0@,
            ) && self@[self.entries@[i].0@] == self.entries@[i].1@ by {
                lemma_entries_lookup(self.entries@, self.entries@[i].0@, i);
            }
        }
        &self.entries
    }
}

impl<V: View> View for StrMap<V> {
    type V = Map<Seq<char>, V::V>;

    closed spec fn view(&self) -> Map<Seq<char>, V::V> {
        entries_map(self.entries@)
    }
}

} // verus!
