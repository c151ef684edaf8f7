//! Maps keyed by strings, kept as lists of entries with distinct keys in
//! insertion order.

use vstd::prelude::*;
use crate::text::str_eq;

verus! {

/// The value of the first entry whose key is `k`.
pub open spec fn entry_lookup<V>(entries: Seq<(String, V)>, k: Seq<char>) -> Option<V>
    decreases entries.len(),
{
    if entries.len() == 0 {
        None
    } else if entries[0].0@ == k {
        Some(entries[0].1)
    } else {
        entry_lookup(entries.drop_first(), k)
    }
}

/// The keys of a list of entries, in order.
pub open spec fn entry_keys<V>(entries: Seq<(String, V)>) -> Seq<Seq<char>> {
    entries.map_values(|e: (String, V)| e.0@)
}

/// No key occurs twice.
pub open spec fn keys_distinct<V>(entries: Seq<(String, V)>) -> bool {
    forall|i: int, j: int| 0 <= i < j < entries.len() ==> (#[trigger] entries[i]).0@ != (#[trigger] entries[j]).0@
}

/// A map from strings to values. Keys are distinct; entries keep the order in
/// which their keys were first inserted.
#[derive(Debug)]
pub struct StrMap<V> {
    pub entries: Vec<(String, V)>,
}

impl<V> View for StrMap<V> {
    type V = Map<Seq<char>, V>;

    open spec fn view(&self) -> Map<Seq<char>, V> {
        Map::new(
            |k: Seq<char>| entry_lookup(self.entries@, k) is Some,
            |k: Seq<char>| entry_lookup(self.entries@, k)->0,
        )
    }
}

pub proof fn lemma_lookup_index<V>(entries: Seq<(String, V)>, k: Seq<char>)
    ensures
        entry_lookup(entries, k) is Some <==> exists|i: int| 0 <= i < entries.len() && (#[trigger] entries[i]).0@ == k,
        entry_lookup(entries, k) is Some ==> exists|i: int|
            0 <= i < entries.len() && (#[trigger] entries[i]).0@ == k && entry_lookup(entries, k) == Some(entries[i].1),
    decreases entries.len(),
{
    if entries.len() > 0 {
        lemma_lookup_index(entries.drop_first(), k);
        if entries[0].0@ != k {
            assert forall|i: int| 0 <= i < entries.drop_first().len() implies entries.drop_first()[i] == entries[i + 1] by {}
            if exists|i: int| 0 <= i < entries.len() && (#[trigger] entries[i]).0@ == k {
                let i = choose|i: int| 0 <= i < entries.len() && (#[trigger] entries[i]).0@ == k;
                assert(entries.drop_first()[i - 1].0@ == k);
            }
        }
    }
}

/// With distinct keys, the entry at `i` is what its key looks up.
pub proof fn lemma_lookup_at<V>(entries: Seq<(String, V)>, i: int)
    requires
        keys_distinct(entries),
        0 <= i < entries.len(),
    ensures
        entry_lookup(entries, entries[i].0@) == Some(entries[i].1),
    decreases i,
{
    if i > 0 {
        assert(entries[0].0@ != entries[i].0@);
        assert(entries.drop_first()[i - 1] == entries[i]);
        lemma_lookup_at(entries.drop_first(), i - 1);
    }
}

pub proof fn lemma_lookup_push<V>(entries: Seq<(String, V)>, e: (String, V), k: Seq<char>)
    ensures
        entry_lookup(entries.push(e), k) == (if entry_lookup(entries, k) is Some {
            entry_lookup(entries, k)
        } else if e.0@ == k {
            Some(e.1)
        } else {
            None
        }),
    decreases entries.len(),
{
    if entries.len() > 0 {
        assert(entries.push(e).drop_first() =~= entries.drop_first().push(e));
        assert(entries.push(e)[0] == entries[0]);
        lemma_lookup_push(entries.drop_first(), e, k);
    } else {
        assert(entries.push(e).drop_first() =~= Seq::<(String, V)>::empty());
        assert(entries.push(e)[0] == e);
        assert(entry_lookup(Seq::<(String, V)>::empty(), k) is None);
    }
}

pub proof fn lemma_lookup_update<V>(entries: Seq<(String, V)>, i: int, e: (String, V), k: Seq<char>)
    requires
        keys_distinct(entries),
        0 <= i < entries.len(),
        entries[i].0@ == e.0@,
    ensures
        entry_lookup(entries.update(i, e), k) == (if e.0@ == k {
            Some(e.1)
        } else {
            entry_lookup(entries, k)
        }),
    decreases i,
{
    let u = entries.update(i, e);
    if i == 0 {
        assert(u.drop_first() =~= entries.drop_first());
    } else {
        assert(u.drop_first() =~= entries.drop_first().update(i - 1, e));
        assert(keys_distinct(entries.drop_first())) by {
            assert forall|a: int, b: int| 0 <= a < b < entries.drop_first().len() implies (
            #[trigger] entries.drop_first()[a]).0@ != (#[trigger] entries.drop_first()[b]).0@ by {
                assert(entries.drop_first()[a] == entries[a + 1]);
                assert(entries.drop_first()[b] == entries[b + 1]);
            }
        }
        if entries[0].0@ == k && e.0@ == k {
            assert(entries[0].0@ == entries[i].0@);
        }
        lemma_lookup_update(entries.drop_first(), i - 1, e, k);
    }
}

impl<V> StrMap<V> {
    pub open spec fn wf(&self) -> bool {
        keys_distinct(self.entries@)
    }

    /// The empty map.
    pub fn new() -> (m: StrMap<V>)
        ensures
            m.wf(),
            m@ == Map::<Seq<char>, V>::empty(),
            m.entries@.len() == 0,
    {
        let m = StrMap { entries: Vec::new() };
        assert(m@ =~= Map::<Seq<char>, V>::empty());
        m
    }

    /// The number of entries.
    pub fn len(&self) -> (n: usize)
        ensures
            n == self.entries@.len(),
    {
        self.entries.len()
    }

    /// The index of the entry whose key is `k`.
    pub fn find(&self, k: &str) -> (res: Option<usize>)
        ensures
            match res {
                Some(i) => i < self.entries@.len() && self.entries@[i as int].0@ == k@ && entry_lookup(
                    self.entries@,
                    k@,
                ) == Some(self.entries@[i as int].1),
                None => entry_lookup(self.entries@, k@) is None,
            },
    {
        let mut i: usize = 0;
        assert(self.entries@.skip(0) =~= self.entries@);
        while i < self.entries.len()
            invariant
                i <= self.entries@.len(),
                entry_lookup(self.entries@, k@) == entry_lookup(self.entries@.skip(i as int), k@),
            decreases self.entries@.len() - i,
        {
            assert(self.entries@.skip(i as int).drop_first() =~= self.entries@.skip(i + 1));
            if str_eq(self.entries[i].0.as_str(), k) {
                return Some(i);
            }
            i = i + 1;
        }
        None
    }

    /// The value for `k`.
    pub fn get(&self, k: &str) -> (res: Option<&V>)
        ensures
            match res {
                Some(v) => self@.contains_key(k@) && self@[k@] == *v,
                None => !self@.contains_key(k@),
            },
    {
        match self.find(k) {
            Some(i) => Some(&self.entries[i].1),
            None => None,
        }
    }

    /// Whether `k` has a value.
    pub fn contains_key(&self, k: &str) -> (b: bool)
        ensures
            b == self@.contains_key(k@),
    {
        self.find(k).is_some()
    }

    /// Sets the value of `k`; a new key goes after the others.
    pub fn insert(&mut self, k: String, v: V)
        requires
            old(self).wf(),
        ensures
            final(self).wf(),
            final(self)@ == old(self)@.insert(k@, v),
            entry_keys(final(self).entries@) == (if old(self)@.contains_key(k@) {
                entry_keys(old(self).entries@)
            } else {
                entry_keys(old(self).entries@).push(k@)
            }),
    {
        let ghost old_entries = self.entries@;
        let ghost kv = k@;
        match self.find(k.as_str()) {
            Some(i) => {
                self.entries.set(i, (k, v));
                proof {
                    let e = self.entries@[i as int];
                    assert(self.entries@ =~= old_entries.update(i as int, e));
                    assert forall|a: int, b: int| 0 <= a < b < self.entries@.len() implies (
                    #[trigger] self.entries@[a]).0@ != (#[trigger] self.entries@[b]).0@ by {
                        assert(old_entries[a].0@ != old_entries[b].0@);
                    }
                    assert forall|q: Seq<char>| entry_lookup(self.entries@, q) == (if q == kv {
                        Some(v)
                    } else {
                        entry_lookup(old_entries, q)
                    }) by {
                        lemma_lookup_update(old_entries, i as int, e, q);
                    }
                    assert(self@ =~= old(self)@.insert(kv, v));
                    assert(entry_keys(self.entries@) =~= entry_keys(old_entries));
                }
            },
            None => {
                self.entries.push((k, v));
                proof {
                    let e = self.entries@.last();
                    assert(self.entries@ =~= old_entries.push(e));
                    assert forall|a: int, b: int| 0 <= a < b < self.entries@.len() implies (
                    #[trigger] self.entries@[a]).0@ != (#[trigger] self.entries@[b]).0@ by {
                        if b == old_entries.len() {
                            lemma_lookup_index(old_entries, kv);
                            assert(old_entries[a].0@ != kv);
                        }
                    }
                    assert forall|q: Seq<char>| entry_lookup(self.entries@, q) == (if q == kv {
                        Some(v)
                    } else {
                        entry_lookup(old_entries, q)
                    }) by {
                        lemma_lookup_push(old_entries, e, q);
                    }
                    assert(self@ =~= old(self)@.insert(kv, v));
                    assert(entry_keys(self.entries@) =~= entry_keys(old_entries).push(kv));
                }
            },
        }
    }

    /// Sets the value of each key of `other`, in `other`'s order: a later
    /// entry for a key wins.
    pub fn extend(&mut self, other: StrMap<V>)
        requires
            old(self).wf(),
        ensures
            final(self).wf(),
            final(self)@ == extend_view(old(self)@, other.entries@),
    {
        let ghost es = other.entries@;
        let mut rest = other.entries;
        let n = rest.len();
        let mut i: usize = 0;
        assert(es.skip(0) =~= es);
        while rest.len() > 0
            invariant
                self.wf(),
                es.len() == n,
                i <= es.len(),
                rest@ == es.skip(i as int),
                self@ == extend_view(old(self)@, es.take(i as int)),
            decreases rest@.len(),
        {
            let ghost before = rest@;
            let e = rest.remove(0);
            proof {
                assert(before[0] == es[i as int]);
                assert(rest@ =~= es.skip(i + 1));
                assert(es.take(i + 1).drop_last() =~= es.take(i as int));
                assert(es.take(i + 1).last() == es[i as int]);
            }
            self.insert(e.0, e.1);
            i = i + 1;
        }
        assert(es.take(i as int) =~= es);
    }
}

/// `m` with the entries set in order: a later entry for a key wins.
pub open spec fn extend_view<V>(m: Map<Seq<char>, V>, es: Seq<(String, V)>) -> Map<Seq<char>, V>
    decreases es.len(),
{
    if es.len() == 0 {
        m
    } else {
        extend_view(m, es.drop_last()).insert(es.last().0@, es.last().1)
    }
}

/// Extending a map keeps its keys and adds those of the entries.
pub proof fn lemma_extend_dom<V>(m: Map<Seq<char>, V>, es: Seq<(String, V)>)
    ensures
        forall|k: Seq<char>|
            #[trigger] extend_view(m, es).dom().contains(k) <==> (m.dom().contains(k) || entry_keys(es).contains(k)),
    decreases es.len(),
{
    if es.len() > 0 {
        lemma_extend_dom(m, es.drop_last());
        let ks = entry_keys(es);
        let ks0 = entry_keys(es.drop_last());
        assert(ks0 =~= ks.drop_last());
        assert forall|k: Seq<char>| #[trigger] ks.contains(k) <==> (ks0.contains(k) || es.last().0@ == k) by {
            if ks.contains(k) {
                let i = choose|i: int| 0 <= i < ks.len() && ks[i] == k;
                if i < ks.len() - 1 {
                    assert(ks0[i] == k);
                }
            }
            if ks0.contains(k) {
                let i = choose|i: int| 0 <= i < ks0.len() && ks0[i] == k;
                assert(ks[i] == k);
            }
            if es.last().0@ == k {
                assert(ks[ks.len() - 1] == k);
            }
        }
        assert forall|k: Seq<char>|
            #[trigger] extend_view(m, es).dom().contains(k) <==> (m.dom().contains(k) || ks.contains(k)) by {
            assert(extend_view(m, es) == extend_view(m, es.drop_last()).insert(es.last().0@, es.last().1));
            assert(extend_view(m, es.drop_last()).dom().contains(k) <==> (m.dom().contains(k) || ks0.contains(k)));
            assert(ks.contains(k) <==> (ks0.contains(k) || es.last().0@ == k));
        }
    } else {
        assert(extend_view(m, es) == m);
        assert forall|k: Seq<char>| !#[trigger] entry_keys(es).contains(k) by {}
    }
}

} // verus!
