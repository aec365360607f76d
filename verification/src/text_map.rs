//! A map with text keys, kept as a list.
use crate::text;
use crate::text::str_eq;
use vstd::prelude::*;

verus! {

/// The map that a list of entries stands for; a later entry wins.
pub open spec fn entries_map<V>(entries: Seq<(String, V)>) -> Map<Seq<char>, V>
    decreases entries.len(),
{
    if entries.len() == 0 {
        Map::empty()
    } else {
        entries_map(entries.drop_last()).insert(entries.last().0@, entries.last().1)
    }
}

/// No key occurs twice.
pub open spec fn keys_distinct<V>(entries: Seq<(String, V)>) -> bool {
    forall|i: int, j: int|
        0 <= i < j < entries.len() ==> (#[trigger] entries[i]).0@ != (#[trigger] entries[j]).0@
}

/// A map from texts to values.
#[derive(Debug)]
pub struct TextMap<V> {
    entries: Vec<(String, V)>,
}

impl<V> View for TextMap<V> {
    type V = Map<Seq<char>, V>;

    closed spec fn view(&self) -> Map<Seq<char>, V> {
        entries_map(self.entries@)
    }
}

/// The entries of a list without repeated keys are the entries of its map.
pub proof fn lemma_entries_map<V>(entries: Seq<(String, V)>)
    requires
        keys_distinct(entries),
    ensures
        forall|i: int|
            0 <= i < entries.len() ==> entries_map(entries).contains_key(
                (#[trigger] entries[i]).0@,
            ) && entries_map(entries)[entries[i].0@] == entries[i].1,
        forall|k: Seq<char>| #[trigger]
            entries_map(entries).contains_key(k) ==> exists|i: int|
                0 <= i < entries.len() && (#[trigger] entries[i]).0@ == k,
    decreases entries.len(),
{
    if entries.len() > 0 {
        let rest = entries.drop_last();
        let n = entries.len() - 1;
        assert(keys_distinct(rest));
        lemma_entries_map(rest);
        assert forall|i: int| 0 <= i < entries.len() implies entries_map(entries).contains_key(
            (#[trigger] entries[i]).0@,
        ) && entries_map(entries)[entries[i].0@] == entries[i].1 by {
            if i < n {
                assert(rest[i] == entries[i]);
                assert(entries[i].0@ != entries[n].0@);
            }
        }
        assert forall|k: Seq<char>| #[trigger] entries_map(entries).contains_key(k) implies exists|
            i: int,
        | 0 <= i < entries.len() && (#[trigger] entries[i]).0@ == k by {
            if k == entries[n].0@ {
                assert(entries[n].0@ == k);
            } else {
                assert(entries_map(rest).contains_key(k));
                let i = choose|i: int| 0 <= i < rest.len() && (#[trigger] rest[i]).0@ == k;
                assert(entries[i].0@ == k);
            }
        }
    }
}

proof fn lemma_map_is<V>(entries: Seq<(String, V)>, m: Map<Seq<char>, V>)
    requires
        keys_distinct(entries),
        forall|i: int|
            0 <= i < entries.len() ==> m.contains_key((#[trigger] entries[i]).0@)
                && m[entries[i].0@] == entries[i].1,
        forall|k: Seq<char>| #[trigger]
            m.contains_key(k) ==> exists|i: int|
                0 <= i < entries.len() && (#[trigger] entries[i]).0@ == k,
    ensures
        entries_map(entries) == m,
{
    lemma_entries_map(entries);
    let e = entries_map(entries);
    assert forall|k: Seq<char>| #[trigger] e.contains_key(k) <==> m.contains_key(k) by {
        if e.contains_key(k) {
            let i = choose|i: int| 0 <= i < entries.len() && (#[trigger] entries[i]).0@ == k;
            assert(m.contains_key(entries[i].0@));
        }
        if m.contains_key(k) {
            let i = choose|i: int| 0 <= i < entries.len() && (#[trigger] entries[i]).0@ == k;
            assert(e.contains_key(entries[i].0@));
        }
    }
    assert forall|k: Seq<char>| #[trigger] e.contains_key(k) implies e[k] == m[k] by {
        let i = choose|i: int| 0 <= i < entries.len() && (#[trigger] entries[i]).0@ == k;
        assert(e[entries[i].0@] == entries[i].1);
        assert(m[entries[i].0@] == entries[i].1);
    }
    assert(e =~= m);
}

impl<V> TextMap<V> {
    /// No key occurs twice.
    pub closed spec fn wf(&self) -> bool {
        keys_distinct(self.entries@)
    }

    /// The empty map.
    pub fn new() -> (m: TextMap<V>)
        ensures
            m.wf(),
            m@ == Map::<Seq<char>, V>::empty(),
    {
        TextMap { entries: Vec::new() }
    }

    /// The place of a key.
    fn find(&self, key: &str) -> (r: Option<usize>)
        requires
            self.wf(),
        ensures
            r matches Some(i) ==> i < self.entries@.len() && self.entries@[i as int].0@ == key@,
            r is Some <==> self@.contains_key(key@),
    {
        proof {
            lemma_entries_map(self.entries@);
        }
        let mut i: usize = 0;
        while i < self.entries.len()
            invariant
                i <= self.entries@.len(),
                forall|k: int| 0 <= k < i ==> (#[trigger] self.entries@[k]).0@ != key@,
                forall|k: int|
                    0 <= k < self.entries@.len() ==> self@.contains_key(
                        (#[trigger] self.entries@[k]).0@,
                    ),
            decreases self.entries@.len() - i,
        {
            if str_eq(self.entries[i].0.as_str(), key) {
                assert(self@.contains_key(self.entries@[i as int].0@));
                return Some(i);
            }
            i = i + 1;
        }
        None
    }

    /// The value of a key.
    pub fn get(&self, key: &str) -> (r: Option<&V>)
        requires
            self.wf(),
        ensures
            match r {
                Some(v) => self@.contains_key(key@) && *v == self@[key@],
                None => !self@.contains_key(key@),
            },
    {
        proof {
            lemma_entries_map(self.entries@);
        }
        match self.find(key) {
            Some(i) => {
                assert(self@[self.entries@[i as int].0@] == self.entries@[i as int].1);
                Some(&self.entries[i].1)
            },
            None => None,
        }
    }

    /// Takes a key out, with its value.
    pub fn remove(&mut self, key: &str) -> (r: Option<V>)
        requires
            old(self).wf(),
        ensures
            final(self).wf(),
            final(self)@ == old(self)@.remove(key@),
            match r {
                Some(v) => old(self)@.contains_key(key@) && v == old(self)@[key@],
                None => !old(self)@.contains_key(key@),
            },
    {
        let ghost before = self.entries@;
        let ghost m = self@.remove(key@);
        proof {
            lemma_entries_map(before);
        }
        match self.find(key) {
            Some(i) => {
                assert(self@[before[i as int].0@] == before[i as int].1);
                let (_, v) = self.entries.remove(i);
                proof {
                    let after = self.entries@;
                    assert(after =~= before.remove(i as int));
                    assert forall|k: int, l: int| 0 <= k < l < after.len() implies (#[trigger] after[k]).0@
                        != (#[trigger] after[l]).0@ by {
                        let k2 = if k < i { k } else { k + 1 };
                        let l2 = if l < i { l } else { l + 1 };
                        assert(after[k] == before[k2] && after[l] == before[l2]);
                    }
                    assert forall|k: int| 0 <= k < after.len() implies m.contains_key(
                        (#[trigger] after[k]).0@,
                    ) && m[after[k].0@] == after[k].1 by {
                        let k2 = if k < i { k } else { k + 1 };
                        assert(after[k] == before[k2]);
                        assert(before[k2].0@ != before[i as int].0@);
                    }
                    assert forall|k: Seq<char>| #[trigger] m.contains_key(k) implies exists|l: int|
                        0 <= l < after.len() && (#[trigger] after[l]).0@ == k by {
                        assert(entries_map(before).contains_key(k));
                        let l2 = choose|l2: int|
                            0 <= l2 < before.len() && (#[trigger] before[l2]).0@ == k;
                        let l = if l2 < i { l2 } else { l2 - 1 };
                        assert(l2 != i);
                        assert(after[l] == before[l2]);
                    }
                    lemma_map_is(after, m);
                }
                Some(v)
            },
            None => {
                assert(m =~= self@);
                None
            },
        }
    }

    /// Sets the value of a key.
    pub fn insert(&mut self, key: String, value: V)
        requires
            old(self).wf(),
        ensures
            final(self).wf(),
            final(self)@ == old(self)@.insert(key@, value),
    {
        let ghost start = self@;
        self.remove(key.as_str());
        let ghost before = self.entries@;
        let ghost item = (key, value);
        proof {
            lemma_entries_map(before);
        }
        self.entries.push((key, value));
        proof {
            let after = self.entries@;
            assert(after.drop_last() =~= before);
            assert forall|k: int, l: int| 0 <= k < l < after.len() implies (#[trigger] after[k]).0@
                != (#[trigger] after[l]).0@ by {
                assert(after[k] == before[k]);
                if l < before.len() {
                    assert(after[l] == before[l]);
                } else {
                    assert(entries_map(before).contains_key(before[k].0@));
                }
            }
            assert(self@ =~= start.insert(item.0@, item.1));
        }
    }

    /// Takes every key out.
    pub fn clear(&mut self)
        ensures
            final(self).wf(),
            final(self)@ == Map::<Seq<char>, V>::empty(),
    {
        self.entries.clear();
    }

    /// Keeps the keys that are listed, and takes the others out.
    pub fn retain(&mut self, keys: &Vec<String>)
        requires
            old(self).wf(),
        ensures
            final(self).wf(),
            final(self)@ == old(self)@.restrict(text::views(keys@).to_set()),
    {
        let ghost all = self.entries@;
        let mut old_entries: Vec<(String, V)> = Vec::new();
        std::mem::swap(&mut old_entries, &mut self.entries);
        let mut kept: TextMap<V> = TextMap::new();
        proof {
            lemma_entries_map(all);
            assert(kept@ =~= entries_map(all.take(0)).restrict(text::views(keys@).to_set()));
        }
        for entry in it: old_entries.into_iter()
            invariant
                it.seq() == all,
                keys_distinct(all),
                kept.wf(),
                kept@ == entries_map(all.take(it.index())).restrict(text::views(keys@).to_set()),
        {
            let ghost i = it.index();
            let ghost set = text::views(keys@).to_set();
            proof {
                assert(all.take(i + 1).drop_last() =~= all.take(i));
                assert(all.take(i + 1).last() == entry);
            }
            if crate::models::contains_text(keys, entry.0.as_str()) {
                kept.insert(entry.0, entry.1);
                assert(set.contains(entry.0@));
                assert(kept@ =~= entries_map(all.take(i + 1)).restrict(set));
            } else {
                assert(!set.contains(entry.0@));
                assert(kept@ =~= entries_map(all.take(i + 1)).restrict(set));
            }
        }
        assert(all.take(all.len() as int) =~= all);
        self.entries = kept.entries;
    }

    /// The number of keys.
    pub fn len(&self) -> (n: usize)
        ensures
            n == self.entry_seq().len(),
    {
        self.entries.len()
    }

    /// The entries, in some order.
    pub closed spec fn entry_seq(&self) -> Seq<(String, V)> {
        self.entries@
    }

    /// The entries, in some order.
    pub fn entry(&self, i: usize) -> (r: (&String, &V))
        requires
            self.wf(),
            i < self.entry_seq().len(),
        ensures
            *r.0 == self.entry_seq()[i as int].0,
            *r.1 == self.entry_seq()[i as int].1,
    {
        (&self.entries[i].0, &self.entries[i].1)
    }

    /// The entries are distinct and make the map.
    pub proof fn lemma_entries(&self)
        requires
            self.wf(),
        ensures
            keys_distinct(self.entry_seq()),
            entries_map(self.entry_seq()) == self@,
    {
    }
}

} // verus!
