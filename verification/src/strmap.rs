//! A string-keyed association map holding each key at most once: the shape
//! of the process-wide tables (identity cache, rate-limit table). Entries
//! are never removed; both tables grow for the life of the process.

use vstd::prelude::*;

verus! {

/// The map denoted by an entry list; well-formed lists hold each key once.
pub open spec fn map_of<T>(entries: Seq<(String, T)>) -> Map<Seq<char>, T>
    decreases entries.len(),
{
    if entries.len() == 0 {
        Map::empty()
    } else {
        map_of(entries.drop_last()).insert(entries.last().0@, entries.last().1)
    }
}

/// No key occurs twice in the entry list.
pub open spec fn distinct_keys<T>(entries: Seq<(String, T)>) -> bool {
    forall|i: int, j: int|
        0 <= i < j < entries.len() ==> (#[trigger] entries[i].0@) != (#[trigger] entries[j].0@)
}

/// A key absent from the entry list is absent from the map.
proof fn lemma_map_of_absent<T>(entries: Seq<(String, T)>, k: Seq<char>)
    requires
        forall|i: int| 0 <= i < entries.len() ==> (#[trigger] entries[i].0@) != k,
    ensures
        !map_of(entries).contains_key(k),
    decreases entries.len(),
{
    if entries.len() > 0 {
        lemma_map_of_absent(entries.drop_last(), k);
    }
}

/// Removing the last entry keeps the remaining keys distinct.
proof fn lemma_distinct_drop_last<T>(entries: Seq<(String, T)>)
    requires
        distinct_keys(entries),
        entries.len() > 0,
    ensures
        distinct_keys(entries.drop_last()),
{
    assert forall|i: int, j: int| 0 <= i < j < entries.drop_last().len() implies (
    #[trigger] entries.drop_last()[i].0@) != (#[trigger] entries.drop_last()[j].0@) by {
        assert(entries.drop_last()[i] == entries[i]);
        assert(entries.drop_last()[j] == entries[j]);
    }
}

/// With distinct keys, each entry is present in the map with its value.
proof fn lemma_map_of_present<T>(entries: Seq<(String, T)>, i: int)
    requires
        distinct_keys(entries),
        0 <= i < entries.len(),
    ensures
        map_of(entries).contains_key(entries[i].0@),
        map_of(entries)[entries[i].0@] == entries[i].1,
    decreases entries.len(),
{
    if i < entries.len() - 1 {
        lemma_distinct_drop_last(entries);
        lemma_map_of_present(entries.drop_last(), i);
        assert(entries.last().0@ != entries[i].0@);
    }
}

/// Updating the entry that holds a key acts as a map insert for that key.
proof fn lemma_map_of_update<T>(entries: Seq<(String, T)>, i: int, k: String, v: T)
    requires
        distinct_keys(entries),
        0 <= i < entries.len(),
        entries[i].0@ == k@,
    ensures
        map_of(entries.update(i, (k, v))) == map_of(entries).insert(k@, v),
    decreases entries.len(),
{
    let updated = entries.update(i, (k, v));
    if i == entries.len() - 1 {
        assert(updated.drop_last() =~= entries.drop_last());
        assert(updated.last() == (k, v));
        assert(map_of(updated) =~= map_of(entries).insert(k@, v));
    } else {
        assert(updated.drop_last() =~= entries.drop_last().update(i, (k, v)));
        assert(updated.last() == entries.last());
        lemma_distinct_drop_last(entries);
        lemma_map_of_update(entries.drop_last(), i, k, v);
        assert(entries.last().0@ != entries[i].0@);
        assert(map_of(updated) =~= map_of(entries).insert(k@, v));
    }
}

/// An association map from strings to values, with each key present at
/// most once. Its mathematical value is the `Map` it denotes.
pub struct StrMap<T> {
    entries: Vec<(String, T)>,
}

impl<T> View for StrMap<T> {
    type V = Map<Seq<char>, T>;

    closed spec fn view(&self) -> Map<Seq<char>, T> {
        map_of(self.entries@)
    }
}

impl<T> StrMap<T> {
    /// Internal shape: no repeated keys.
    pub closed spec fn wf(&self) -> bool {
        distinct_keys(self.entries@)
    }

    /// An empty map.
    pub fn new() -> (r: StrMap<T>)
        ensures
            r.wf(),
            r@ == Map::<Seq<char>, T>::empty(),
    {
        StrMap { entries: Vec::new() }
    }

    /// Looks a key up.
    pub fn get(&self, k: &String) -> (r: Option<&T>)
        requires
            self.wf(),
        ensures
            r is Some <==> self@.contains_key(k@),
            r matches Some(v) ==> self@.contains_key(k@) && *v == self@[k@],
    {
        let n = self.entries.len();
        let mut idx: usize = 0;
        while idx < n
            invariant
                n == self.entries@.len(),
                idx <= n,
                self.wf(),
                forall|j: int| 0 <= j < idx ==> (#[trigger] self.entries@[j].0@) != k@,
            decreases n - idx,
        {
            if self.entries[idx].0 == *k {
                proof {
                    lemma_map_of_present(self.entries@, idx as int);
                }
                return Some(&self.entries[idx].1);
            }
            idx += 1;
        }
        proof {
            lemma_map_of_absent(self.entries@, k@);
        }
        None
    }

    /// Binds a key to a value, replacing any earlier binding.
    pub fn insert(&mut self, k: String, v: T)
        requires
            old(self).wf(),
        ensures
            final(self).wf(),
            final(self)@ == old(self)@.insert(k@, v),
    {
        let n = self.entries.len();
        let mut idx: usize = 0;
        while idx < n
            invariant
                n == self.entries@.len(),
                idx <= n,
                self.wf(),
                self.entries@ == old(self).entries@,
                forall|j: int| 0 <= j < idx ==> (#[trigger] self.entries@[j].0@) != k@,
            decreases n - idx,
        {
            if self.entries[idx].0 == k {
                proof {
                    assert(self.entries@[idx as int].0@ == k@);
                    lemma_map_of_update(self.entries@, idx as int, k, v);
                }
                self.entries[idx] = (k, v);
                proof {
                    assert(self.entries@ == old(self).entries@.update(idx as int, (k, v)));
                    assert forall|i: int, j: int| 0 <= i < j < self.entries@.len() implies (
                    #[trigger] self.entries@[i].0@) != (#[trigger] self.entries@[j].0@) by {
                        assert(old(self).entries@[i].0@ != old(self).entries@[j].0@);
                        assert(self.entries@[i].0@ == old(self).entries@[i].0@);
                        assert(self.entries@[j].0@ == old(self).entries@[j].0@);
                    }
                }
                return ;
            }
            idx += 1;
        }
        self.entries.push((k, v));
        proof {
            assert(self.entries@.drop_last() =~= old(self).entries@);
            assert(self@ == old(self)@.insert(k@, v));
            assert forall|i: int, j: int| 0 <= i < j < self.entries@.len() implies (
            #[trigger] self.entries@[i].0@) != (#[trigger] self.entries@[j].0@) by {
                if j < self.entries@.len() - 1 {
                    assert(old(self).entries@[i].0@ != old(self).entries@[j].0@);
                } else {
                    assert(old(self).entries@[i].0@ != k@);
                }
            }
        }
    }
}

} // verus!
