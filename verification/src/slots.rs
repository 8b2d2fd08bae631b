//! Named slots: a small map from string keys to values, kept in a vector.

use vstd::prelude::*;

verus! {

/// Values under string keys. A key stands at most once among the entries
/// that count: the last entry of a key is the one that holds.
pub struct Slots<T> {
    pub entries: Vec<(String, T)>,
}

/// The value that the entries hold under `key`: that of the last entry with
/// this key.
pub open spec fn lookup<T>(entries: Seq<(String, T)>, key: Seq<char>) -> Option<T>
    decreases entries.len(),
{
    if entries.len() == 0 {
        None
    } else if entries.last().0@ == key {
        Some(entries.last().1)
    } else {
        lookup(entries.drop_last(), key)
    }
}

/// No entry from index `from` on has the key.
pub open spec fn absent_from<T>(entries: Seq<(String, T)>, key: Seq<char>, from: int) -> bool {
    forall|i: int| from <= i < entries.len() ==> (#[trigger] entries[i]).0@ != key
}

/// What holds under a key is decided by the last entry with that key.
pub proof fn lemma_lookup_at<T>(entries: Seq<(String, T)>, key: Seq<char>, at: int)
    requires
        0 <= at < entries.len(),
        entries[at].0@ == key,
        absent_from(entries, key, at + 1),
    ensures
        lookup(entries, key) == Some(entries[at].1),
    decreases entries.len(),
{
    if at < entries.len() - 1 {
        assert(entries.last().0@ != key);
        let rest = entries.drop_last();
        assert forall|i: int| at + 1 <= i < rest.len() implies (#[trigger] rest[i]).0@ != key by {
            assert(entries[i].0@ != key);
        }
        lemma_lookup_at(rest, key, at);
    }
}

/// A key that no entry has holds nothing.
pub proof fn lemma_lookup_absent<T>(entries: Seq<(String, T)>, key: Seq<char>)
    requires
        absent_from(entries, key, 0),
    ensures
        lookup(entries, key) is None,
    decreases entries.len(),
{
    if entries.len() > 0 {
        assert(entries.last().0@ != key);
        let rest = entries.drop_last();
        assert forall|i: int| 0 <= i < rest.len() implies (#[trigger] rest[i]).0@ != key by {
            assert(entries[i].0@ != key);
        }
        lemma_lookup_absent(rest, key);
    }
}

/// Replacing the value of one entry changes what holds under its key, if it
/// is the last with that key, and nothing else.
pub proof fn lemma_lookup_update<T>(
    entries: Seq<(String, T)>,
    at: int,
    entry: (String, T),
    key: Seq<char>,
)
    requires
        0 <= at < entries.len(),
        entries[at].0@ == entry.0@,
        absent_from(entries, entry.0@, at + 1),
    ensures
        lookup(entries.update(at, entry), key) == if key == entry.0@ {
            Some(entry.1)
        } else {
            lookup(entries, key)
        },
    decreases entries.len(),
{
    let updated = entries.update(at, entry);
    if at == entries.len() - 1 {
        assert(updated.drop_last() =~= entries.drop_last());
    } else {
        assert(entries.last().0@ != entry.0@);
        assert(updated.last() == entries.last());
        let rest = entries.drop_last();
        assert(updated.drop_last() =~= rest.update(at, entry));
        assert forall|i: int| at + 1 <= i < rest.len() implies (#[trigger] rest[i]).0@
            != entry.0@ by {
            assert(entries[i].0@ != entry.0@);
        }
        lemma_lookup_update(rest, at, entry, key);
    }
}

/// Removing the one entry of a key leaves nothing under it, and everything
/// else as it is.
pub proof fn lemma_lookup_remove<T>(entries: Seq<(String, T)>, at: int, key: Seq<char>)
    requires
        0 <= at < entries.len(),
        absent_from(entries, entries[at].0@, at + 1),
        absent_from(entries.take(at), entries[at].0@, 0),
    ensures
        lookup(entries.remove(at), key) == if key == entries[at].0@ {
            None
        } else {
            lookup(entries, key)
        },
    decreases entries.len(),
{
    let removed = entries.remove(at);
    let gone = entries[at].0@;
    if at == entries.len() - 1 {
        assert(removed =~= entries.drop_last());
        assert(entries.take(at) =~= entries.drop_last());
        if key == gone {
            lemma_lookup_absent(removed, key);
        }
    } else {
        assert(entries.last().0@ != gone);
        assert(removed.last() == entries.last());
        let rest = entries.drop_last();
        assert(removed.drop_last() =~= rest.remove(at));
        assert(rest.take(at) =~= entries.take(at));
        assert forall|i: int| at + 1 <= i < rest.len() implies (#[trigger] rest[i]).0@ != gone by {
            assert(entries[i].0@ != gone);
        }
        lemma_lookup_remove(rest, at, key);
    }
}

impl<T> Slots<T> {
    /// Each key stands once.
    pub open spec fn wf(&self) -> bool {
        forall|i: int, j: int|
            0 <= i < j < self.entries@.len() ==> (#[trigger] self.entries@[i]).0@ != (
            #[trigger] self.entries@[j]).0@
    }

    /// The value under `key`, if one is held.
    pub open spec fn get(&self, key: Seq<char>) -> Option<T> {
        lookup(self.entries@, key)
    }

    /// No slots.
    pub fn new() -> (slots: Slots<T>)
        ensures
            slots.wf(),
            forall|key: Seq<char>| slots.get(key) is None,
    {
        Slots { entries: Vec::new() }
    }

    /// Where the entry of `key` stands, if it has one.
    pub fn position(&self, key: &String) -> (at: Option<usize>)
        requires
            self.wf(),
        ensures
            match at {
                Some(i) => i < self.entries@.len() && self.entries@[i as int].0@ == key@
                    && self.get(key@) == Some(self.entries@[i as int].1),
                None => self.get(key@) is None,
            },
    {
        let mut i: usize = 0;
        while i < self.entries.len()
            invariant
                0 <= i <= self.entries@.len(),
                self.wf(),
                forall|k: int| 0 <= k < i ==> (#[trigger] self.entries@[k]).0@ != key@,
            decreases self.entries.len() - i,
        {
            if self.entries[i].0 == *key {
                proof {
                    lemma_lookup_at(self.entries@, key@, i as int);
                }
                return Some(i);
            }
            i = i + 1;
        }
        proof {
            lemma_lookup_absent(self.entries@, key@);
        }
        None
    }

    /// Puts `value` under `key`, in place of what was there.
    pub fn put(&mut self, key: String, value: T)
        requires
            old(self).wf(),
        ensures
            final(self).wf(),
            forall|k: Seq<char>|
                #[trigger] final(self).get(k) == if k == key@ {
                    Some(value)
                } else {
                    old(self).get(k)
                },
    {
        match self.position(&key) {
            Some(at) => {
                let ghost before = self.entries@;
                let ghost entry = (key, value);
                self.entries.set(at, (key, value));
                proof {
                    assert forall|k: Seq<char>| #[trigger]
                        lookup(self.entries@, k) == if k == entry.0@ {
                            Some(entry.1)
                        } else {
                            lookup(before, k)
                        } by {
                        lemma_lookup_update(before, at as int, entry, k);
                    }
                }
            },
            None => {
                let ghost before = self.entries@;
                proof {
                    assert forall|i: int| 0 <= i < before.len() implies (#[trigger] before[i]).0@
                        != key@ by {
                        if before[i].0@ == key@ {
                            lemma_lookup_at_some(before, key@, i);
                        }
                    }
                }
                self.entries.push((key, value));
                assert(self.entries@.drop_last() =~= before);
            },
        }
    }

    /// Takes away what is under `key`.
    pub fn delete(&mut self, key: &String)
        requires
            old(self).wf(),
        ensures
            final(self).wf(),
            forall|k: Seq<char>|
                #[trigger] final(self).get(k) == if k == key@ {
                    None
                } else {
                    old(self).get(k)
                },
    {
        match self.position(key) {
            Some(at) => {
                let ghost before = self.entries@;
                self.entries.remove(at);
                proof {
                    assert forall|k: Seq<char>| #[trigger]
                        lookup(self.entries@, k) == if k == key@ {
                            None
                        } else {
                            lookup(before, k)
                        } by {
                        lemma_lookup_remove(before, at as int, k);
                    }
                }
            },
            None => {},
        }
    }
}

/// A key that some entry has holds something.
pub proof fn lemma_lookup_at_some<T>(entries: Seq<(String, T)>, key: Seq<char>, at: int)
    requires
        0 <= at < entries.len(),
        entries[at].0@ == key,
    ensures
        lookup(entries, key) is Some,
    decreases entries.len(),
{
    if entries.last().0@ != key {
        lemma_lookup_at_some(entries.drop_last(), key, at);
    }
}

} // verus!
