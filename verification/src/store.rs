//! The application's persistent key-value store, as the library sees it:
//! keys and their values as JSON text, usable once the application is up.
use vstd::prelude::*;
use crate::text::{owned, str_eq};
use crate::hotkey::views;

verus! {

/// The store's entries and whether the application has made it available.
pub struct AppStore {
    ready: bool,
    entries: Vec<(String, String)>,
}

/// The keys of the entries, in order.
pub open spec fn entry_keys(entries: Seq<(String, String)>) -> Seq<Seq<char>> {
    entries.map_values(|e: (String, String)| e.0@)
}

/// The value of the last entry under `k` (meaningful when there is one).
pub open spec fn value_for(entries: Seq<(String, String)>, k: Seq<char>) -> Seq<char>
    decreases entries.len(),
{
    if entries.len() == 0 {
        Seq::empty()
    } else if entries.last().0@ == k {
        entries.last().1@
    } else {
        value_for(entries.drop_last(), k)
    }
}

proof fn lemma_value_at(e: Seq<(String, String)>, n: int)
    requires
        entry_keys(e).no_duplicates(),
        0 <= n < e.len(),
    ensures
        value_for(e, e[n].0@) == e[n].1@,
    decreases e.len(),
{
    if n < e.len() - 1 {
        assert(entry_keys(e)[n] != entry_keys(e)[e.len() - 1]);
        let d = e.drop_last();
        assert(entry_keys(d) =~= entry_keys(e).drop_last());
        assert(entry_keys(d).no_duplicates()) by {
            assert forall|a: int, b: int|
                0 <= a < entry_keys(d).len() && 0 <= b < entry_keys(d).len() && a != b implies entry_keys(d)[a]
                != entry_keys(d)[b] by {
                assert(entry_keys(d)[a] == entry_keys(e)[a]);
                assert(entry_keys(d)[b] == entry_keys(e)[b]);
            }
        }
        assert(d[n] == e[n]);
        lemma_value_at(d, n);
    }
}

/// The error when the application has not made the store available.
pub open spec fn not_ready_message() -> Seq<char> {
    "AppHandle 未初始化"@
}

impl AppStore {
    /// Whether the store is available.
    pub closed spec fn is_ready(&self) -> bool {
        self.ready
    }

    /// The values, by key.
    pub closed spec fn contents(&self) -> Map<Seq<char>, Seq<char>> {
        Map::new(
            |k: Seq<char>| entry_keys(self.entries@).contains(k),
            |k: Seq<char>| value_for(self.entries@, k),
        )
    }

    /// The store's invariant: one entry per key.
    pub closed spec fn wf(&self) -> bool {
        entry_keys(self.entries@).no_duplicates()
    }

    /// A store that is not available yet.
    pub fn new() -> (r: AppStore)
        ensures
            r.wf(),
            !r.is_ready(),
            r.contents() == Map::<Seq<char>, Seq<char>>::empty(),
    {
        let r = AppStore { ready: false, entries: Vec::new() };
        assert(r.contents() =~= Map::<Seq<char>, Seq<char>>::empty());
        r
    }

    /// The application made the store available.
    pub fn init(&mut self)
        ensures
            final(self).is_ready(),
            final(self).contents() == old(self).contents(),
            final(self).wf() == old(self).wf(),
    {
        self.ready = true;
    }

    fn index_of(&self, key: &str) -> (r: Option<usize>)
        ensures
            match r {
                Some(i) => i < self.entries.len() && self.entries@[i as int].0@ == key@,
                None => !entry_keys(self.entries@).contains(key@),
            },
    {
        let mut i: usize = 0;
        while i < self.entries.len()
            invariant
                i <= self.entries.len(),
                forall|j: int| 0 <= j < i ==> self.entries@[j].0@ != key@,
            decreases self.entries.len() - i,
        {
            if str_eq(self.entries[i].0.as_str(), key) {
                return Some(i);
            }
            i = i + 1;
        }
        assert forall|j: int| 0 <= j < entry_keys(self.entries@).len() implies entry_keys(
            self.entries@,
        )[j] != key@ by {
            assert(self.entries@[j].0@ != key@);
        }
        None
    }

    proof fn lemma_value_at(&self, n: int)
        requires
            self.wf(),
            0 <= n < self.entries@.len(),
        ensures
            self.contents().contains_key(self.entries@[n].0@),
            self.contents()[self.entries@[n].0@] == self.entries@[n].1@,
    {
        assert(entry_keys(self.entries@)[n] == self.entries@[n].0@);
        lemma_value_at(self.entries@, n);
    }

    /// The value under a key, as JSON text; none when the store is not
    /// available or has no such key.
    pub fn get(&self, key: &str) -> (r: Option<String>)
        requires
            self.wf(),
        ensures
            match r {
                Some(v) => self.is_ready() && self.contents().contains_key(key@) && v@
                    == self.contents()[key@],
                None => !self.is_ready() || !self.contents().contains_key(key@),
            },
    {
        if !self.ready {
            return None;
        }
        match self.index_of(key) {
            Some(i) => {
                proof {
                    self.lemma_value_at(i as int);
                }
                Some(self.entries[i].1.clone())
            },
            None => None,
        }
    }

    /// Stores a value (as JSON text) under a key, in place of any earlier one.
    pub fn set(&mut self, key: &str, value: &str) -> (r: Result<(), String>)
        requires
            old(self).wf(),
        ensures
            final(self).wf(),
            final(self).is_ready() == old(self).is_ready(),
            !old(self).is_ready() ==> (r matches Err(m) && m@ == not_ready_message())
                && final(self).contents() == old(self).contents(),
            old(self).is_ready() ==> r is Ok && final(self).contents() == old(self).contents().insert(
                key@,
                value@,
            ),
    {
        if !self.ready {
            return Err(owned("AppHandle 未初始化"));
        }
        let ghost before = self.entries@;
        match self.index_of(key) {
            Some(i) => {
                self.entries.set(i, (owned(key), owned(value)));
                assert(entry_keys(self.entries@) =~= entry_keys(before));
                assert(entry_keys(before)[i as int] == key@);
                assert(self.contents() =~= old(self).contents().insert(key@, value@)) by {
                    assert forall|k: Seq<char>| #[trigger] self.contents().contains_key(k) implies self.contents()[k]
                        == old(self).contents().insert(key@, value@)[k] by {
                        let j = choose|j: int| 0 <= j < entry_keys(self.entries@).len() && entry_keys(self.entries@)[j] == k;
                        self.lemma_value_at(j);
                        if j != i {
                            old(self).lemma_value_at(j);
                            assert(entry_keys(before)[j] != entry_keys(before)[i as int]);
                            assert(self.entries@[j] == before[j]);
                        }
                    }
                }
            },
            None => {
                self.entries.push((owned(key), owned(value)));
                assert(entry_keys(self.entries@) =~= entry_keys(before).push(key@));
                assert(self.contents() =~= old(self).contents().insert(key@, value@)) by {
                    assert forall|k: Seq<char>| #[trigger] self.contents().contains_key(k) implies self.contents()[k]
                        == old(self).contents().insert(key@, value@)[k] by {
                        let j = choose|j: int| 0 <= j < entry_keys(self.entries@).len() && entry_keys(self.entries@)[j] == k;
                        self.lemma_value_at(j);
                        if j < before.len() {
                            old(self).lemma_value_at(j);
                        }
                    }
                    assert forall|k: Seq<char>| #[trigger] old(self).contents().insert(key@, value@).contains_key(k)
                        implies self.contents().contains_key(k) by {
                        if k != key@ {
                            let j = choose|j: int| 0 <= j < before.len() && entry_keys(before)[j] == k;
                            assert(entry_keys(self.entries@)[j] == k);
                        } else {
                            assert(entry_keys(self.entries@)[before.len() as int] == k);
                        }
                    }
                }
            },
        }
        Ok(())
    }

    /// Removes a key and its value.
    pub fn delete(&mut self, key: &str) -> (r: Result<(), String>)
        requires
            old(self).wf(),
        ensures
            final(self).wf(),
            final(self).is_ready() == old(self).is_ready(),
            !old(self).is_ready() ==> (r matches Err(m) && m@ == not_ready_message())
                && final(self).contents() == old(self).contents(),
            old(self).is_ready() ==> r is Ok && final(self).contents() == old(self).contents().remove(
                key@,
            ),
    {
        if !self.ready {
            return Err(owned("AppHandle 未初始化"));
        }
        let ghost before = self.entries@;
        match self.index_of(key) {
            Some(i) => {
                self.entries.remove(i);
                assert(entry_keys(self.entries@) =~= entry_keys(before).remove(i as int));
                assert(self.contents() =~= old(self).contents().remove(key@)) by {
                    assert forall|k: Seq<char>| #[trigger] self.contents().contains_key(k) implies self.contents()[k]
                        == old(self).contents()[k] && k != key@ by {
                        let j = choose|j: int| 0 <= j < entry_keys(self.entries@).len() && entry_keys(self.entries@)[j] == k;
                        self.lemma_value_at(j);
                        if j < i {
                            old(self).lemma_value_at(j);
                            assert(entry_keys(before)[j] != entry_keys(before)[i as int]);
                        } else {
                            old(self).lemma_value_at(j + 1);
                            assert(entry_keys(before)[j + 1] != entry_keys(before)[i as int]);
                        }
                    }
                    assert forall|k: Seq<char>| #[trigger] old(self).contents().remove(key@).contains_key(k)
                        implies self.contents().contains_key(k) by {
                        let j = choose|j: int| 0 <= j < before.len() && entry_keys(before)[j] == k;
                        if j < i {
                            assert(entry_keys(self.entries@)[j] == k);
                        } else {
                            assert(j != i);
                            assert(entry_keys(self.entries@)[j - 1] == k);
                        }
                    }
                }
            },
            None => {
                assert(self.contents() =~= old(self).contents().remove(key@));
            },
        }
        Ok(())
    }

    /// Whether the store holds a key; `false` when it is not available.
    pub fn has(&self, key: &str) -> (r: bool)
        ensures
            r == (self.is_ready() && self.contents().contains_key(key@)),
    {
        if !self.ready {
            return false;
        }
        match self.index_of(key) {
            Some(i) => {
                assert(entry_keys(self.entries@)[i as int] == key@);
                true
            },
            None => false,
        }
    }

    /// Every key, once each; none when the store is not available.
    pub fn keys(&self) -> (r: Vec<String>)
        requires
            self.wf(),
        ensures
            views(r@).no_duplicates(),
            forall|k: Seq<char>| views(r@).contains(k) <==> (self.is_ready() && self.contents().contains_key(k)),
    {
        let mut out: Vec<String> = Vec::new();
        if !self.ready {
            return out;
        }
        let mut i: usize = 0;
        while i < self.entries.len()
            invariant
                i <= self.entries.len(),
                self.wf(),
                views(out@) == entry_keys(self.entries@).take(i as int),
            decreases self.entries.len() - i,
        {
            let ghost before = views(out@);
            let k = self.entries[i].0.clone();
            assert(k@ == entry_keys(self.entries@)[i as int]);
            out.push(k);
            assert(views(out@) =~= before.push(k@));
            assert(entry_keys(self.entries@).take(i + 1) =~= entry_keys(self.entries@).take(i as int).push(entry_keys(self.entries@)[i as int]));
            i = i + 1;
        }
        assert(entry_keys(self.entries@).take(i as int) =~= entry_keys(self.entries@));
        out
    }
}

// ---------------------------------------------------------------------------
// Laws.

/// A read gives back what the last write under the key wrote.
pub proof fn read_after_write(contents: Map<Seq<char>, Seq<char>>, key: Seq<char>, value: Seq<char>)
    ensures
        contents.insert(key, value).contains_key(key),
        contents.insert(key, value)[key] == value,
{
}

/// A write under one key leaves the other keys as they were.
pub proof fn write_leaves_other_keys(
    contents: Map<Seq<char>, Seq<char>>,
    key: Seq<char>,
    value: Seq<char>,
    other: Seq<char>,
)
    requires
        other != key,
    ensures
        contents.insert(key, value).contains_key(other) == contents.contains_key(other),
        contents.contains_key(other) ==> contents.insert(key, value)[other] == contents[other],
{
}

/// After a deletion the key is gone, and the other keys stay.
pub proof fn delete_removes_only_the_key(
    contents: Map<Seq<char>, Seq<char>>,
    key: Seq<char>,
    other: Seq<char>,
)
    requires
        other != key,
    ensures
        !contents.remove(key).contains_key(key),
        contents.remove(key).contains_key(other) == contents.contains_key(other),
{
}

} // verus!
