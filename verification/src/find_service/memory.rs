//! The store that lives in memory: a vector of entries, no name twice.

use vstd::prelude::*;
use crate::find_service::pattern::{check_pattern, name_matches, pattern_matches, pattern_valid, PatternError};
use crate::find_service::registration::{registration_views, Registration, RegistrationView};
use crate::find_service::store::{
    lists, matching, name_set, PublisherNotFoundError, PublisherStore,
};

verus! {

struct Entry {
    key: String,
    registration: Registration,
}

/// A registration store in memory.
pub struct MemoryStore {
    slots: Vec<Entry>,
    model: Ghost<Map<Seq<char>, RegistrationView>>,
}

/// The names of the first `n` of `names`, as a set, are those of the first
/// `n - 1` and the `n`-th.
proof fn lemma_name_set_step(names: Seq<String>, n: int)
    requires
        0 < n <= names.len(),
    ensures
        name_set(names.subrange(0, n)) == name_set(names.subrange(0, n - 1)).insert(names[n - 1]@),
{
    let more = names.subrange(0, n);
    let less = names.subrange(0, n - 1);
    assert forall|name: Seq<char>| name_set(more).contains(name) == name_set(less).insert(
        names[n - 1]@,
    ).contains(name) by {
        if name_set(more).contains(name) {
            let i = choose|i: int| 0 <= i < more.len() && #[trigger] more[i]@ == name;
            if i < n - 1 {
                assert(less[i]@ == name);
            }
        }
        if name_set(less).contains(name) {
            let i = choose|i: int| 0 <= i < less.len() && #[trigger] less[i]@ == name;
            assert(more[i]@ == name);
        }
        if name == names[n - 1]@ {
            assert(more[n - 1]@ == name);
        }
    }
    assert(name_set(more) =~= name_set(less).insert(names[n - 1]@));
}

impl MemoryStore {
    spec fn key_at(&self, i: int) -> Seq<char> {
        self.slots@[i].key@
    }

    spec fn value_at(&self, i: int) -> RegistrationView {
        self.slots@[i].registration@
    }

    spec fn keys(&self) -> Seq<Seq<char>> {
        Seq::new(self.slots@.len(), |i: int| self.key_at(i))
    }

    /// An empty store.
    pub fn new() -> (store: MemoryStore)
        ensures
            store.wf(),
            store.entries() == Map::<Seq<char>, RegistrationView>::empty(),
    {
        MemoryStore { slots: Vec::new(), model: Ghost(Map::empty()) }
    }

    /// How many registrations the store holds.
    pub fn len(&self) -> (n: usize)
        requires
            self.wf(),
        ensures
            n == self.entries().dom().len(),
            self.entries().dom().finite(),
    {
        proof {
            self.lemma_keys();
            self.keys().unique_seq_to_set();
        }
        self.slots.len()
    }

    /// The keys of the slots are the names that the store holds, each once.
    proof fn lemma_keys(&self)
        requires
            self.wf(),
        ensures
            self.keys().no_duplicates(),
            self.keys().to_set() == self.entries().dom(),
            self.entries().dom().finite(),
    {
        let keys = self.keys();
        assert forall|k: Seq<char>| keys.to_set().contains(k) == self.model@.dom().contains(k) by {
            if keys.contains(k) {
                let i = choose|i: int| 0 <= i < keys.len() && keys[i] == k;
                assert(self.key_at(i) == k);
            }
            if self.model@.contains_key(k) {
                let i = choose|i: int| 0 <= i < self.slots@.len() && self.key_at(i) == k;
                assert(keys[i] == k);
            }
        }
        assert(keys.to_set() =~= self.model@.dom());
        assert forall|i: int, j: int| 0 <= i < keys.len() && 0 <= j < keys.len() && i != j implies keys[i]
            != keys[j] by {
            assert(keys[i] == self.key_at(i));
            assert(keys[j] == self.key_at(j));
        }
        vstd::seq_lib::seq_to_set_is_finite(keys);
    }

    /// Where `name` is stored, if anywhere.
    fn position(&self, name: &String) -> (at: Option<usize>)
        requires
            self.wf(),
        ensures
            match at {
                Some(i) => i < self.slots@.len() && self.key_at(i as int) == name@,
                None => !self.entries().contains_key(name@),
            },
    {
        let mut i: usize = 0;
        while i < self.slots.len()
            invariant
                i <= self.slots@.len(),
                forall|k: int| 0 <= k < i ==> #[trigger] self.key_at(k) != name@,
            decreases self.slots@.len() - i,
        {
            if self.slots[i].key == *name {
                return Some(i);
            }
            i = i + 1;
        }
        None
    }

    /// Takes out what is stored under `name`; returns whether anything was.
    fn take(&mut self, name: &String) -> (found: bool)
        requires
            old(self).wf(),
        ensures
            final(self).wf(),
            final(self).entries() == old(self).entries().remove(name@),
            found == old(self).entries().contains_key(name@),
    {
        match self.position(name) {
            Some(i) => {
                let ghost before = self.slots@;
                self.slots.remove(i);
                self.model = Ghost(self.model@.remove(name@));
                proof {
                    assert forall|k: int| 0 <= k < self.slots@.len() implies self.model@.contains_key(
                        #[trigger] self.key_at(k),
                    ) && self.model@[self.key_at(k)] == self.value_at(k) by {
                        let from = if k < i {
                            k
                        } else {
                            k + 1
                        };
                        assert(self.slots@[k] == before[from]);
                        assert(old(self).key_at(from) == self.key_at(k));
                        assert(old(self).key_at(from) != old(self).key_at(i as int));
                    }
                    assert forall|key: Seq<char>| self.model@.contains_key(key) implies exists|
                        k: int,
                    |
                        0 <= k < self.slots@.len() && #[trigger] self.key_at(k) == key by {
                        let from = choose|from: int|
                            0 <= from < before.len() && #[trigger] old(self).key_at(from) == key;
                        let k = if from < i {
                            from
                        } else {
                            from - 1
                        };
                        assert(self.slots@[k] == before[from]);
                        assert(self.key_at(k) == key);
                    }
                    assert forall|a: int, b: int| 0 <= a < b < self.slots@.len() implies #[trigger] self.key_at(
                        a,
                    ) != #[trigger] self.key_at(b) by {
                        let fa = if a < i {
                            a
                        } else {
                            a + 1
                        };
                        let fb = if b < i {
                            b
                        } else {
                            b + 1
                        };
                        assert(self.slots@[a] == before[fa]);
                        assert(self.slots@[b] == before[fb]);
                        assert(old(self).key_at(fa) != old(self).key_at(fb));
                    }
                }
                true
            },
            None => {
                assert(self.model@.remove(name@) =~= self.model@);
                false
            },
        }
    }
}

impl PublisherStore for MemoryStore {
    /// Every slot is an entry, every entry has its slot, and no two slots
    /// have one name.
    closed spec fn wf(&self) -> bool {
        &&& forall|i: int|
            0 <= i < self.slots@.len() ==> self.model@.contains_key(#[trigger] self.key_at(i))
                && self.model@[self.key_at(i)] == self.value_at(i)
        &&& forall|key: Seq<char>|
            self.model@.contains_key(key) ==> exists|i: int|
                0 <= i < self.slots@.len() && #[trigger] self.key_at(i) == key
        &&& forall|i: int, j: int|
            0 <= i < j < self.slots@.len() ==> #[trigger] self.key_at(i) != #[trigger] self.key_at(
                j,
            )
    }

    closed spec fn entries(&self) -> Map<Seq<char>, RegistrationView> {
        self.model@
    }

    fn insert_publisher(&mut self, publisher_name: String, registration: Registration) {
        let ghost name = publisher_name@;
        let ghost value = registration@;
        let ghost before = self.slots@;
        match self.position(&publisher_name) {
            Some(i) => {
                self.slots.set(i, Entry { key: publisher_name, registration });
                self.model = Ghost(self.model@.insert(name, value));
                proof {
                    assert forall|k: int| 0 <= k < self.slots@.len() implies self.model@.contains_key(
                        #[trigger] self.key_at(k),
                    ) && self.model@[self.key_at(k)] == self.value_at(k) by {
                        if k != i {
                            assert(self.slots@[k] == before[k]);
                            assert(old(self).key_at(k) == self.key_at(k));
                            assert(old(self).key_at(k) != old(self).key_at(i as int));
                        }
                    }
                    assert forall|key: Seq<char>| self.model@.contains_key(key) implies exists|
                        k: int,
                    |
                        0 <= k < self.slots@.len() && #[trigger] self.key_at(k) == key by {
                        if key == name {
                            assert(self.key_at(i as int) == key);
                        } else {
                            let k = choose|k: int|
                                0 <= k < before.len() && #[trigger] old(self).key_at(k) == key;
                            assert(self.slots@[k] == before[k]);
                            assert(self.key_at(k) == key);
                        }
                    }
                    assert forall|a: int, b: int| 0 <= a < b < self.slots@.len() implies #[trigger] self.key_at(
                        a,
                    ) != #[trigger] self.key_at(b) by {
                        assert(self.key_at(a) == old(self).key_at(a));
                        assert(self.key_at(b) == old(self).key_at(b));
                    }
                }
            },
            None => {
                self.slots.push(Entry { key: publisher_name, registration });
                self.model = Ghost(self.model@.insert(name, value));
                proof {
                    let last = before.len() as int;
                    assert forall|k: int| 0 <= k < self.slots@.len() implies self.model@.contains_key(
                        #[trigger] self.key_at(k),
                    ) && self.model@[self.key_at(k)] == self.value_at(k) by {
                        if k != last {
                            assert(self.slots@[k] == before[k]);
                            assert(old(self).key_at(k) == self.key_at(k));
                        }
                    }
                    assert forall|key: Seq<char>| self.model@.contains_key(key) implies exists|
                        k: int,
                    |
                        0 <= k < self.slots@.len() && #[trigger] self.key_at(k) == key by {
                        if key == name {
                            assert(self.key_at(last) == key);
                        } else {
                            let k = choose|k: int|
                                0 <= k < before.len() && #[trigger] old(self).key_at(k) == key;
                            assert(self.slots@[k] == before[k]);
                            assert(self.key_at(k) == key);
                        }
                    }
                    assert forall|a: int, b: int| 0 <= a < b < self.slots@.len() implies #[trigger] self.key_at(
                        a,
                    ) != #[trigger] self.key_at(b) by {
                        assert(self.key_at(a) == old(self).key_at(a));
                        if b != last {
                            assert(self.key_at(b) == old(self).key_at(b));
                        }
                    }
                }
            },
        }
    }

    fn remove_publisher(&mut self, publisher_name: String) -> (r: Result<
        (),
        PublisherNotFoundError,
    >) {
        if self.take(&publisher_name) {
            Ok(())
        } else {
            Err(PublisherNotFoundError)
        }
    }

    fn remove_publishers(&mut self, publisher_names: Vec<String>) -> (r: Result<
        (),
        PublisherNotFoundError,
    >) {
        let ghost names = publisher_names@;
        let mut all_found: bool = true;
        let mut i: usize = 0;
        while i < publisher_names.len()
            invariant
                self.wf(),
                names == publisher_names@,
                i <= names.len(),
                self.entries() == old(self).entries(),
                all_found == (forall|k: int|
                    0 <= k < i ==> old(self).entries().contains_key(#[trigger] names[k]@)),
            decreases names.len() - i,
        {
            if self.position(&publisher_names[i]).is_none() {
                all_found = false;
            }
            i = i + 1;
        }
        let mut i: usize = 0;
        assert(old(self).entries().remove_keys(name_set(names.subrange(0, 0))) =~= old(
            self,
        ).entries());
        while i < publisher_names.len()
            invariant
                self.wf(),
                names == publisher_names@,
                i <= names.len(),
                self.entries() == old(self).entries().remove_keys(
                    name_set(names.subrange(0, i as int)),
                ),
            decreases names.len() - i,
        {
            self.take(&publisher_names[i]);
            i = i + 1;
            proof {
                lemma_name_set_step(names, i as int);
                assert(old(self).entries().remove_keys(
                    name_set(names.subrange(0, i - 1)),
                ).remove(names[i - 1]@) =~= old(self).entries().remove_keys(
                    name_set(names.subrange(0, i as int)),
                ));
            }
        }
        assert(names.subrange(0, i as int) =~= names);
        if all_found {
            Ok(())
        } else {
            Err(PublisherNotFoundError)
        }
    }

    fn get_publishers(&self) -> (list: Vec<Registration>) {
        let mut list: Vec<Registration> = Vec::new();
        let mut i: usize = 0;
        while i < self.slots.len()
            invariant
                i <= self.slots@.len(),
                list@.len() == i,
                forall|k: int| 0 <= k < i ==> (#[trigger] list@[k])@ == self.value_at(k),
            decreases self.slots@.len() - i,
        {
            list.push(self.slots[i].registration.clone());
            i = i + 1;
        }
        proof {
            self.lemma_keys();
            let keys = self.keys();
            let views = registration_views(list@);
            assert forall|k: int| 0 <= k < keys.len() implies #[trigger] views[k]
                == self.entries()[keys[k]] by {
                assert(views[k] == list@[k]@);
                assert(keys[k] == self.key_at(k));
            }
            assert(lists(self.entries(), keys, views));
        }
        list
    }

    fn find_publisher(&self, search_str: &String) -> (r: Result<Vec<Registration>, PatternError>) {
        let pattern: &str = search_str.as_str();
        match check_pattern(pattern) {
            Err(e) => {
                return Err(e);
            },
            Ok(()) => {},
        }
        let ghost wanted = matching(self.entries(), search_str@);
        let ghost mut picked: Seq<int> = Seq::empty();
        let mut list: Vec<Registration> = Vec::new();
        let mut i: usize = 0;
        while i < self.slots.len()
            invariant
                self.wf(),
                pattern@ == search_str@,
                pattern_valid(search_str@),
                i <= self.slots@.len(),
                list@.len() == picked.len(),
                forall|k: int|
                    0 <= k < picked.len() ==> 0 <= #[trigger] picked[k] < i && list@[k]@
                        == self.value_at(picked[k]) && pattern_matches(
                        search_str@,
                        self.value_at(picked[k]).publisher.name,
                    ),
                forall|a: int, b: int|
                    0 <= a < b < picked.len() ==> #[trigger] picked[a] < #[trigger] picked[b],
                forall|t: int|
                    0 <= t < i && pattern_matches(
                        search_str@,
                        (#[trigger] self.value_at(t)).publisher.name,
                    ) ==> picked.contains(t),
            decreases self.slots@.len() - i,
        {
            let found = name_matches(pattern, self.slots[i].registration.publisher.name.as_str());
            match found {
                Ok(true) => {
                    list.push(self.slots[i].registration.clone());
                    proof {
                        let ghost earlier = picked;
                        picked = picked.push(i as int);
                        assert forall|t: int|
                            0 <= t < i + 1 && pattern_matches(
                                search_str@,
                                (#[trigger] self.value_at(t)).publisher.name,
                            ) implies picked.contains(t) by {
                            if t < i {
                                let k = choose|k: int| 0 <= k < earlier.len() && earlier[k] == t;
                                assert(picked[k] == t);
                            } else {
                                assert(picked[earlier.len() as int] == t);
                            }
                        }
                    }
                },
                _ => {},
            }
            i = i + 1;
        }
        proof {
            let keys = Seq::new(picked.len(), |k: int| self.key_at(picked[k]));
            let views = registration_views(list@);
            assert forall|a: int, b: int| 0 <= a < keys.len() && 0 <= b < keys.len() && a
                != b implies keys[a] != keys[b] by {
                if a < b {
                    assert(picked[a] < picked[b]);
                } else {
                    assert(picked[b] < picked[a]);
                }
                assert(self.key_at(picked[a]) != self.key_at(picked[b]));
            }
            assert forall|key: Seq<char>| keys.to_set().contains(key) == wanted.dom().contains(
                key,
            ) by {
                if keys.contains(key) {
                    let k = choose|k: int| 0 <= k < keys.len() && keys[k] == key;
                    assert(self.key_at(picked[k]) == key);
                    assert(self.entries()[key] == self.value_at(picked[k]));
                }
                if wanted.dom().contains(key) {
                    let t = choose|t: int| 0 <= t < self.slots@.len() && #[trigger] self.key_at(t) == key;
                    assert(self.entries()[key] == self.value_at(t));
                    assert(picked.contains(t));
                    let k = choose|k: int| 0 <= k < picked.len() && picked[k] == t;
                    assert(keys[k] == key);
                }
            }
            assert(keys.to_set() =~= wanted.dom());
            assert forall|k: int| 0 <= k < keys.len() implies #[trigger] views[k]
                == wanted[keys[k]] by {
                assert(views[k] == list@[k]@);
                assert(keys[k] == self.key_at(picked[k]));
                assert(self.entries()[keys[k]] == self.value_at(picked[k]));
            }
            assert(lists(wanted, keys, views));
        }
        Ok(list)
    }
}

} // verus!
