//! The registry service: registration with a lease, status, search, and
//! the sweep that takes out what has expired.

use vstd::prelude::*;
use crate::descriptor::{PublisherDesc, PublisherDescView};
use crate::find_service::pattern::{pattern_matches, pattern_valid, PatternError};
use crate::find_service::registration::{
    leased, registration_views, Interval, Registration, RegistrationView, Timestamp,
};
use crate::find_service::store::{lists, matching, name_set, snapshot_of, PublisherStore};

verus! {

/// A request lacks a field that it has to have.
#[derive(Clone, Copy, Debug, PartialEq, Eq)]
pub struct MissingFieldError {
    pub container: &'static str,
    pub field: &'static str,
}

/// Why a request to the registry failed.
#[derive(Clone, Copy, Debug, PartialEq, Eq)]
pub enum RegistryError {
    /// The request is malformed.
    MissingField(MissingFieldError),
    /// The end of the lease is beyond the last time that can be told.
    TimeConversion,
}

/// What the registry is made from.
pub struct MeetupServerOptions<T: PublisherStore> {
    /// The lease granted with each registration.
    pub publisher_timeout: Interval,
    /// The time from one sweep to the next.
    pub publisher_scan_interval: Interval,
    pub publisher_store: T,
}

/// The registry service over a store of registrations.
pub struct MeetupServer<T: PublisherStore> {
    publisher_timeout: Interval,
    publisher_scan_interval: Interval,
    publisher_store: T,
}

/// Every entry is stored under the name of its publisher.
pub open spec fn keyed_by_name(entries: Map<Seq<char>, RegistrationView>) -> bool {
    forall|key: Seq<char>| entries.contains_key(key) ==> (#[trigger] entries[key]).publisher.name == key
}

/// The entries after `publisher` registered at `now` for a lease of
/// `lease`: its registration stands under its name, in place of any
/// earlier one.
pub open spec fn registered(
    entries: Map<Seq<char>, RegistrationView>,
    publisher: PublisherDescView,
    now: Timestamp,
    lease: Interval,
) -> Map<Seq<char>, RegistrationView> {
    entries.insert(
        publisher.name,
        leased(publisher, now, Timestamp { nanos: (now.nanos + lease.nanos) as u64 }),
    )
}

/// What a search for `pattern` finds among `entries`: the entries whose
/// publisher's name matches, and nothing where the pattern is no regular
/// expression.
pub open spec fn found(entries: Map<Seq<char>, RegistrationView>, pattern: Seq<char>) -> Map<
    Seq<char>,
    RegistrationView,
> {
    if pattern_valid(pattern) {
        matching(entries, pattern)
    } else {
        Map::empty()
    }
}

/// The entries whose lease is still running at `now`.
pub open spec fn surviving(entries: Map<Seq<char>, RegistrationView>, now: Timestamp) -> Map<
    Seq<char>,
    RegistrationView,
> {
    entries.restrict(Set::new(|key: Seq<char>| entries.contains_key(key) && entries[key].live_at(now)))
}

/// The entries whose lease has run out at `now`.
pub open spec fn expired(entries: Map<Seq<char>, RegistrationView>, now: Timestamp) -> Map<
    Seq<char>,
    RegistrationView,
> {
    entries.restrict(
        Set::new(|key: Seq<char>| entries.contains_key(key) && !entries[key].live_at(now)),
    )
}

/// A list of the values of `entries` that is cut down to the places in
/// `picked` is a list of the values of `part`, where `part` holds just the
/// entries of `entries` that stand at those places.
proof fn lemma_picked_lists(
    entries: Map<Seq<char>, RegistrationView>,
    keys: Seq<Seq<char>>,
    list: Seq<RegistrationView>,
    picked: Seq<int>,
    part: Map<Seq<char>, RegistrationView>,
)
    requires
        lists(entries, keys, list),
        forall|k: int| 0 <= k < picked.len() ==> 0 <= #[trigger] picked[k] < list.len(),
        forall|a: int, b: int|
            0 <= a < b < picked.len() ==> #[trigger] picked[a] < #[trigger] picked[b],
        forall|key: Seq<char>| #[trigger]
            part.contains_key(key) ==> entries.contains_key(key) && part[key] == entries[key],
        forall|t: int|
            0 <= t < keys.len() ==> (part.contains_key(#[trigger] keys[t]) <==> picked.contains(t)),
    ensures
        lists(
            part,
            Seq::new(picked.len(), |k: int| keys[picked[k]]),
            Seq::new(picked.len(), |k: int| list[picked[k]]),
        ),
{
    let part_keys = Seq::new(picked.len(), |k: int| keys[picked[k]]);
    let part_list = Seq::new(picked.len(), |k: int| list[picked[k]]);
    assert forall|a: int, b: int| 0 <= a < part_keys.len() && 0 <= b < part_keys.len() && a
        != b implies part_keys[a] != part_keys[b] by {
        if a < b {
            assert(picked[a] < picked[b]);
        } else {
            assert(picked[b] < picked[a]);
        }
    }
    assert forall|key: Seq<char>| part_keys.to_set().contains(key) == part.dom().contains(key) by {
        if part_keys.contains(key) {
            let k = choose|k: int| 0 <= k < part_keys.len() && part_keys[k] == key;
            assert(picked.contains(picked[k]));
            assert(part.contains_key(keys[picked[k]]));
        }
        if part.contains_key(key) {
            assert(keys.to_set().contains(key));
            let t = choose|t: int| 0 <= t < keys.len() && keys[t] == key;
            assert(picked.contains(t));
            let k = choose|k: int| 0 <= k < picked.len() && picked[k] == t;
            assert(part_keys[k] == key);
        }
    }
    assert(part_keys.to_set() =~= part.dom());
    assert forall|k: int| 0 <= k < part_keys.len() implies #[trigger] part_list[k]
        == part[part_keys[k]] by {
        assert(picked.contains(picked[k]));
        assert(part.contains_key(keys[picked[k]]));
        assert(list[picked[k]] == entries[keys[picked[k]]]);
    }
}

impl<T: PublisherStore> MeetupServer<T> {
    /// The store is well formed and keyed by publisher name, and lease and
    /// sweep interval are positive.
    pub closed spec fn wf(&self) -> bool {
        &&& self.publisher_store.wf()
        &&& keyed_by_name(self.publisher_store.entries())
        &&& self.publisher_timeout.nanos > 0
        &&& self.publisher_scan_interval.nanos > 0
    }

    /// The registrations that the registry holds, by publisher name.
    pub closed spec fn entries(&self) -> Map<Seq<char>, RegistrationView> {
        self.publisher_store.entries()
    }

    /// The lease granted with each registration.
    pub closed spec fn lease(&self) -> Interval {
        self.publisher_timeout
    }

    /// The time from one sweep to the next.
    pub closed spec fn sweep_interval(&self) -> Interval {
        self.publisher_scan_interval
    }

    /// A registry over the store of `options`, with its lease and sweep
    /// interval, both of which have to be positive.
    pub fn new(options: MeetupServerOptions<T>) -> (server: MeetupServer<T>)
        requires
            options.publisher_timeout.nanos > 0,
            options.publisher_scan_interval.nanos > 0,
            options.publisher_store.wf(),
            keyed_by_name(options.publisher_store.entries()),
        ensures
            server.wf(),
            server.entries() == options.publisher_store.entries(),
            server.lease() == options.publisher_timeout,
            server.sweep_interval() == options.publisher_scan_interval,
    {
        MeetupServer {
            publisher_timeout: options.publisher_timeout,
            publisher_store: options.publisher_store,
            publisher_scan_interval: options.publisher_scan_interval,
        }
    }

    pub fn publisher_timeout(&self) -> (lease: Interval)
        ensures
            lease == self.lease(),
    {
        self.publisher_timeout
    }

    pub fn publisher_scan_interval(&self) -> (interval: Interval)
        ensures
            interval == self.sweep_interval(),
    {
        self.publisher_scan_interval
    }

    /// The number of registrations held.
    pub fn server_status(&self) -> (count: u64)
        requires
            self.wf(),
        ensures
            count == self.entries().dom().len(),
            self.entries().dom().finite(),
    {
        let list = self.publisher_store.get_publishers();
        proof {
            let views = registration_views(list@);
            let keys = choose|keys: Seq<Seq<char>>| #[trigger] lists(self.entries(), keys, views);
            keys.unique_seq_to_set();
            vstd::seq_lib::seq_to_set_is_finite(keys);
        }
        list.len() as u64
    }

    /// Registers the publisher of a request at time `now`: it is stored
    /// under its name with a lease that runs for the registry's lease
    /// time from `now`, in place of any earlier registration of that name,
    /// and the lease time is returned. Fails, and changes nothing, where
    /// the lease would end beyond the last time that can be told, and
    /// else where the request has no descriptor.
    pub fn publisher_register(&mut self, desc: Option<PublisherDesc>, now: Timestamp) -> (r: Result<
        Interval,
        RegistryError,
    >)
        requires
            old(self).wf(),
        ensures
            final(self).wf(),
            final(self).lease() == old(self).lease(),
            final(self).sweep_interval() == old(self).sweep_interval(),
            now.nanos + old(self).lease().nanos > u64::MAX ==> {
                &&& r == Err::<Interval, RegistryError>(RegistryError::TimeConversion)
                &&& final(self).entries() == old(self).entries()
            },
            now.nanos + old(self).lease().nanos <= u64::MAX && desc is None ==> {
                &&& r matches Err(RegistryError::MissingField(e))
                &&& e.container@ == "Registration"@
                &&& e.field@ == "desc"@
                &&& final(self).entries() == old(self).entries()
            },
            now.nanos + old(self).lease().nanos <= u64::MAX && desc is Some ==> {
                &&& r == Ok::<Interval, RegistryError>(old(self).lease())
                &&& final(self).entries() == registered(
                    old(self).entries(),
                    desc->0@,
                    now,
                    old(self).lease(),
                )
            },
    {
        let expiration: Timestamp = match now.checked_add(self.publisher_timeout) {
            Some(expiration) => expiration,
            None => {
                return Err(RegistryError::TimeConversion);
            },
        };
        let desc: PublisherDesc = match desc {
            Some(desc) => desc,
            None => {
                return Err(
                    RegistryError::MissingField(
                        MissingFieldError { container: "Registration", field: "desc" },
                    ),
                );
            },
        };
        let name: String = desc.name.clone();
        let registration = Registration::new(desc, now, expiration);
        self.publisher_store.insert_publisher(name, registration);
        Ok(self.publisher_timeout)
    }

    /// The registrations whose publisher's name matches `name_regex`, read
    /// as a regular expression; fails exactly when it is none.
    pub fn find_publishers(&self, name_regex: &String) -> (r: Result<
        Vec<Registration>,
        PatternError,
    >)
        requires
            self.wf(),
        ensures
            r is Ok == pattern_valid(name_regex@),
            r matches Ok(list) ==> snapshot_of(
                found(self.entries(), name_regex@),
                registration_views(list@),
            ),
    {
        self.publisher_store.find_publisher(name_regex)
    }

    /// The registrations whose publisher's name matches `name_regex`, read
    /// as a regular expression; the empty list where it is none.
    pub fn get_publishers(&self, name_regex: &String) -> (list: Vec<Registration>)
        requires
            self.wf(),
        ensures
            snapshot_of(found(self.entries(), name_regex@), registration_views(list@)),
            !pattern_valid(name_regex@) ==> list@.len() == 0,
    {
        match self.publisher_store.find_publisher(name_regex) {
            Ok(list) => list,
            Err(_) => {
                let list: Vec<Registration> = Vec::new();
                proof {
                    let none = Seq::<Seq<char>>::empty();
                    let views = registration_views(list@);
                    assert(none.to_set() =~= Map::<Seq<char>, RegistrationView>::empty().dom());
                    assert(lists(Map::<Seq<char>, RegistrationView>::empty(), none, views));
                }
                list
            },
        }
    }

    /// One sweep at time `now`: every registration whose lease has run out
    /// by then, or that does not say when it runs out, leaves the store;
    /// the others stay as they are. Returns what was taken out.
    pub fn remove_expired_publishers(&mut self, now: Timestamp) -> (removed: Vec<Registration>)
        requires
            old(self).wf(),
        ensures
            final(self).wf(),
            final(self).lease() == old(self).lease(),
            final(self).sweep_interval() == old(self).sweep_interval(),
            final(self).entries() == surviving(old(self).entries(), now),
            snapshot_of(expired(old(self).entries(), now), registration_views(removed@)),
    {
        let ghost entries = self.entries();
        let list = self.publisher_store.get_publishers();
        let ghost views = registration_views(list@);
        let ghost keys = choose|keys: Seq<Seq<char>>| #[trigger] lists(entries, keys, views);
        let ghost mut picked: Seq<int> = Seq::empty();
        let mut names: Vec<String> = Vec::new();
        let mut removed: Vec<Registration> = Vec::new();
        let mut i: usize = 0;
        while i < list.len()
            invariant
                i <= list@.len(),
                views == registration_views(list@),
                names@.len() == picked.len(),
                removed@.len() == picked.len(),
                forall|k: int|
                    0 <= k < picked.len() ==> 0 <= #[trigger] picked[k] < i && names@[k]@
                        == views[picked[k]].publisher.name && removed@[k]@ == views[picked[k]]
                        && !views[picked[k]].live_at(now),
                forall|a: int, b: int|
                    0 <= a < b < picked.len() ==> #[trigger] picked[a] < #[trigger] picked[b],
                forall|t: int|
                    0 <= t < i && !(#[trigger] views[t]).live_at(now) ==> picked.contains(t),
            decreases list@.len() - i,
        {
            assert(views[i as int] == list@[i as int]@);
            if !list[i].is_live_at(now) {
                names.push(list[i].publisher.name.clone());
                removed.push(list[i].clone());
                proof {
                    let ghost earlier = picked;
                    picked = picked.push(i as int);
                    assert forall|t: int|
                        0 <= t < i + 1 && !(#[trigger] views[t]).live_at(now) implies picked.contains(
                        t,
                    ) by {
                        if t < i {
                            let k = choose|k: int| 0 <= k < earlier.len() && earlier[k] == t;
                            assert(picked[k] == t);
                        } else {
                            assert(picked[earlier.len() as int] == t);
                        }
                    }
                }
            }
            i = i + 1;
        }
        let _ = self.publisher_store.remove_publishers(names);
        proof {
            let gone = expired(entries, now);
            assert forall|t: int| 0 <= t < keys.len() implies (gone.contains_key(#[trigger] keys[t])
                <==> picked.contains(t)) by {
                assert(keys.to_set().contains(keys[t]));
                assert(views[t] == entries[keys[t]]);
                if picked.contains(t) {
                    let k = choose|k: int| 0 <= k < picked.len() && picked[k] == t;
                    assert(!views[picked[k]].live_at(now));
                }
            }
            lemma_picked_lists(entries, keys, views, picked, gone);
            assert(Seq::new(picked.len(), |k: int| views[picked[k]]) =~= registration_views(
                removed@,
            ));
            assert forall|key: Seq<char>| name_set(names@).contains(key) == gone.contains_key(
                key,
            ) by {
                if name_set(names@).contains(key) {
                    let k = choose|k: int| 0 <= k < names@.len() && #[trigger] names@[k]@ == key;
                    let t = picked[k];
                    assert(keys.to_set().contains(keys[t]));
                    assert(views[t] == entries[keys[t]]);
                    assert(picked.contains(t));
                }
                if gone.contains_key(key) {
                    assert(keys.to_set().contains(key));
                    let t = choose|t: int| 0 <= t < keys.len() && keys[t] == key;
                    assert(views[t] == entries[keys[t]]);
                    assert(picked.contains(t));
                    let k = choose|k: int| 0 <= k < picked.len() && picked[k] == t;
                    assert(names@[k]@ == key);
                }
            }
            assert(entries.remove_keys(name_set(names@)) =~= surviving(entries, now));
        }
        removed
    }
}

/// A snapshot of some entries holds the value of each of their keys.
pub proof fn lemma_snapshot_holds(
    entries: Map<Seq<char>, RegistrationView>,
    list: Seq<RegistrationView>,
    key: Seq<char>,
)
    requires
        snapshot_of(entries, list),
        entries.contains_key(key),
    ensures
        exists|i: int| 0 <= i < list.len() && #[trigger] list[i] == entries[key],
{
    let keys = choose|keys: Seq<Seq<char>>| #[trigger] lists(entries, keys, list);
    assert(keys.to_set().contains(key));
    let i = choose|i: int| 0 <= i < keys.len() && keys[i] == key;
    assert(list[i] == entries[key]);
}

/// A publisher that has registered is found by a search for its own name,
/// where that name is a regular expression that matches itself: whatever
/// list the search returns holds a registration of that very publisher.
pub proof fn lemma_register_then_search(
    entries: Map<Seq<char>, RegistrationView>,
    publisher: PublisherDescView,
    now: Timestamp,
    lease: Interval,
    list: Seq<RegistrationView>,
)
    requires
        pattern_valid(publisher.name),
        pattern_matches(publisher.name, publisher.name),
        snapshot_of(found(registered(entries, publisher, now, lease), publisher.name), list),
    ensures
        exists|i: int| 0 <= i < list.len() && (#[trigger] list[i]).publisher == publisher,
{
    let after = registered(entries, publisher, now, lease);
    let hits = found(after, publisher.name);
    assert(after.contains_key(publisher.name));
    assert(after[publisher.name].publisher == publisher);
    assert(hits.contains_key(publisher.name));
    lemma_snapshot_holds(hits, list, publisher.name);
}

/// Registering a name again overwrites: the entries are what they would be
/// had only the second registration been made, the name stands for the
/// second publisher with the second lease, and among entries keyed by
/// name a snapshot holds exactly one registration of that name.
pub proof fn lemma_register_again(
    entries: Map<Seq<char>, RegistrationView>,
    first: PublisherDescView,
    second: PublisherDescView,
    earlier: Timestamp,
    later: Timestamp,
    lease: Interval,
    list: Seq<RegistrationView>,
)
    requires
        first.name == second.name,
        keyed_by_name(entries),
        snapshot_of(
            registered(registered(entries, first, earlier, lease), second, later, lease),
            list,
        ),
    ensures
        registered(registered(entries, first, earlier, lease), second, later, lease) == registered(
            entries,
            second,
            later,
            lease,
        ),
        registered(entries, second, later, lease)[second.name] == leased(
            second,
            later,
            Timestamp { nanos: (later.nanos + lease.nanos) as u64 },
        ),
        exists|i: int|
            0 <= i < list.len() && #[trigger] list[i] == registered(
                entries,
                second,
                later,
                lease,
            )[second.name] && forall|j: int|
                0 <= j < list.len() && (#[trigger] list[j]).publisher.name == second.name ==> j
                    == i,
{
    let twice = registered(registered(entries, first, earlier, lease), second, later, lease);
    let once = registered(entries, second, later, lease);
    assert(twice =~= once);
    lemma_registered_keyed(entries, second, later, lease);
    let keys = choose|keys: Seq<Seq<char>>| #[trigger] lists(once, keys, list);
    assert(keys.to_set().contains(second.name));
    let i = choose|i: int| 0 <= i < keys.len() && keys[i] == second.name;
    assert(list[i] == once[second.name]);
    assert forall|j: int| 0 <= j < list.len() && (#[trigger] list[j]).publisher.name
        == second.name implies j == i by {
        assert(keys.to_set().contains(keys[j]));
        assert(list[j] == once[keys[j]]);
        assert(once[keys[j]].publisher.name == keys[j]);
    }
}

/// Registration keeps the entries keyed by name, and a lease that is
/// positive and ends within the time that can be told ends after it began.
pub proof fn lemma_registered_keyed(
    entries: Map<Seq<char>, RegistrationView>,
    publisher: PublisherDescView,
    now: Timestamp,
    lease: Interval,
)
    requires
        keyed_by_name(entries),
    ensures
        keyed_by_name(registered(entries, publisher, now, lease)),
        lease.nanos > 0 && now.nanos + lease.nanos <= u64::MAX ==> registered(
            entries,
            publisher,
            now,
            lease,
        )[publisher.name].live_at(now),
{
    let after = registered(entries, publisher, now, lease);
    assert forall|key: Seq<char>| after.contains_key(key) implies (#[trigger] after[key]).publisher.name
        == key by {
        if key != publisher.name {
            assert(entries.contains_key(key));
            assert(after[key] == entries[key]);
        }
    }
}

/// What a sweep at `now` does to one entry: it is gone if its lease ends
/// at `now` or earlier, or if it does not say when its lease ends, and it
/// stays as it is if its lease ends later. Nothing else comes or goes.
pub proof fn lemma_sweep_by_expiration(
    entries: Map<Seq<char>, RegistrationView>,
    now: Timestamp,
    key: Seq<char>,
)
    ensures
        surviving(entries, now).contains_key(key) <==> entries.contains_key(key) && entries[key].live_at(
            now,
        ),
        surviving(entries, now).contains_key(key) ==> surviving(entries, now)[key] == entries[key],
        entries.contains_key(key) && entries[key].info is Some && entries[key].info->0.expiration
            is Some ==> (surviving(entries, now).contains_key(key)
            <==> entries[key].info->0.expiration->0.nanos > now.nanos),
        entries.contains_key(key) && (entries[key].info is None
            || entries[key].info->0.expiration is None) ==> !surviving(entries, now).contains_key(
            key,
        ),
        expired(entries, now).contains_key(key) <==> entries.contains_key(key) && !surviving(
            entries,
            now,
        ).contains_key(key),
{
}

} // verus!
