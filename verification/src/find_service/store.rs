//! The registration store: what the registry keeps, keyed by name.

use vstd::prelude::*;
use crate::find_service::pattern::{pattern_matches, pattern_valid, PatternError};
use crate::find_service::registration::{registration_views, Registration, RegistrationView};

verus! {

/// A removal named a publisher that the store does not hold.
#[derive(Clone, Copy, Debug, PartialEq, Eq, Structural)]
pub struct PublisherNotFoundError;

/// The set of the strings in `names`.
pub open spec fn name_set(names: Seq<String>) -> Set<Seq<char>> {
    Set::new(|name: Seq<char>| exists|i: int| 0 <= i < names.len() && #[trigger] names[i]@ == name)
}

/// Whether `list` holds the values of `entries`, each once, in the order of
/// `keys`.
pub open spec fn lists(
    entries: Map<Seq<char>, RegistrationView>,
    keys: Seq<Seq<char>>,
    list: Seq<RegistrationView>,
) -> bool {
    &&& keys.no_duplicates()
    &&& keys.to_set() == entries.dom()
    &&& list.len() == keys.len()
    &&& forall|i: int| 0 <= i < keys.len() ==> #[trigger] list[i] == entries[keys[i]]
}

/// Whether `list` is a snapshot of `entries`: every value once, in some
/// order.
pub open spec fn snapshot_of(
    entries: Map<Seq<char>, RegistrationView>,
    list: Seq<RegistrationView>,
) -> bool {
    exists|keys: Seq<Seq<char>>| #[trigger] lists(entries, keys, list)
}

/// The entries whose publisher's name matches `pattern`.
pub open spec fn matching(entries: Map<Seq<char>, RegistrationView>, pattern: Seq<char>) -> Map<
    Seq<char>,
    RegistrationView,
> {
    entries.restrict(
        Set::new(
            |key: Seq<char>|
                entries.contains_key(key) && pattern_matches(pattern, entries[key].publisher.name),
        ),
    )
}

/// A store of registrations keyed by publisher name.
///
/// `entries` is what the store holds. Whoever implements the store keeps
/// `wf` and meets the contracts below; the registry relies on nothing else.
pub trait PublisherStore: Sized {
    /// The store is in a state that its own operations leave it in.
    spec fn wf(&self) -> bool;

    /// What the store holds.
    spec fn entries(&self) -> Map<Seq<char>, RegistrationView>;

    /// Stores `registration` under `publisher_name`, in place of what was
    /// there under that name.
    fn insert_publisher(&mut self, publisher_name: String, registration: Registration)
        requires
            old(self).wf(),
        ensures
            final(self).wf(),
            final(self).entries() == old(self).entries().insert(publisher_name@, registration@),
    ;

    /// Removes what is stored under `publisher_name`; fails, and changes
    /// nothing, where nothing is.
    fn remove_publisher(&mut self, publisher_name: String) -> (r: Result<
        (),
        PublisherNotFoundError,
    >)
        requires
            old(self).wf(),
        ensures
            final(self).wf(),
            final(self).entries() == old(self).entries().remove(publisher_name@),
            r is Ok == old(self).entries().contains_key(publisher_name@),
    ;

    /// Removes every one of `publisher_names` that the store holds, and
    /// fails if it did not hold them all: the ones it held are gone all the
    /// same.
    fn remove_publishers(&mut self, publisher_names: Vec<String>) -> (r: Result<
        (),
        PublisherNotFoundError,
    >)
        requires
            old(self).wf(),
        ensures
            final(self).wf(),
            final(self).entries() == old(self).entries().remove_keys(name_set(publisher_names@)),
            r is Ok == (forall|i: int|
                0 <= i < publisher_names@.len() ==> old(self).entries().contains_key(
                    #[trigger] publisher_names@[i]@,
                )),
    ;

    /// All registrations, each once, in no particular order.
    fn get_publishers(&self) -> (list: Vec<Registration>)
        requires
            self.wf(),
        ensures
            snapshot_of(self.entries(), registration_views(list@)),
    ;

    /// The registrations whose publisher's name matches `search_str`, read
    /// as a regular expression, each once, in no particular order; fails
    /// exactly when `search_str` is no regular expression.
    fn find_publisher(&self, search_str: &String) -> (r: Result<Vec<Registration>, PatternError>)
        requires
            self.wf(),
        ensures
            match r {
                Ok(list) => pattern_valid(search_str@) && snapshot_of(
                    matching(self.entries(), search_str@),
                    registration_views(list@),
                ),
                Err(_) => !pattern_valid(search_str@),
            },
    ;
}

} // verus!
