//! Registrations and the times that bound their leases.

use vstd::prelude::*;
use crate::descriptor::{PublisherDesc, PublisherDescView};

verus! {

/// A point in time, in nanoseconds since the Unix epoch.
#[derive(Clone, Copy, Debug, PartialEq, Eq, Structural)]
pub struct Timestamp {
    pub nanos: u64,
}

/// A length of time, in nanoseconds.
#[derive(Clone, Copy, Debug, PartialEq, Eq, Structural)]
pub struct Interval {
    pub nanos: u64,
}

impl Timestamp {
    /// The time `lease` after this one, or `None` beyond the last time that
    /// can be told.
    pub fn checked_add(self, lease: Interval) -> (later: Option<Timestamp>)
        ensures
            match later {
                Some(later) => later.nanos == self.nanos + lease.nanos,
                None => self.nanos + lease.nanos > u64::MAX,
            },
    {
        match self.nanos.checked_add(lease.nanos) {
            Some(nanos) => Some(Timestamp { nanos }),
            None => None,
        }
    }
}

/// When a publisher last reported and when its lease runs out.
#[derive(Clone, Copy, Debug, PartialEq, Eq)]
pub struct ConnectionInfo {
    pub last_report: Timestamp,
    pub expiration: Option<Timestamp>,
}

/// A publisher as the registry knows it.
#[derive(Debug, PartialEq, Eq)]
pub struct Registration {
    pub publisher: PublisherDesc,
    pub info: Option<ConnectionInfo>,
}

/// Mathematical value of a [`Registration`].
pub struct RegistrationView {
    pub publisher: PublisherDescView,
    pub info: Option<ConnectionInfo>,
}

impl View for Registration {
    type V = RegistrationView;

    open spec fn view(&self) -> RegistrationView {
        RegistrationView { publisher: self.publisher@, info: self.info }
    }
}

impl Clone for Registration {
    fn clone(&self) -> (copy: Registration)
        ensures
            copy@ == self@,
    {
        Registration { publisher: self.publisher.clone(), info: self.info }
    }
}

/// The views of a sequence of registrations, element by element.
pub open spec fn registration_views(list: Seq<Registration>) -> Seq<RegistrationView> {
    Seq::new(list.len(), |i: int| list[i]@)
}

impl RegistrationView {
    /// Whether the lease is still running at `now`. A registration that
    /// does not say when its lease ends is taken to have none left.
    pub open spec fn live_at(self, now: Timestamp) -> bool {
        self.info matches Some(info) && info.expiration matches Some(expiration)
            && expiration.nanos > now.nanos
    }
}

impl Registration {
    /// The registration of `publisher` reported at `now` with a lease
    /// until `expiration`.
    pub fn new(publisher: PublisherDesc, now: Timestamp, expiration: Timestamp) -> (registration:
        Registration)
        ensures
            registration@ == leased(publisher@, now, expiration),
    {
        Registration {
            publisher,
            info: Some(ConnectionInfo { last_report: now, expiration: Some(expiration) }),
        }
    }

    /// Whether the lease is still running at `now`.
    pub fn is_live_at(&self, now: Timestamp) -> (live: bool)
        ensures
            live == self@.live_at(now),
    {
        match self.info {
            Some(info) => match info.expiration {
                Some(expiration) => expiration.nanos > now.nanos,
                None => false,
            },
            None => false,
        }
    }
}

/// The registration of `publisher` reported at `now` with a lease until
/// `expiration`.
pub open spec fn leased(
    publisher: PublisherDescView,
    now: Timestamp,
    expiration: Timestamp,
) -> RegistrationView {
    RegistrationView {
        publisher,
        info: Some(ConnectionInfo { last_report: now, expiration: Some(expiration) }),
    }
}

} // verus!
