//! What identifies a publisher to the registry and to the transport.

use vstd::prelude::*;

verus! {

/// Name and transport endpoint of a publisher. The name is the key under
/// which the registry knows it.
#[derive(Debug, PartialEq, Eq)]
pub struct PublisherDesc {
    pub name: String,
    pub host_name: String,
    pub port: u16,
}

/// Mathematical value of a [`PublisherDesc`].
pub struct PublisherDescView {
    pub name: Seq<char>,
    pub host_name: Seq<char>,
    pub port: u16,
}

impl View for PublisherDesc {
    type V = PublisherDescView;

    open spec fn view(&self) -> PublisherDescView {
        PublisherDescView { name: self.name@, host_name: self.host_name@, port: self.port }
    }
}

impl Clone for PublisherDesc {
    fn clone(&self) -> (copy: PublisherDesc)
        ensures
            copy@ == self@,
    {
        PublisherDesc {
            name: self.name.clone(),
            host_name: self.host_name.clone(),
            port: self.port,
        }
    }
}

} // verus!
