//! Publish-subscribe datagram distribution: a lease-based discovery registry
//! and a publisher that frames payloads and fans them out to its subscribers.
//!
//! Every function in this crate is verified against the contract it carries.
//! Contracts are stated over mathematical views of the data (`Seq`, `Set`,
//! `Map`); the few calls into other crates stand behind small wrappers whose
//! contracts are assumed and documented as such.

pub mod datagram;
pub mod descriptor;
pub mod fanout;
pub mod find_service;
pub mod framing;
pub mod publisher;
pub mod subscribers;
