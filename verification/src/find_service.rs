//! The discovery registry: lease-based registrations of publishers, looked
//! up by name pattern and swept when their lease has run out.

pub mod memory;
pub mod pattern;
pub mod registration;
pub mod server;
pub mod store;
