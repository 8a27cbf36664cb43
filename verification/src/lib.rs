//! Classifies IPv4 addresses as belonging to known network hosts (cloud
//! providers) by testing membership against CIDR ranges extracted from
//! provider-published JSON range documents.
//!
//! The core is the host range database: extraction descriptors say where a
//! provider's CIDR list lives inside its JSON document, the database parses
//! every referenced document eagerly at construction, and `get_host` answers
//! "which host, if any, owns this address" by first-match containment search.

pub mod database;
pub mod descriptor;
pub mod error;
pub mod extract;
pub mod hosts;
pub mod json;
pub mod sshd;
pub mod net;
pub mod text;

pub use database::HostDatabase;
pub use descriptor::HostJson;
pub use error::HostError;
pub use hosts::Host;
pub use hosts::OwnedNetwork;
pub use net::Ipv4Cidr;
pub use sshd::LogError;
pub use sshd::SshdEvent;
