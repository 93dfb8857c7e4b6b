//! Local discovery: names and addresses of mDNS services, and what is
//! known of the nodes nearby.

pub mod mdns;
pub mod node_registry;
