//! The core of a control plane for multi-tenant game-server hosting: a
//! local transactional store of servers, nodes, endpoints and backups; the
//! provisioning and deprovisioning saga that keeps that store consistent
//! with the remote node agents across calls that can fail independently;
//! the exclusive assignment of network endpoints to servers; and the
//! permission and ignored-file filter in front of every remote operation.
//!
//! Everything that computes or decides lives here, verified. The network
//! transports, the clock and randomness enter through narrow, documented
//! boundaries: the outcome of an agent call is handed in as a value, and
//! the saga states what holds of the store for every such outcome.

pub mod model;
pub mod store;
pub mod identifier;
pub mod ignore_match;
pub mod mail;
pub mod server;
pub mod agent;
pub mod allocation;
pub mod reconcile;
pub mod remote_config;
pub mod routes;
pub mod saga;

use vstd::prelude::*;

verus! {

/// Derives the 32-bit short identifier from a 128-bit server identifier:
/// the leading 32 bits.
pub open spec fn spec_short_of(uuid: u128) -> u32 {
    (uuid >> 96) as u32
}

/// Computes the short identifier of a server identifier.
pub fn short_of(uuid: u128) -> (r: u32)
    ensures
        r == spec_short_of(uuid),
{
    (uuid >> 96) as u32
}

} // verus!
