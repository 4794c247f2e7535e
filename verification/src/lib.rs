//! Routing core of a distributed cache proxy: a slot-based consistent hash
//! ring, a materialized slot mapping, a node registry, and the topology
//! manager that ties them together.

/// The slot-based consistent hash ring.
pub mod hash_ring;

/// Serialization of a ring to and from the metadata byte format.
pub mod codec;

/// Slots of the materialized slot mapping.
pub mod slot;

/// Registry of backend nodes.
pub mod node;

/// Proxy configuration.
pub mod config;

/// Metadata store client interface.
pub mod client;

/// Key-to-slot ring backed by an external consistent-hashing collection.
pub mod ring;

/// The topology manager.
pub mod manager;

/// RPC request and response data.
pub mod rpc;
