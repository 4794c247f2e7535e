use vstd::prelude::*;

verus! {

/// A failure of the metadata store, as surfaced to the manager.
#[derive(Clone, Copy, Debug, PartialEq, Eq, Structural)]
pub enum MetaError {
    /// The path does not exist and was required to.
    NotFound,
    /// The write lost to a concurrent writer.
    Conflict,
    /// The store cannot be reached.
    Unavailable,
    /// The operation did not finish in time.
    Timeout,
}

/// The metadata store interface: a hierarchical key/value namespace that
/// persists the authoritative topology.  Implementations wrap a concrete
/// store and do the I/O; the core depends on these six operations alone.
pub trait MetaClient {
    /// Create a new entry at a path.
    fn create(&self, path: &str, data: &[u8]) -> Result<(), MetaError>;

    /// Update the entry at a path.
    fn update(&self, path: &str, data: &[u8]) -> Result<(), MetaError>;

    /// Delete the entry at a path.
    fn delete(&self, path: &str) -> Result<(), MetaError>;

    /// Read the entry at a path; with `must` absence is an error, without
    /// it absence yields an empty result.
    fn read(&self, path: &str, must: bool) -> Result<Vec<u8>, MetaError>;

    /// List the entries under a prefix; `must` as in `read`.
    fn list(&self, path: &str, must: bool) -> Result<Vec<String>, MetaError>;

    /// Close the client.
    fn close(&self) -> Result<(), MetaError>;
}

/// A watcher over metadata changes; polling stands in for it until a store
/// offers change notification.
pub trait Watcher {

}

/// Handle for an etcd-backed metadata store; the transport lives with the
/// embedding application.
#[derive(Debug)]
pub struct ETCDClient {
    /// The store endpoints.
    pub endpoints: Vec<String>,
}

impl ETCDClient {
    /// Create a new etcd client handle.
    pub fn new(endpoints: Vec<String>) -> (c: ETCDClient)
        ensures
            c.endpoints == endpoints,
    {
        ETCDClient { endpoints }
    }
}

/// Create the metadata client handle for a set of endpoints.
pub fn new_meta_client(endpoints: Vec<String>) -> (c: ETCDClient)
    ensures
        c.endpoints == endpoints,
{
    ETCDClient::new(endpoints)
}

} // verus!
