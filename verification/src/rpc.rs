use vstd::prelude::*;

verus! {

/// A request of the proxy's wire protocol.
#[derive(Debug, Clone)]
pub struct RPCRequest {
    /// The request id.
    pub id: u64,
    /// The request header, carrying the version and type.
    pub header: u64,
    /// The request body.
    pub body: Option<Vec<u8>>,
}

/// A response of the proxy's wire protocol.
#[derive(Debug, Clone)]
pub struct RPCResponse {
    /// The response id.
    pub id: u64,
    /// The response header, carrying the version and type.
    pub header: u64,
    /// The response message.
    pub msg: Option<Vec<u8>>,
    /// The response body.
    pub body: Option<Vec<u8>>,
}

/// A client of the proxy's wire protocol; the connection lives with the
/// embedding application.
#[derive(Debug)]
pub struct RPCClient {
    /// The server ip.
    pub server_ip: String,
    /// The server port.
    pub server_port: u16,
    /// The request timeout.
    pub timeout: u64,
    /// Whether the client is closed.
    pub close: bool,
}

impl RPCClient {
    /// Create a new client handle, not closed.
    pub fn new(server_ip: String, server_port: u16, timeout: u64) -> (c: RPCClient)
        ensures
            c.server_ip == server_ip,
            c.server_port == server_port,
            c.timeout == timeout,
            !c.close,
    {
        RPCClient { server_ip, server_port, timeout, close: false }
    }
}

} // verus!
