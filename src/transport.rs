use vstd::prelude::*;

verus! {

/// Default stream port of the transport.
pub const DEFAULT_TCP_PORT: u16 = 7332;

/// Capacity of each peer's outbound frame queue.
pub const PEER_QUEUE_CAPACITY: usize = 64;

/// The stream transport's configuration: the port it listens on.
pub struct TcpTransport {
    pub listen_port: u16,
}

impl TcpTransport {
    pub fn new(listen_port: u16) -> (r: Self)
        ensures
            r.listen_port == listen_port,
    {
        TcpTransport { listen_port }
    }

    /// The default stream port.
    pub fn default_port() -> (r: u16)
        ensures
            r == DEFAULT_TCP_PORT,
    {
        DEFAULT_TCP_PORT
    }
}

} // verus!
