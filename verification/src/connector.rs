//! The addresses that clients connect to, by kind of stream.

use vstd::prelude::*;

verus! {

/// Connects to a server over a Unix domain socket at a path.
pub struct UnixConnector {
    server_name: String,
}

/// Connects to a server over TCP at a `host:port` address.
pub struct TcpConnector {
    server_name: String,
}

impl UnixConnector {
    /// The server name the connector was made with.
    pub closed spec fn target(&self) -> Seq<char> {
        self.server_name@
    }

    /// A connector to the socket at `server_name`.
    pub fn new(server_name: &str) -> (c: UnixConnector)
        ensures
            c.target() == server_name@,
    {
        UnixConnector { server_name: server_name.to_owned() }
    }

    /// The path of the socket.
    pub fn server_name(&self) -> (r: &str)
        ensures
            r@ == self.target(),
    {
        self.server_name.as_str()
    }
}

impl TcpConnector {
    /// The server name the connector was made with.
    pub closed spec fn target(&self) -> Seq<char> {
        self.server_name@
    }

    /// A connector to the address `server_name`.
    pub fn new(server_name: &str) -> (c: TcpConnector)
        ensures
            c.target() == server_name@,
    {
        TcpConnector { server_name: server_name.to_owned() }
    }

    /// The address of the server.
    pub fn server_name(&self) -> (r: &str)
        ensures
            r@ == self.target(),
    {
        self.server_name.as_str()
    }
}

} // verus!
