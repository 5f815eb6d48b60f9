//! Established connections.

use crate::net::addr::SocketAddr;
use crate::net::addr::SocketPair;
use vstd::prelude::*;

verus! {

/// One end of an established connection.
#[derive(Debug)]
pub struct TcpStream {
    pair: SocketPair,
}

impl TcpStream {
    /// The connection's two ends, as this end sees them.
    pub closed spec fn spec_pair(&self) -> SocketPair {
        self.pair
    }

    pub(crate) fn new(pair: SocketPair) -> (stream: TcpStream)
        ensures
            stream.pair() == pair,
    {
        TcpStream { pair }
    }

    /// The connection's two ends, as this end sees them.
    #[verifier::when_used_as_spec(spec_pair)]
    pub fn pair(&self) -> (pair: SocketPair)
        ensures
            pair == self.spec_pair(),
    {
        self.pair
    }

    /// The address of this end.
    pub fn local_addr(&self) -> (addr: SocketAddr)
        ensures
            addr == self.pair().local,
    {
        self.pair.local
    }

    /// The address of the other end.
    pub fn peer_addr(&self) -> (addr: SocketAddr)
        ensures
            addr == self.pair().remote,
    {
        self.pair.remote
    }
}

} // verus!
