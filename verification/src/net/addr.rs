//! Addresses of simulated hosts and of their sockets.

use vstd::prelude::*;

verus! {

/// The address of a host: an IPv4 address as 32 bits or an IPv6 address as
/// 128 bits, most significant octet first.
#[derive(Clone, Copy, Debug, PartialEq, Eq, Structural)]
pub enum IpAddr {
    /// An IPv4 address.
    V4(u32),
    /// An IPv6 address.
    V6(u128),
}

impl IpAddr {
    /// The address that names no host: `0.0.0.0` or `::`.
    pub open spec fn spec_is_unspecified(self) -> bool {
        match self {
            IpAddr::V4(bits) => bits == 0,
            IpAddr::V6(bits) => bits == 0,
        }
    }

    /// Whether this is the wildcard address.
    #[verifier::when_used_as_spec(spec_is_unspecified)]
    pub fn is_unspecified(self) -> (r: bool)
        ensures
            r == self.spec_is_unspecified(),
    {
        match self {
            IpAddr::V4(bits) => bits == 0,
            IpAddr::V6(bits) => bits == 0,
        }
    }
}

/// A host address together with a port.
#[derive(Clone, Copy, Debug, PartialEq, Eq, Structural)]
pub struct SocketAddr {
    pub ip: IpAddr,
    pub port: u16,
}

impl SocketAddr {
    /// The address of the port `port` on the host `ip`.
    pub fn new(ip: IpAddr, port: u16) -> (addr: SocketAddr)
        ensures
            addr == (SocketAddr { ip, port }),
    {
        SocketAddr { ip, port }
    }

    /// This address with its host part replaced by `ip`.
    pub open spec fn on_host(self, ip: IpAddr) -> SocketAddr {
        SocketAddr { ip, port: self.port }
    }

    /// Replaces the host part and keeps the port.
    pub fn set_ip(&mut self, ip: IpAddr)
        ensures
            *final(self) == old(self).on_host(ip),
    {
        self.ip = ip;
    }
}

/// The two ends of a connection, as one side sees them.
#[derive(Clone, Copy, Debug, PartialEq, Eq, Structural)]
pub struct SocketPair {
    pub local: SocketAddr,
    pub remote: SocketAddr,
}

impl SocketPair {
    /// The connection between `local`, this side's end, and `remote`.
    pub fn new(local: SocketAddr, remote: SocketAddr) -> (pair: SocketPair)
        ensures
            pair == (SocketPair { local, remote }),
    {
        SocketPair { local, remote }
    }

    /// The same connection as the peer sees it.
    pub open spec fn spec_mirrored(self) -> SocketPair {
        SocketPair { local: self.remote, remote: self.local }
    }

    /// The same connection as the peer sees it: the ends change places.
    #[verifier::when_used_as_spec(spec_mirrored)]
    pub fn mirrored(self) -> (pair: SocketPair)
        ensures
            pair == self.spec_mirrored(),
    {
        SocketPair { local: self.remote, remote: self.local }
    }
}

/// Mirroring twice gives the pair back, and a pair whose ends differ is
/// never its own mirror image.
pub proof fn lemma_mirrored_involution(pair: SocketPair)
    ensures
        pair.mirrored().mirrored() == pair,
        pair.local != pair.remote ==> pair.mirrored() != pair,
{
}

} // verus!
