//! What a caller can be told went wrong.

use crate::net::addr::SocketAddr;
use vstd::prelude::*;

verus! {

#[derive(Clone, Copy, Debug, PartialEq, Eq, Structural)]
pub enum Error {
    /// A listener is already bound to this address on the host.
    AddrInUse(SocketAddr),
}

} // verus!
