//! Listening for connections.

use crate::error::Error;
use crate::host::Host;
use crate::host::first_taken;
use crate::host::lemma_first_taken_at;
use crate::host::lemma_free_after_unbind;
use crate::host::Syn;
use crate::net::addr::IpAddr;
use crate::net::addr::SocketAddr;
use crate::net::addr::SocketPair;
use crate::net::tcp::stream::TcpStream;
use crate::sync::share;
use crate::world::World;
use crate::world::WorldView;
use std::sync::Arc;
use tokio::sync::Notify;
use vstd::prelude::*;

verus! {

/// A simulated TCP socket server, listening for connections.
pub struct TcpListener {
    local_addr: SocketAddr,
    notify: Arc<Notify>,
}

impl TcpListener {
    /// The address that the listener is bound to.
    pub closed spec fn addr(&self) -> SocketAddr {
        self.local_addr
    }

    /// The handle on which the listener waits for connection attempts.
    pub closed spec fn wake(&self) -> Arc<Notify> {
        self.notify
    }

    pub(crate) fn new(local_addr: SocketAddr, notify: Arc<Notify>) -> (listener: TcpListener)
        ensures
            listener.addr() == local_addr,
            listener.wake() == notify,
    {
        TcpListener { local_addr, notify }
    }

    /// Creates a new listener, bound on the running host to the port of
    /// `addr`.
    ///
    /// `addr` names the wildcard host, and the listener is bound to the
    /// running host's own address with the port of `addr`. The bind fails
    /// exactly where a listener is bound there already, and then changes
    /// nothing. No other host is touched and no simulated time passes.
    pub fn bind(world: &mut World, addr: SocketAddr) -> (bound: Result<TcpListener, Error>)
        requires
            old(world).wf(),
            old(world)@.running(),
            addr.ip.is_unspecified(),
        ensures
            final(world).wf(),
            ({
                let host = old(world)@.host();
                let resolved = addr.on_host(host.addr);
                &&& host.addr == old(world)@.current.unwrap()
                &&& match bound {
                    Ok(listener) => {
                        &&& !host.is_bound(resolved)
                        &&& listener.addr() == resolved
                        &&& final(world)@ == old(world)@.with_host(
                            host.bind(resolved, listener.wake()),
                        )
                    },
                    Err(error) => {
                        &&& host.is_bound(resolved)
                        &&& error == Error::AddrInUse(resolved)
                        &&& final(world)@ == old(world)@
                    },
                }
            }),
    {
        let mut addr = addr;
        proof {
            world.lemma_keyed_by_addr(world@.current.unwrap());
        }
        let host = world.current_host_mut();
        // The wildcard stands for this host's own address.
        addr.set_ip(host.addr());
        let bound = host.bind(addr);
        proof {
            old(world)@.lemma_with_host(old(world)@.host(), old(world)@.host());
        }
        bound
    }

    /// What becomes of an attempt from `origin` that was taken from this
    /// listener's queue, once it is known whether the acknowledgment reached
    /// the initiator.
    ///
    /// Where it did, the connection enters the stream table of `host` and
    /// its local end is returned with the peer's address. Where it did not,
    /// the initiator has given up: nothing is returned and `host` stays as it
    /// was.
    pub fn complete(&self, host: &mut Host, origin: SocketAddr, acked: bool) -> (accepted: Option<
        (TcpStream, SocketAddr),
    >)
        requires
            old(host).wf(),
        ensures
            final(host).wf(),
            final(host)@ == old(host)@.acknowledged(self.addr(), origin, acked),
            match accepted {
                Some((stream, remote)) => {
                    &&& acked
                    &&& remote == origin
                    &&& stream.pair() == SocketPair { local: self.addr(), remote: origin }
                },
                None => !acked,
            },
    {
        if !acked {
            return None;
        }
        let pair = SocketPair::new(self.local_addr, origin);
        let stream = host.new_stream(pair);
        Some((stream, origin))
    }

    /// Accepts the oldest connection attempt whose initiator still waits.
    ///
    /// Attempts are taken from the queue oldest first, and each is
    /// acknowledged. An attempt whose initiator has gone is dropped without
    /// a trace; the first one whose initiator takes the acknowledgment
    /// becomes a connection, which enters the running host's stream table
    /// and is returned with the peer's address. `None` means that the queue
    /// ran empty: the caller waits on the wake handle before it calls again.
    /// The queue of a listener that is not bound on the running host is
    /// empty.
    pub fn accept(&self, world: &mut World) -> (accepted: Option<(TcpStream, SocketAddr)>)
        requires
            old(world).wf(),
            old(world)@.running(),
        ensures
            final(world).wf(),
            ({
                let host = old(world)@.host();
                let waiting = host.pending(self.addr());
                &&& match accepted {
                    Some((stream, remote)) => exists|gone: int|
                        {
                            &&& 0 <= gone < waiting.len()
                            &&& remote == (#[trigger] waiting[gone]).origin
                            &&& stream.pair() == SocketPair { local: self.addr(), remote }
                            &&& final(world)@ == old(world)@.with_host(
                                host.accepted(self.addr(), gone),
                            )
                        },
                    None => final(world)@ == old(world)@.with_host(
                        host.dequeue(self.addr(), waiting.len() as int),
                    ),
                }
                &&& exists|taken: Seq<bool>|
                    {
                        &&& taken.len() == waiting.len()
                        &&& accepted.is_some() == (first_taken(taken) < waiting.len())
                        &&& final(world)@ == old(world)@.with_host(
                            #[trigger] host.after_accept(self.addr(), taken),
                        )
                    }
            }),
    {
        let ghost host0 = world@.host();
        let ghost waiting = host0.pending(self.addr());
        let ghost mut gone: int = 0;
        proof {
            host0.lemma_dequeue_none(self.addr());
            world@.lemma_with_host(host0, host0);
        }
        loop
            invariant
                world.wf(),
                old(world)@.running(),
                host0 == old(world)@.host(),
                waiting == host0.pending(self.addr()),
                0 <= gone <= waiting.len(),
                world@ == old(world)@.with_host(host0.dequeue(self.addr(), gone)),
            decreases waiting.len() - gone,
        {
            let ghost before = host0.dequeue(self.addr(), gone);
            proof {
                host0.lemma_dequeue_more(self.addr(), gone, 0);
                old(world)@.lemma_with_host(before, before);
            }
            let host = world.current_host_mut();
            let next = host.accept(self.local_addr);
            match next {
                None => {
                    proof {
                        let taken = Seq::new(waiting.len(), |i: int| false);
                        lemma_first_taken_at(taken, gone);
                        assert(host0.after_accept(self.addr(), taken) == host0.dequeue(
                            self.addr(),
                            gone,
                        ));
                    }
                    return None;
                },
                Some(syn) => {
                    let Syn { origin, ack } = syn;
                    let acked = ack.send(()).is_ok();
                    proof {
                        host0.lemma_dequeue_more(self.addr(), gone, 1);
                        assert(waiting[gone] == syn);
                    }
                    let accepted = self.complete(host, origin, acked);
                    proof {
                        old(world)@.lemma_with_host(before, host0.accepted(self.addr(), gone));
                        old(world)@.lemma_with_host(before, host0.dequeue(self.addr(), gone + 1));
                    }
                    if accepted.is_some() {
                        proof {
                            let taken = Seq::new(waiting.len(), |i: int| i == gone);
                            lemma_first_taken_at(taken, gone);
                            assert(host0.after_accept(self.addr(), taken) == host0.accepted(
                                self.addr(),
                                gone,
                            ));
                        }
                        return accepted;
                    }
                    proof {
                        gone = gone + 1;
                    }
                },
            }
        }
    }

    /// Releases the listener's address on the running host, so that it can
    /// be bound again at once. Where the environment is gone already,
    /// nothing happens.
    pub fn close(self, world: &mut Option<World>)
        requires
            *old(world) matches Some(w) ==> w.wf() && w@.running(),
        ensures
            match *old(world) {
                Some(before) => {
                    &&& *final(world) matches Some(after)
                    &&& after.wf()
                    &&& after@ == before@.with_host(before@.host().unbind(self.addr()))
                },
                None => final(world).is_none(),
            },
    {
        match world {
            Some(w) => {
                let host = w.current_host_mut();
                host.unbind(self.local_addr);
            },
            None => {},
        }
    }

    /// The handle on which to wait for connection attempts: it is notified
    /// whenever an attempt is queued for this listener.
    pub fn notify(&self) -> (handle: Arc<Notify>)
        ensures
            handle == self.wake(),
    {
        share(&self.notify)
    }

    /// Returns the local address that this listener is bound to.
    pub fn local_addr(&self) -> (addr: Result<SocketAddr, Error>)
        ensures
            addr == Ok::<SocketAddr, Error>(self.addr()),
    {
        Ok(self.local_addr)
    }
}

/// Of two listeners that are bound on one host to the same port, the second
/// bind fails: after the first, the resolved address is taken on the running
/// host, and no other host has changed.
pub proof fn lemma_second_bind_fails(world: WorldView, addr: SocketAddr, notify: Arc<Notify>)
    requires
        world.running(),
    ensures
        ({
            let resolved = addr.on_host(world.host().addr);
            let after = world.with_host(world.host().bind(resolved, notify));
            &&& after.running()
            &&& after.host().is_bound(addr.on_host(after.host().addr))
            &&& forall|other: IpAddr|
                Some(other) != world.current ==> after.hosts.contains_key(other)
                    == world.hosts.contains_key(other) && after.hosts[other] == world.hosts[other]
        }),
{
    let resolved = addr.on_host(world.host().addr);
    world.lemma_with_host(world.host().bind(resolved, notify), world.host());
}

/// A listener that was closed has freed its address: the next bind to the
/// same port on that host succeeds. Where the address was free before the
/// listener was bound, the environment is then as it was before.
pub proof fn lemma_rebind_after_close(world: WorldView, addr: SocketAddr, notify: Arc<Notify>)
    requires
        world.running(),
    ensures
        ({
            let resolved = addr.on_host(world.host().addr);
            let bound = world.with_host(world.host().bind(resolved, notify));
            let closed = bound.with_host(bound.host().unbind(resolved));
            &&& closed.running()
            &&& !closed.host().is_bound(addr.on_host(closed.host().addr))
            &&& !world.host().is_bound(resolved) ==> closed == world
        }),
{
    let resolved = addr.on_host(world.host().addr);
    let bound_host = world.host().bind(resolved, notify);
    world.lemma_with_host(bound_host, bound_host.unbind(resolved));
    world.lemma_with_host(bound_host.unbind(resolved), world.host());
    lemma_free_after_unbind(world.host(), resolved, notify);
}

} // verus!
