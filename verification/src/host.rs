//! The network state of one simulated host.

use crate::error::Error;
use crate::net::addr::IpAddr;
use crate::net::addr::SocketAddr;
use crate::net::addr::SocketPair;
use crate::net::tcp::listener::TcpListener;
use crate::net::tcp::stream::TcpStream;
use crate::sync::share;
use std::collections::VecDeque;
use std::sync::Arc;
use tokio::sync::oneshot::Sender;
use tokio::sync::Notify;
use vstd::prelude::*;

verus! {

/// One inbound connection attempt: where it comes from, and the channel on
/// which the accepting side tells the initiator that it was accepted.
pub struct Syn {
    /// The address of the initiator.
    pub origin: SocketAddr,
    /// Where the acknowledgment goes. The initiator holds the receiving
    /// half, and has given up once that half is gone.
    pub ack: Sender<()>,
}

/// What a host keeps for a bound address.
struct ServerSocket {
    addr: SocketAddr,
    notify: Arc<Notify>,
    deque: VecDeque<Syn>,
}

/// What a bound address holds: the listener's wake handle and the attempts
/// that wait to be accepted, oldest first.
pub struct Listening {
    /// The listener's wake handle.
    pub notify: Arc<Notify>,
    /// The attempts that wait, oldest first.
    pub pending: Seq<Syn>,
}

/// The network state of a host as contracts see it.
pub struct HostView {
    /// The host's own address.
    pub addr: IpAddr,
    /// The bind table.
    pub binds: Map<SocketAddr, Listening>,
    /// The stream table: the connections that are established.
    pub streams: Set<SocketPair>,
}

impl HostView {
    /// A host on which nothing is bound and nothing is connected.
    pub open spec fn empty(addr: IpAddr) -> HostView {
        HostView { addr, binds: Map::empty(), streams: Set::empty() }
    }

    /// A listener is bound to `addr`.
    pub open spec fn is_bound(self, addr: SocketAddr) -> bool {
        self.binds.contains_key(addr)
    }

    /// The attempts that wait at `addr`, oldest first; none where nothing is
    /// bound there.
    pub open spec fn pending(self, addr: SocketAddr) -> Seq<Syn> {
        if self.is_bound(addr) {
            self.binds[addr].pending
        } else {
            Seq::empty()
        }
    }

    /// The host after a listener with the wake handle `notify` was bound to
    /// `addr`.
    pub open spec fn bind(self, addr: SocketAddr, notify: Arc<Notify>) -> HostView {
        HostView {
            binds: self.binds.insert(addr, Listening { notify, pending: Seq::empty() }),
            ..self
        }
    }

    /// The host after `addr` was released, with whatever waited there.
    pub open spec fn unbind(self, addr: SocketAddr) -> HostView {
        HostView { binds: self.binds.remove(addr), ..self }
    }

    /// The host with the first `count` attempts at `addr` taken from the
    /// queue; the host itself where nothing is bound to `addr`.
    pub open spec fn dequeue(self, addr: SocketAddr, count: int) -> HostView {
        if self.is_bound(addr) {
            HostView {
                binds: self.binds.insert(
                    addr,
                    Listening {
                        notify: self.binds[addr].notify,
                        pending: self.binds[addr].pending.skip(count),
                    },
                ),
                ..self
            }
        } else {
            self
        }
    }

    /// The host with `syn` added behind the attempts that wait at `addr`.
    pub open spec fn enqueue(self, addr: SocketAddr, syn: Syn) -> HostView {
        HostView {
            binds: self.binds.insert(
                addr,
                Listening {
                    notify: self.binds[addr].notify,
                    pending: self.binds[addr].pending.push(syn),
                },
            ),
            ..self
        }
    }

    /// The host with the connection `pair` in its stream table.
    pub open spec fn open_stream(self, pair: SocketPair) -> HostView {
        HostView { streams: self.streams.insert(pair), ..self }
    }

    /// The host after the listener at `addr` has learnt whether its
    /// acknowledgment reached the initiator at `origin`: the connection
    /// enters the stream table where it did, and nothing changes where it
    /// did not.
    pub open spec fn acknowledged(self, addr: SocketAddr, origin: SocketAddr, acked: bool) -> HostView {
        if acked {
            self.open_stream(SocketPair { local: addr, remote: origin })
        } else {
            self
        }
    }

    /// The host after the listener at `addr` has dropped the first `gone`
    /// attempts of its queue and accepted the one behind them.
    pub open spec fn accepted(self, addr: SocketAddr, gone: int) -> HostView {
        self.dequeue(addr, gone + 1).open_stream(
            SocketPair { local: addr, remote: self.pending(addr)[gone].origin },
        )
    }

    /// The host after the listener at `addr` has gone through its queue,
    /// where `taken[i]` tells whether the initiator of the attempt at place
    /// `i` still takes its acknowledgment: the first attempt that is taken is
    /// accepted, and where none is, the queue is drained.
    pub open spec fn after_accept(self, addr: SocketAddr, taken: Seq<bool>) -> HostView {
        let gone = first_taken(taken);
        if gone < self.pending(addr).len() {
            self.accepted(addr, gone)
        } else {
            self.dequeue(addr, self.pending(addr).len() as int)
        }
    }

    /// To take no attempt from a queue changes nothing.
    pub proof fn lemma_dequeue_none(self, addr: SocketAddr)
        ensures
            self.dequeue(addr, 0) == self,
    {
        if self.is_bound(addr) {
            assert(self.binds[addr].pending.skip(0) =~= self.binds[addr].pending);
            assert(self.dequeue(addr, 0).binds =~= self.binds);
        }
    }

    /// To take `first` attempts and then `more` is to take them all at once.
    pub proof fn lemma_dequeue_more(self, addr: SocketAddr, first: int, more: int)
        requires
            0 <= first,
            0 <= more,
            first + more <= self.pending(addr).len(),
        ensures
            self.dequeue(addr, first).is_bound(addr) == self.is_bound(addr),
            self.dequeue(addr, first).pending(addr) == self.pending(addr).skip(first),
            self.dequeue(addr, first).dequeue(addr, more) == self.dequeue(addr, first + more),
    {
        if self.is_bound(addr) {
            let queue = self.binds[addr].pending;
            assert(queue.skip(first).skip(more) =~= queue.skip(first + more));
            assert(self.dequeue(addr, first).dequeue(addr, more).binds =~= self.dequeue(
                addr,
                first + more,
            ).binds);
        } else {
            assert(self.pending(addr).skip(first) =~= self.pending(addr));
        }
    }
}

/// The place of the first acknowledgment that is taken, or the number of
/// acknowledgments where none is: so many attempts are dropped before one
/// is accepted.
pub open spec fn first_taken(taken: Seq<bool>) -> int
    decreases taken.len(),
{
    if taken.len() == 0 || taken[0] {
        0
    } else {
        1 + first_taken(taken.drop_first())
    }
}

/// No acknowledgment before the first that is taken is taken.
pub proof fn lemma_first_taken(taken: Seq<bool>)
    ensures
        0 <= first_taken(taken) <= taken.len(),
        forall|i: int| 0 <= i < first_taken(taken) ==> !taken[i],
        first_taken(taken) < taken.len() ==> taken[first_taken(taken)],
    decreases taken.len(),
{
    if taken.len() > 0 && !taken[0] {
        let rest = taken.drop_first();
        lemma_first_taken(rest);
        assert forall|i: int| 0 <= i < first_taken(taken) implies !taken[i] by {
            if i > 0 {
                assert(taken[i] == rest[i - 1]);
            }
        }
        if first_taken(taken) < taken.len() {
            assert(taken[first_taken(taken)] == rest[first_taken(rest)]);
        }
    }
}

/// The first acknowledgment that is taken is the one before which none is.
pub proof fn lemma_first_taken_at(taken: Seq<bool>, at: int)
    requires
        0 <= at <= taken.len(),
        forall|i: int| 0 <= i < at ==> !taken[i],
        at < taken.len() ==> taken[at],
    ensures
        first_taken(taken) == at,
{
    lemma_first_taken(taken);
}

/// An address that was bound is taken: a host refuses to bind it a second
/// time, whatever else was bound in between.
pub proof fn lemma_bound_once(host: HostView, addr: SocketAddr, notify: Arc<Notify>)
    ensures
        host.bind(addr, notify).is_bound(addr),
        forall|other: SocketAddr, handle: Arc<Notify>|
            other != addr ==> (#[trigger] host.bind(addr, notify).bind(other, handle)).is_bound(
                addr,
            ),
{
}

/// An address that was released is free: a host binds it again at once.
/// Releasing a listener that was bound to a free address undoes the bind.
pub proof fn lemma_free_after_unbind(host: HostView, addr: SocketAddr, notify: Arc<Notify>)
    ensures
        !host.unbind(addr).is_bound(addr),
        !host.bind(addr, notify).unbind(addr).is_bound(addr),
        !host.is_bound(addr) ==> host.bind(addr, notify).unbind(addr) == host,
{
    if !host.is_bound(addr) {
        assert(host.bind(addr, notify).unbind(addr).binds =~= host.binds);
    }
}

/// An attempt whose initiator has gone leaves no trace. However many
/// attempts were dropped before one was accepted, the stream table gains the
/// accepted connection and nothing else, the queue holds what stood behind
/// the accepted attempt, and every other bound address keeps what it held.
/// Where all attempts were dropped, the stream table is as it was.
pub proof fn lemma_dropped_attempts_invisible(host: HostView, addr: SocketAddr, gone: int)
    requires
        0 <= gone < host.pending(addr).len(),
    ensures
        host.acknowledged(addr, host.pending(addr)[gone].origin, false) == host,
        host.accepted(addr, gone).streams == host.streams.insert(
            SocketPair { local: addr, remote: host.pending(addr)[gone].origin },
        ),
        host.accepted(addr, gone).pending(addr) == host.pending(addr).skip(gone + 1),
        host.accepted(addr, gone).binds.remove(addr) == host.binds.remove(addr),
        host.dequeue(addr, host.pending(addr).len() as int).streams == host.streams,
        host.dequeue(addr, gone).acknowledged(addr, host.pending(addr)[gone].origin, false).streams
            == host.streams,
{
    assert(host.accepted(addr, gone).binds.remove(addr) =~= host.binds.remove(addr));
}

/// A cancelled attempt is passed over and a live one is not lost. Whatever
/// the initiators did: an attempt whose acknowledgment is not taken is not
/// the one accepted; where some acknowledgment is taken, the oldest such
/// attempt is accepted, and the stream table gains its connection and
/// nothing else; where none is taken, the queue is drained and the stream
/// table stays as it was.
pub proof fn lemma_cancelled_attempts_passed_over(
    host: HostView,
    addr: SocketAddr,
    taken: Seq<bool>,
)
    requires
        taken.len() == host.pending(addr).len(),
    ensures
        ({
            let gone = first_taken(taken);
            let queue = host.pending(addr);
            &&& forall|cancelled: int| 0 <= cancelled < taken.len() && !taken[cancelled] ==> gone != cancelled
            &&& forall|live: int|
                0 <= live < taken.len() && taken[live] ==> {
                    &&& gone <= live
                    &&& taken[gone]
                    &&& host.after_accept(addr, taken) == host.accepted(addr, gone)
                    &&& host.after_accept(addr, taken).streams == host.streams.insert(
                        SocketPair { local: addr, remote: queue[gone].origin },
                    )
                }
            &&& (forall|i: int| 0 <= i < taken.len() ==> !taken[i]) ==> {
                &&& gone == taken.len()
                &&& host.after_accept(addr, taken).streams == host.streams
                &&& host.after_accept(addr, taken).pending(addr).len() == 0
            }
        }),
{
    lemma_first_taken(taken);
    let gone = first_taken(taken);
    if gone == taken.len() {
        host.lemma_dequeue_more(addr, gone, 0);
    }
}

/// What an accept does is decided by the state in which it finds the host
/// and by which initiators still take their acknowledgment: two runs that
/// agree in these agree in the connection that is accepted and in the state
/// that is left.
pub proof fn lemma_accept_replays(
    first: HostView,
    second: HostView,
    addr: SocketAddr,
    taken_first: Seq<bool>,
    taken_second: Seq<bool>,
)
    requires
        first == second,
        taken_first == taken_second,
    ensures
        first_taken(taken_first) == first_taken(taken_second),
        first.pending(addr) == second.pending(addr),
        first.after_accept(addr, taken_first) == second.after_accept(addr, taken_second),
{
}

/// Attempts are accepted in the order in which they arrived: the attempt
/// that is accepted after the one at `first` stood behind it in the queue.
pub proof fn lemma_accepted_in_arrival_order(
    host: HostView,
    addr: SocketAddr,
    first: int,
    second: int,
)
    requires
        0 <= first,
        0 <= second,
        first + 1 + second < host.pending(addr).len(),
    ensures
        host.accepted(addr, first).is_bound(addr),
        host.accepted(addr, first).pending(addr)[second] == host.pending(addr)[first + 1 + second],
        host.accepted(addr, first).accepted(addr, second).pending(addr) == host.pending(addr).skip(
            first + second + 2,
        ),
{
    let queue = host.pending(addr);
    assert(queue.skip(first + 1).skip(second + 1) =~= queue.skip(first + second + 2));
}

/// Whether some entry of `socks` is bound to `addr`.
spec fn has_sock(socks: Seq<ServerSocket>, addr: SocketAddr) -> bool {
    exists|i: int| 0 <= i < socks.len() && #[trigger] socks[i].addr == addr
}

/// The place of an entry bound to `addr`.
spec fn sock_at(socks: Seq<ServerSocket>, addr: SocketAddr) -> int {
    choose|i: int| 0 <= i < socks.len() && #[trigger] socks[i].addr == addr
}

/// No address is bound twice.
spec fn distinct_socks(socks: Seq<ServerSocket>) -> bool {
    forall|i: int, j: int|
        0 <= i < socks.len() && 0 <= j < socks.len() && i != j ==> #[trigger] socks[i].addr
            != #[trigger] socks[j].addr
}

spec fn listening(sock: ServerSocket) -> Listening {
    Listening { notify: sock.notify, pending: sock.deque@ }
}

spec fn bind_table(socks: Seq<ServerSocket>) -> Map<SocketAddr, Listening> {
    Map::new(
        |addr: SocketAddr| has_sock(socks, addr),
        |addr: SocketAddr| listening(socks[sock_at(socks, addr)]),
    )
}

/// Where no address is bound twice, an entry is found at its own place.
proof fn lemma_sock_at(socks: Seq<ServerSocket>, i: int)
    requires
        distinct_socks(socks),
        0 <= i < socks.len(),
    ensures
        has_sock(socks, socks[i].addr),
        sock_at(socks, socks[i].addr) == i,
        bind_table(socks).contains_key(socks[i].addr),
        bind_table(socks)[socks[i].addr] == listening(socks[i]),
{
}

/// A new entry at the end, with an address that was free, adds that address
/// to the bind table and changes nothing else in it.
proof fn lemma_bind_table_push(socks: Seq<ServerSocket>, sock: ServerSocket)
    requires
        distinct_socks(socks),
        !has_sock(socks, sock.addr),
    ensures
        distinct_socks(socks.push(sock)),
        bind_table(socks.push(sock)) == bind_table(socks).insert(sock.addr, listening(sock)),
{
    let after = socks.push(sock);
    assert forall|i: int, j: int|
        0 <= i < after.len() && 0 <= j < after.len() && i != j implies #[trigger] after[i].addr
        != #[trigger] after[j].addr by {
        if i < socks.len() && j < socks.len() {
            assert(socks[i].addr != socks[j].addr);
        } else if i < socks.len() {
            assert(socks[i].addr == after[i].addr);
        } else {
            assert(socks[j].addr == after[j].addr);
        }
    }
    assert forall|addr: SocketAddr|
        has_sock(after, addr) <==> (has_sock(socks, addr) || addr == sock.addr) by {
        if has_sock(socks, addr) {
            let i = sock_at(socks, addr);
            assert(after[i].addr == addr);
        }
        if addr == sock.addr {
            assert(after[socks.len() as int].addr == addr);
        }
        if has_sock(after, addr) {
            let i = sock_at(after, addr);
            if i < socks.len() {
                assert(socks[i].addr == addr);
            }
        }
    }
    assert forall|addr: SocketAddr| has_sock(after, addr) implies #[trigger] bind_table(after)[addr]
        == bind_table(socks).insert(sock.addr, listening(sock))[addr] by {
        let i = sock_at(after, addr);
        lemma_sock_at(after, i);
        if i < socks.len() {
            assert(socks[i].addr == addr);
            lemma_sock_at(socks, i);
        }
    }
    assert(bind_table(after) =~= bind_table(socks).insert(sock.addr, listening(sock)));
}

/// Taking the entry at `at` out removes its address from the bind table and
/// changes nothing else in it.
proof fn lemma_bind_table_remove(socks: Seq<ServerSocket>, at: int)
    requires
        distinct_socks(socks),
        0 <= at < socks.len(),
    ensures
        distinct_socks(socks.remove(at)),
        bind_table(socks.remove(at)) == bind_table(socks).remove(socks[at].addr),
{
    let after = socks.remove(at);
    assert forall|i: int| 0 <= i < after.len() implies #[trigger] after[i] == socks[if i < at {
        i
    } else {
        i + 1
    }] by {}
    assert forall|i: int, j: int|
        0 <= i < after.len() && 0 <= j < after.len() && i != j implies #[trigger] after[i].addr
        != #[trigger] after[j].addr by {
        let si = if i < at { i } else { i + 1 };
        let sj = if j < at { j } else { j + 1 };
        assert(after[i] == socks[si]);
        assert(after[j] == socks[sj]);
        assert(socks[si].addr != socks[sj].addr);
    }
    assert forall|addr: SocketAddr|
        has_sock(after, addr) <==> (has_sock(socks, addr) && addr != socks[at].addr) by {
        if has_sock(after, addr) {
            let i = sock_at(after, addr);
            let si = if i < at { i } else { i + 1 };
            assert(after[i] == socks[si]);
            assert(socks[si].addr == addr);
            assert(socks[si].addr != socks[at].addr);
        }
        if has_sock(socks, addr) && addr != socks[at].addr {
            let si = sock_at(socks, addr);
            let i = if si < at { si } else { si - 1 };
            assert(after[i] == socks[si]);
            assert(after[i].addr == addr);
        }
    }
    assert forall|addr: SocketAddr| has_sock(after, addr) implies #[trigger] bind_table(after)[addr]
        == bind_table(socks).remove(socks[at].addr)[addr] by {
        let i = sock_at(after, addr);
        let si = if i < at { i } else { i + 1 };
        assert(after[i] == socks[si]);
        lemma_sock_at(after, i);
        lemma_sock_at(socks, si);
    }
    assert(bind_table(after) =~= bind_table(socks).remove(socks[at].addr));
}

/// Changing the queue of the entry at `at` changes what its address holds in
/// the bind table and nothing else.
proof fn lemma_bind_table_update(socks: Seq<ServerSocket>, at: int, sock: ServerSocket)
    requires
        distinct_socks(socks),
        0 <= at < socks.len(),
        sock.addr == socks[at].addr,
    ensures
        distinct_socks(socks.update(at, sock)),
        bind_table(socks.update(at, sock)) == bind_table(socks).insert(sock.addr, listening(sock)),
{
    let after = socks.update(at, sock);
    assert forall|i: int| 0 <= i < after.len() implies #[trigger] after[i].addr
        == socks[i].addr by {}
    assert forall|i: int, j: int|
        0 <= i < after.len() && 0 <= j < after.len() && i != j implies #[trigger] after[i].addr
        != #[trigger] after[j].addr by {
        assert(socks[i].addr != socks[j].addr);
    }
    assert forall|addr: SocketAddr| has_sock(after, addr) <==> has_sock(socks, addr) by {
        if has_sock(after, addr) {
            let i = sock_at(after, addr);
            assert(socks[i].addr == addr);
        }
        if has_sock(socks, addr) {
            let i = sock_at(socks, addr);
            assert(after[i].addr == addr);
        }
    }
    lemma_sock_at(socks, at);
    assert forall|addr: SocketAddr| has_sock(after, addr) implies #[trigger] bind_table(after)[addr]
        == bind_table(socks).insert(sock.addr, listening(sock))[addr] by {
        let i = sock_at(after, addr);
        lemma_sock_at(after, i);
        assert(socks[i].addr == addr);
        lemma_sock_at(socks, i);
    }
    assert(bind_table(after) =~= bind_table(socks).insert(sock.addr, listening(sock)));
}

/// The network state of one simulated host: its bind table, the connection
/// attempts that wait at each bound address, and its stream table.
pub struct Host {
    addr: IpAddr,
    binds: Vec<ServerSocket>,
    streams: Vec<SocketPair>,
}

impl View for Host {
    type V = HostView;

    closed spec fn view(&self) -> HostView {
        HostView {
            addr: self.addr,
            binds: bind_table(self.binds@),
            streams: self.streams@.to_set(),
        }
    }
}

impl Host {
    /// No address is bound twice.
    pub closed spec fn wf(&self) -> bool {
        distinct_socks(self.binds@)
    }

    /// A host with the address `addr`, on which nothing is bound yet.
    pub fn new(addr: IpAddr) -> (host: Host)
        ensures
            host.wf(),
            host@ == HostView::empty(addr),
    {
        let host = Host { addr, binds: Vec::new(), streams: Vec::new() };
        assert(host@.binds =~= Map::empty());
        assert(host@.streams =~= Set::empty());
        host
    }

    /// The host's own address.
    pub fn addr(&self) -> (addr: IpAddr)
        ensures
            addr == self@.addr,
    {
        self.addr
    }

    /// The place of the entry bound to `addr`, if there is one.
    fn find(&self, addr: SocketAddr) -> (at: Option<usize>)
        requires
            self.wf(),
        ensures
            match at {
                Some(i) => i < self.binds.len() && self.binds[i as int].addr == addr
                    && self@.is_bound(addr) && self@.binds[addr] == listening(self.binds[i as int]),
                None => !self@.is_bound(addr),
            },
    {
        let mut i: usize = 0;
        while i < self.binds.len()
            invariant
                self.wf(),
                i <= self.binds.len(),
                forall|j: int| 0 <= j < i ==> (#[trigger] self.binds[j]).addr != addr,
            decreases self.binds.len() - i,
        {
            if self.binds[i].addr == addr {
                proof {
                    lemma_sock_at(self.binds@, i as int);
                }
                return Some(i);
            }
            i += 1;
        }
        None
    }

    /// Whether a listener is bound to `addr`.
    pub fn is_bound(&self, addr: SocketAddr) -> (bound: bool)
        requires
            self.wf(),
        ensures
            bound == self@.is_bound(addr),
    {
        self.find(addr).is_some()
    }

    /// The number of attempts that wait at `addr`.
    pub fn pending(&self, addr: SocketAddr) -> (count: usize)
        requires
            self.wf(),
        ensures
            count == self@.pending(addr).len(),
    {
        match self.find(addr) {
            Some(i) => self.binds[i].deque.len(),
            None => 0,
        }
    }

    /// Whether the connection `pair` is in the stream table.
    pub fn has_stream(&self, pair: SocketPair) -> (present: bool)
        ensures
            present == self@.streams.contains(pair),
    {
        let mut i: usize = 0;
        while i < self.streams.len()
            invariant
                i <= self.streams.len(),
                forall|j: int| 0 <= j < i ==> self.streams[j] != pair,
            decreases self.streams.len() - i,
        {
            if self.streams[i] == pair {
                assert(self.streams@.contains(pair));
                return true;
            }
            i += 1;
        }
        false
    }

    /// Binds a listener to `addr`, with a wake handle of its own.
    ///
    /// This fails exactly where a listener is bound to `addr` already, and
    /// then leaves the host as it was.
    pub fn bind(&mut self, addr: SocketAddr) -> (bound: Result<TcpListener, Error>)
        requires
            old(self).wf(),
        ensures
            final(self).wf(),
            match bound {
                Ok(listener) => {
                    &&& !old(self)@.is_bound(addr)
                    &&& listener.addr() == addr
                    &&& final(self)@ == old(self)@.bind(addr, listener.wake())
                },
                Err(error) => {
                    &&& old(self)@.is_bound(addr)
                    &&& error == Error::AddrInUse(addr)
                    &&& final(self)@ == old(self)@
                },
            },
    {
        if self.find(addr).is_some() {
            return Err(Error::AddrInUse(addr));
        }
        let notify = Arc::new(Notify::new());
        let sock = ServerSocket { addr, notify: share(&notify), deque: VecDeque::new() };
        proof {
            lemma_bind_table_push(self.binds@, sock);
        }
        self.binds.push(sock);
        Ok(TcpListener::new(addr, notify))
    }

    /// Releases `addr`: the listener's entry leaves the bind table, and the
    /// attempts that still waited there are dropped. Where nothing is bound
    /// to `addr`, nothing changes.
    pub fn unbind(&mut self, addr: SocketAddr)
        requires
            old(self).wf(),
        ensures
            final(self).wf(),
            final(self)@ == old(self)@.unbind(addr),
    {
        match self.find(addr) {
            Some(i) => {
                proof {
                    lemma_bind_table_remove(self.binds@, i as int);
                }
                self.binds.remove(i);
            },
            None => {
                assert(self@.binds.remove(addr) =~= self@.binds);
            },
        }
    }

    /// Queues a connection attempt for the listener bound to `dst` and wakes
    /// that listener. Where nothing is bound to `dst` the attempt is refused:
    /// it is handed back and the host stays as it was.
    pub fn syn(&mut self, dst: SocketAddr, syn: Syn) -> (queued: Result<(), Syn>)
        requires
            old(self).wf(),
        ensures
            final(self).wf(),
            match queued {
                Ok(_) => old(self)@.is_bound(dst) && final(self)@ == old(self)@.enqueue(dst, syn),
                Err(refused) => {
                    &&& !old(self)@.is_bound(dst)
                    &&& refused == syn
                    &&& final(self)@ == old(self)@
                },
            },
    {
        match self.find(dst) {
            Some(i) => {
                self.binds[i].deque.push_back(syn);
                proof {
                    lemma_bind_table_update(old(self).binds@, i as int, self.binds[i as int]);
                    assert(self.binds@ =~= old(self).binds@.update(i as int, self.binds[i as int]));
                }
                self.binds[i].notify.notify_one();
                Ok(())
            },
            None => Err(syn),
        }
    }

    /// Takes the oldest attempt that waits at `addr` from its queue. Nothing
    /// waits at an address to which nothing is bound.
    pub fn accept(&mut self, addr: SocketAddr) -> (next: Option<Syn>)
        requires
            old(self).wf(),
        ensures
            final(self).wf(),
            match next {
                Some(syn) => {
                    &&& old(self)@.pending(addr).len() > 0
                    &&& syn == old(self)@.pending(addr)[0]
                    &&& final(self)@ == old(self)@.dequeue(addr, 1)
                },
                None => old(self)@.pending(addr).len() == 0 && final(self)@ == old(self)@,
            },
    {
        let i = match self.find(addr) {
            Some(i) => i,
            None => {
                return None;
            },
        };
        let next = self.binds[i].deque.pop_front();
        proof {
            assert(self.binds@ =~= old(self).binds@.update(i as int, self.binds[i as int]));
            lemma_bind_table_update(old(self).binds@, i as int, self.binds[i as int]);
            let before = old(self)@.pending(addr);
            if next.is_some() {
                assert(before.subrange(1, before.len() as int) =~= before.skip(1));
            } else {
                assert(self@.binds =~= old(self)@.binds);
            }
        }
        next
    }

    /// Registers the connection `pair` in the stream table and returns this
    /// host's end of it.
    pub fn new_stream(&mut self, pair: SocketPair) -> (stream: TcpStream)
        requires
            old(self).wf(),
        ensures
            final(self).wf(),
            final(self)@ == old(self)@.open_stream(pair),
            stream.pair() == pair,
    {
        if !self.has_stream(pair) {
            proof {
                self.streams@.lemma_push_to_set_commute(pair);
            }
            self.streams.push(pair);
        } else {
            assert(self@.streams.insert(pair) =~= self@.streams);
        }
        TcpStream::new(pair)
    }
}

} // verus!
