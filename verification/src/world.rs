//! The simulated environment: every host, and which of them is running.

use crate::host::Host;
use crate::host::HostView;
use crate::host::Syn;
use crate::net::addr::IpAddr;
use crate::net::addr::SocketAddr;
use crate::net::addr::SocketPair;
use crate::net::tcp::stream::TcpStream;
use vstd::prelude::*;

verus! {

/// The environment as contracts see it.
pub struct WorldView {
    /// The registry of hosts, each under its own address.
    pub hosts: Map<IpAddr, HostView>,
    /// The host on whose behalf code runs at the moment, if any.
    pub current: Option<IpAddr>,
    /// The simulated time, in steps of the scheduler since the epoch.
    pub ticks: nat,
}

impl WorldView {
    /// Some registered host is running.
    pub open spec fn running(self) -> bool {
        self.current matches Some(addr) && self.hosts.contains_key(addr)
    }

    /// The state of the host that is running.
    pub open spec fn host(self) -> HostView {
        self.hosts[self.current.unwrap()]
    }

    /// A listener is bound to `addr` on the host that `addr` names.
    pub open spec fn listens(self, addr: SocketAddr) -> bool {
        self.hosts.contains_key(addr.ip) && self.hosts[addr.ip].is_bound(addr)
    }

    /// The environment with the state of the running host replaced.
    pub open spec fn with_host(self, host: HostView) -> WorldView {
        WorldView { hosts: self.hosts.insert(self.current.unwrap(), host), ..self }
    }

    /// The environment with the state of the host at `addr` replaced.
    pub open spec fn with_host_at(self, addr: IpAddr, host: HostView) -> WorldView {
        WorldView { hosts: self.hosts.insert(addr, host), ..self }
    }

    /// Replacing the running host's state keeps that host running, is read
    /// back unchanged, and hides an earlier replacement.
    pub proof fn lemma_with_host(self, first: HostView, second: HostView)
        requires
            self.running(),
        ensures
            self.with_host(first).running(),
            self.with_host(first).host() == first,
            self.with_host(first).with_host(second) == self.with_host(second),
            self.with_host(self.host()) == self,
    {
        assert(self.with_host(first).with_host(second).hosts =~= self.with_host(second).hosts);
        assert(self.with_host(self.host()).hosts =~= self.hosts);
    }
}

spec fn has_host(hosts: Seq<Host>, addr: IpAddr) -> bool {
    exists|i: int| 0 <= i < hosts.len() && (#[trigger] hosts[i])@.addr == addr
}

spec fn host_at(hosts: Seq<Host>, addr: IpAddr) -> int {
    choose|i: int| 0 <= i < hosts.len() && (#[trigger] hosts[i])@.addr == addr
}

/// No two hosts share an address.
spec fn distinct_hosts(hosts: Seq<Host>) -> bool {
    forall|i: int, j: int|
        0 <= i < hosts.len() && 0 <= j < hosts.len() && i != j ==> (#[trigger] hosts[i])@.addr != (
        #[trigger] hosts[j])@.addr
}

spec fn registry(hosts: Seq<Host>) -> Map<IpAddr, HostView> {
    Map::new(|addr: IpAddr| has_host(hosts, addr), |addr: IpAddr| hosts[host_at(hosts, addr)]@)
}

/// Where no two hosts share an address, a host is found at its own place.
proof fn lemma_host_at(hosts: Seq<Host>, i: int)
    requires
        distinct_hosts(hosts),
        0 <= i < hosts.len(),
    ensures
        has_host(hosts, hosts[i]@.addr),
        host_at(hosts, hosts[i]@.addr) == i,
        registry(hosts).contains_key(hosts[i]@.addr),
        registry(hosts)[hosts[i]@.addr] == hosts[i]@,
{
}

/// A new host at the end, with an address that was free, adds that address
/// to the registry and changes nothing else in it.
proof fn lemma_registry_push(hosts: Seq<Host>, host: Host)
    requires
        distinct_hosts(hosts),
        !has_host(hosts, host@.addr),
    ensures
        distinct_hosts(hosts.push(host)),
        registry(hosts.push(host)) == registry(hosts).insert(host@.addr, host@),
{
    let after = hosts.push(host);
    assert forall|i: int, j: int|
        0 <= i < after.len() && 0 <= j < after.len() && i != j implies (#[trigger] after[i])@.addr
        != (#[trigger] after[j])@.addr by {
        if i < hosts.len() && j < hosts.len() {
            assert(hosts[i]@.addr != hosts[j]@.addr);
        } else if i < hosts.len() {
            assert(hosts[i]@.addr == after[i]@.addr);
        } else {
            assert(hosts[j]@.addr == after[j]@.addr);
        }
    }
    assert forall|addr: IpAddr|
        has_host(after, addr) <==> (has_host(hosts, addr) || addr == host@.addr) by {
        if has_host(hosts, addr) {
            let i = host_at(hosts, addr);
            assert(after[i]@.addr == addr);
        }
        if addr == host@.addr {
            assert(after[hosts.len() as int]@.addr == addr);
        }
        if has_host(after, addr) {
            let i = host_at(after, addr);
            if i < hosts.len() {
                assert(hosts[i]@.addr == addr);
            }
        }
    }
    assert forall|addr: IpAddr| has_host(after, addr) implies #[trigger] registry(after)[addr]
        == registry(hosts).insert(host@.addr, host@)[addr] by {
        let i = host_at(after, addr);
        lemma_host_at(after, i);
        if i < hosts.len() {
            assert(hosts[i]@.addr == addr);
            lemma_host_at(hosts, i);
        }
    }
    assert(registry(after) =~= registry(hosts).insert(host@.addr, host@));
}

/// Changing the state of the host at `at`, not its address, changes what its
/// address holds in the registry and nothing else.
proof fn lemma_registry_update(hosts: Seq<Host>, at: int, host: Host)
    requires
        distinct_hosts(hosts),
        0 <= at < hosts.len(),
        host@.addr == hosts[at]@.addr,
    ensures
        distinct_hosts(hosts.update(at, host)),
        registry(hosts.update(at, host)) == registry(hosts).insert(host@.addr, host@),
{
    let after = hosts.update(at, host);
    assert forall|i: int| 0 <= i < after.len() implies (#[trigger] after[i])@.addr
        == hosts[i]@.addr by {}
    assert forall|i: int, j: int|
        0 <= i < after.len() && 0 <= j < after.len() && i != j implies (#[trigger] after[i])@.addr
        != (#[trigger] after[j])@.addr by {
        assert(hosts[i]@.addr != hosts[j]@.addr);
    }
    assert forall|addr: IpAddr| has_host(after, addr) <==> has_host(hosts, addr) by {
        if has_host(after, addr) {
            let i = host_at(after, addr);
            assert(hosts[i]@.addr == addr);
        }
        if has_host(hosts, addr) {
            let i = host_at(hosts, addr);
            assert(after[i]@.addr == addr);
        }
    }
    lemma_host_at(hosts, at);
    assert forall|addr: IpAddr| has_host(after, addr) implies #[trigger] registry(after)[addr]
        == registry(hosts).insert(host@.addr, host@)[addr] by {
        let i = host_at(after, addr);
        lemma_host_at(after, i);
        assert(hosts[i]@.addr == addr);
        lemma_host_at(hosts, i);
    }
    assert(registry(after) =~= registry(hosts).insert(host@.addr, host@));
}

/// The simulated environment: the registry of hosts and the marker of the
/// host on whose behalf code runs at the moment.
pub struct World {
    hosts: Vec<Host>,
    current: Option<IpAddr>,
    ticks: u64,
}

impl View for World {
    type V = WorldView;

    closed spec fn view(&self) -> WorldView {
        WorldView {
            hosts: registry(self.hosts@),
            current: self.current,
            ticks: self.ticks as nat,
        }
    }
}

impl World {
    /// No two hosts share an address, and every host's own tables are in
    /// order.
    pub closed spec fn wf(&self) -> bool {
        &&& distinct_hosts(self.hosts@)
        &&& forall|i: int| 0 <= i < self.hosts.len() ==> (#[trigger] self.hosts[i]).wf()
    }

    /// Every host is registered under its own address.
    pub proof fn lemma_keyed_by_addr(&self, addr: IpAddr)
        requires
            self.wf(),
            self@.hosts.contains_key(addr),
        ensures
            self@.hosts[addr].addr == addr,
    {
        lemma_host_at(self.hosts@, host_at(self.hosts@, addr));
    }

    /// An environment without hosts, in which no host is running and no
    /// time has passed.
    pub fn new() -> (world: World)
        ensures
            world.wf(),
            world@ == (WorldView { hosts: Map::empty(), current: None, ticks: 0 }),
    {
        let world = World { hosts: Vec::new(), current: None, ticks: 0 };
        assert(world@.hosts =~= Map::empty());
        world
    }

    /// The place of the host with the address `addr`, if it is registered.
    fn find(&self, addr: IpAddr) -> (at: Option<usize>)
        requires
            self.wf(),
        ensures
            match at {
                Some(i) => i < self.hosts.len() && self.hosts[i as int]@.addr == addr
                    && self@.hosts.contains_key(addr) && self@.hosts[addr] == self.hosts[i as int]@,
                None => !self@.hosts.contains_key(addr),
            },
    {
        let mut i: usize = 0;
        while i < self.hosts.len()
            invariant
                self.wf(),
                i <= self.hosts.len(),
                forall|j: int| 0 <= j < i ==> (#[trigger] self.hosts[j])@.addr != addr,
            decreases self.hosts.len() - i,
        {
            if self.hosts[i].addr() == addr {
                proof {
                    lemma_host_at(self.hosts@, i as int);
                }
                return Some(i);
            }
            i += 1;
        }
        None
    }

    /// Registers a host with the address `addr`, on which nothing is bound.
    /// Returns `false`, and changes nothing, where a host has that address
    /// already.
    pub fn register(&mut self, addr: IpAddr) -> (added: bool)
        requires
            old(self).wf(),
        ensures
            final(self).wf(),
            added == !old(self)@.hosts.contains_key(addr),
            final(self)@ == if added {
                old(self)@.with_host_at(addr, HostView::empty(addr))
            } else {
                old(self)@
            },
    {
        if self.find(addr).is_some() {
            return false;
        }
        let host = Host::new(addr);
        proof {
            lemma_registry_push(self.hosts@, host);
        }
        self.hosts.push(host);
        true
    }

    /// Makes the host at `addr` the one that is running. Returns `false`, and
    /// changes nothing, where no such host is registered.
    pub fn enter(&mut self, addr: IpAddr) -> (entered: bool)
        requires
            old(self).wf(),
        ensures
            final(self).wf(),
            entered == old(self)@.hosts.contains_key(addr),
            final(self)@ == if entered {
                WorldView { current: Some(addr), ..old(self)@ }
            } else {
                old(self)@
            },
    {
        if self.find(addr).is_some() {
            self.current = Some(addr);
            true
        } else {
            false
        }
    }

    /// Leaves the running host: afterwards no host is running.
    pub fn leave(&mut self)
        requires
            old(self).wf(),
        ensures
            final(self).wf(),
            final(self)@ == (WorldView { current: None, ..old(self)@ }),
    {
        self.current = None;
    }

    /// The simulated time, in steps since the epoch.
    pub fn ticks(&self) -> (ticks: u64)
        ensures
            ticks == self@.ticks,
    {
        self.ticks
    }

    /// Advances the simulated time by one step. Returns `false`, and changes
    /// nothing, where the counter of steps is at its end.
    pub fn tick(&mut self) -> (advanced: bool)
        requires
            old(self).wf(),
        ensures
            final(self).wf(),
            advanced == (old(self)@.ticks < u64::MAX),
            final(self)@ == if advanced {
                WorldView { ticks: old(self)@.ticks + 1, ..old(self)@ }
            } else {
                old(self)@
            },
    {
        if self.ticks < u64::MAX {
            self.ticks = self.ticks + 1;
            true
        } else {
            false
        }
    }

    /// The address of the host that is running, if any.
    pub fn current(&self) -> (current: Option<IpAddr>)
        ensures
            current == self@.current,
    {
        self.current
    }

    /// Whether code runs on behalf of a registered host.
    pub fn is_running(&self) -> (running: bool)
        requires
            self.wf(),
        ensures
            running == self@.running(),
    {
        match self.current {
            Some(addr) => self.find(addr).is_some(),
            None => false,
        }
    }

    /// The host at `addr`, if one is registered.
    pub fn host(&self, addr: IpAddr) -> (host: Option<&Host>)
        requires
            self.wf(),
        ensures
            match host {
                Some(host) => self@.hosts.contains_key(addr) && host@ == self@.hosts[addr]
                    && host.wf(),
                None => !self@.hosts.contains_key(addr),
            },
    {
        match self.find(addr) {
            Some(i) => Some(&self.hosts[i]),
            None => None,
        }
    }

    /// The host that is running.
    pub fn current_host(&self) -> (host: &Host)
        requires
            self.wf(),
            self@.running(),
        ensures
            host.wf(),
            host@ == self@.host(),
    {
        let at = self.find(self.current.unwrap());
        &self.hosts[at.unwrap()]
    }

    /// Delivers a connection attempt to the listener bound to `dst` on the
    /// host whose address `dst` names, and wakes that listener. Where there
    /// is no such host, or nothing is bound to `dst` on it, the attempt is
    /// refused: it is handed back and nothing changes.
    pub fn syn(&mut self, dst: SocketAddr, syn: Syn) -> (queued: Result<(), Syn>)
        requires
            old(self).wf(),
        ensures
            final(self).wf(),
            match queued {
                Ok(_) => {
                    &&& old(self)@.listens(dst)
                    &&& final(self)@ == old(self)@.with_host_at(
                        dst.ip,
                        old(self)@.hosts[dst.ip].enqueue(dst, syn),
                    )
                },
                Err(refused) => {
                    &&& !old(self)@.listens(dst)
                    &&& refused == syn
                    &&& final(self)@ == old(self)@
                },
            },
    {
        match self.find(dst.ip) {
            Some(i) => {
                let queued = self.hosts[i].syn(dst, syn);
                proof {
                    assert(self.hosts@ =~= old(self).hosts@.update(i as int, self.hosts[i as int]));
                    lemma_registry_update(old(self).hosts@, i as int, self.hosts[i as int]);
                    if queued.is_err() {
                        assert(self@.hosts =~= old(self)@.hosts);
                    }
                }
                queued
            },
            None => Err(syn),
        }
    }

    /// Registers the connection `pair` in the stream table of the host that
    /// is running, and returns that host's end of it.
    pub fn new_stream(&mut self, pair: SocketPair) -> (stream: TcpStream)
        requires
            old(self).wf(),
            old(self)@.running(),
        ensures
            final(self).wf(),
            final(self)@ == old(self)@.with_host(old(self)@.host().open_stream(pair)),
            stream.pair() == pair,
    {
        let host = self.current_host_mut();
        host.new_stream(pair)
    }

    /// The host that is running, to be changed in place. The environment
    /// stays in order as long as the host does and keeps its address.
    pub(crate) fn current_host_mut(&mut self) -> (host: &mut Host)
        requires
            old(self).wf(),
            old(self)@.running(),
        ensures
            host.wf(),
            host@ == old(self)@.host(),
            final(host).wf() && final(host)@.addr == host@.addr ==> {
                &&& final(self).wf()
                &&& final(self)@ == old(self)@.with_host(final(host)@)
            },
    {
        let at = self.find(self.current.unwrap());
        let i = at.unwrap();
        proof {
            assert forall|host: Host| host@.addr == self.hosts[i as int]@.addr implies registry(
                #[trigger] self.hosts@.update(i as int, host),
            ) == registry(self.hosts@).insert(host@.addr, host@) && distinct_hosts(
                self.hosts@.update(i as int, host),
            ) by {
                lemma_registry_update(self.hosts@, i as int, host);
            }
        }
        &mut self.hosts[i]
    }
}

} // verus!
