use simnet::error::Error;
use simnet::host::Host;
use simnet::host::Syn;
use simnet::net::addr::IpAddr;
use simnet::net::addr::SocketAddr;
use simnet::net::addr::SocketPair;
use simnet::net::tcp::listener::TcpListener;
use simnet::world::World;
use std::future::Future;
use std::sync::Arc;
use std::task::Context;
use std::task::Poll;
use std::task::Wake;
use std::task::Waker;
use tokio::sync::oneshot;
use tokio::sync::oneshot::error::TryRecvError;
use tokio::sync::Notify;

const A: IpAddr = IpAddr::V4(0xC0A8_0001);
const B: IpAddr = IpAddr::V4(0xC0A8_0002);
const ANY: IpAddr = IpAddr::V4(0);

struct Idle;

impl Wake for Idle {
    fn wake(self: Arc<Self>) {}
}

/// Whether a wait on `handle` would end at once.
fn woken(handle: &Notify) -> bool {
    let waker = Waker::from(Arc::new(Idle));
    let mut cx = Context::from_waker(&waker);
    let mut wait = Box::pin(handle.notified());
    matches!(wait.as_mut().poll(&mut cx), Poll::Ready(()))
}

fn world_on(hosts: &[IpAddr], current: IpAddr) -> World {
    let mut world = World::new();
    for host in hosts {
        assert!(world.register(*host));
    }
    assert!(world.enter(current));
    world
}

fn attempt(from: SocketAddr) -> (Syn, oneshot::Receiver<()>) {
    let (ack, syn_ack) = oneshot::channel();
    (Syn { origin: from, ack }, syn_ack)
}

#[test]
fn a_wildcard_bind_resolves_to_the_running_host() {
    let mut world = world_on(&[A, B], A);
    let listener = TcpListener::bind(&mut world, SocketAddr::new(ANY, 80)).unwrap();
    assert_eq!(listener.local_addr(), Ok(SocketAddr::new(A, 80)));
    assert!(world.current_host().is_bound(SocketAddr::new(A, 80)));
    assert!(!world.current_host().is_bound(SocketAddr::new(ANY, 80)));
    assert!(!world.host(B).unwrap().is_bound(SocketAddr::new(A, 80)));
    assert!(!world.host(B).unwrap().is_bound(SocketAddr::new(B, 80)));
}

#[test]
fn a_wildcard_bind_of_the_other_family_resolves_too() {
    let mut world = world_on(&[A], A);
    let listener = TcpListener::bind(&mut world, SocketAddr::new(IpAddr::V6(0), 443)).unwrap();
    assert_eq!(listener.local_addr(), Ok(SocketAddr::new(A, 443)));
}

#[test]
fn a_bind_takes_no_simulated_time() {
    let mut world = world_on(&[A], A);
    assert!(world.tick());
    let _listener = TcpListener::bind(&mut world, SocketAddr::new(ANY, 80)).unwrap();
    assert_eq!(world.ticks(), 1);
}

#[test]
fn the_second_bind_to_an_address_fails() {
    let mut world = world_on(&[A, B], A);
    let _first = TcpListener::bind(&mut world, SocketAddr::new(ANY, 80)).unwrap();
    let second = TcpListener::bind(&mut world, SocketAddr::new(ANY, 80));
    assert_eq!(second.err(), Some(Error::AddrInUse(SocketAddr::new(A, 80))));
    assert!(world.current_host().is_bound(SocketAddr::new(A, 80)));
}

#[test]
fn another_port_and_another_host_can_still_bind() {
    let mut world = world_on(&[A, B], A);
    let _first = TcpListener::bind(&mut world, SocketAddr::new(ANY, 80)).unwrap();
    assert!(TcpListener::bind(&mut world, SocketAddr::new(ANY, 81)).is_ok());
    assert!(world.enter(B));
    let other = TcpListener::bind(&mut world, SocketAddr::new(ANY, 80)).unwrap();
    assert_eq!(other.local_addr(), Ok(SocketAddr::new(B, 80)));
}

#[test]
fn a_closed_listener_frees_its_address() {
    let mut world = Some(world_on(&[A], A));
    let first = TcpListener::bind(world.as_mut().unwrap(), SocketAddr::new(ANY, 80)).unwrap();
    assert!(TcpListener::bind(world.as_mut().unwrap(), SocketAddr::new(ANY, 80)).is_err());
    first.close(&mut world);
    assert!(!world.as_ref().unwrap().current_host().is_bound(SocketAddr::new(A, 80)));
    let again = TcpListener::bind(world.as_mut().unwrap(), SocketAddr::new(ANY, 80)).unwrap();
    assert_eq!(again.local_addr(), Ok(SocketAddr::new(A, 80)));
}

#[test]
fn closing_after_the_world_is_gone_does_nothing() {
    let mut world = world_on(&[A], A);
    let listener = TcpListener::bind(&mut world, SocketAddr::new(ANY, 80)).unwrap();
    drop(world);
    let mut gone: Option<World> = None;
    listener.close(&mut gone);
    assert!(gone.is_none());
}

#[test]
fn closing_drops_the_attempts_that_still_waited() {
    let mut world = Some(world_on(&[A, B], A));
    let listener = TcpListener::bind(world.as_mut().unwrap(), SocketAddr::new(ANY, 80)).unwrap();
    let (syn, mut syn_ack) = attempt(SocketAddr::new(B, 49152));
    assert!(world.as_mut().unwrap().syn(SocketAddr::new(A, 80), syn).is_ok());
    assert_eq!(syn_ack.try_recv(), Err(TryRecvError::Empty));
    listener.close(&mut world);
    assert_eq!(syn_ack.try_recv(), Err(TryRecvError::Closed));
    assert_eq!(world.as_ref().unwrap().current_host().pending(SocketAddr::new(A, 80)), 0);
}

#[test]
fn accept_without_attempts_asks_to_wait() {
    let mut world = world_on(&[A], A);
    let listener = TcpListener::bind(&mut world, SocketAddr::new(ANY, 80)).unwrap();
    assert!(listener.accept(&mut world).is_none());
    assert!(listener.accept(&mut world).is_none());
    assert!(!woken(&listener.notify()));
}

#[test]
fn an_attempt_wakes_the_listener() {
    let mut world = world_on(&[A, B], A);
    let listener = TcpListener::bind(&mut world, SocketAddr::new(ANY, 80)).unwrap();
    let other = TcpListener::bind(&mut world, SocketAddr::new(ANY, 81)).unwrap();
    let (syn, _syn_ack) = attempt(SocketAddr::new(B, 49152));
    assert!(world.syn(SocketAddr::new(A, 80), syn).is_ok());
    assert!(woken(&listener.notify()));
    assert!(!woken(&other.notify()));
}

#[test]
fn attempts_that_arrive_while_nobody_waits_wake_once() {
    let mut world = world_on(&[A, B], A);
    let listener = TcpListener::bind(&mut world, SocketAddr::new(ANY, 80)).unwrap();
    let (first, _first_ack) = attempt(SocketAddr::new(B, 49152));
    let (second, _second_ack) = attempt(SocketAddr::new(B, 49153));
    assert!(world.syn(SocketAddr::new(A, 80), first).is_ok());
    assert!(world.syn(SocketAddr::new(A, 80), second).is_ok());
    assert!(woken(&listener.notify()));
    assert!(!woken(&listener.notify()));
    assert!(listener.accept(&mut world).is_some());
    assert!(listener.accept(&mut world).is_some());
    assert!(listener.accept(&mut world).is_none());
}

#[test]
fn an_attempt_at_an_unbound_address_is_refused() {
    let mut world = world_on(&[A, B], A);
    let _listener = TcpListener::bind(&mut world, SocketAddr::new(ANY, 80)).unwrap();
    let (syn, _syn_ack) = attempt(SocketAddr::new(B, 49152));
    let refused = world.syn(SocketAddr::new(A, 81), syn).unwrap_err();
    assert_eq!(refused.origin, SocketAddr::new(B, 49152));
    let unknown = world.syn(SocketAddr::new(IpAddr::V4(9), 80), refused).unwrap_err();
    let other_host = world.syn(SocketAddr::new(B, 80), unknown).unwrap_err();
    assert_eq!(other_host.origin, SocketAddr::new(B, 49152));
    assert_eq!(world.current_host().pending(SocketAddr::new(A, 80)), 0);
}

#[test]
fn a_connection_is_established_end_to_end() {
    let mut world = world_on(&[A, B], A);
    let listener = TcpListener::bind(&mut world, SocketAddr::new(ANY, 80)).unwrap();
    let server = listener.local_addr().unwrap();
    assert_eq!(server, SocketAddr::new(A, 80));

    assert!(world.enter(B));
    let client = SocketAddr::new(B, 49152);
    let client_end = world.new_stream(SocketPair::new(client, server));
    let (syn, mut syn_ack) = attempt(client);
    assert!(world.syn(server, syn).is_ok());
    assert_eq!(syn_ack.try_recv(), Err(TryRecvError::Empty));

    assert!(world.enter(A));
    let (server_end, remote) = listener.accept(&mut world).unwrap();
    assert_eq!(remote, client);
    assert_eq!(syn_ack.try_recv(), Ok(()));
    assert_eq!(server_end.pair(), SocketPair { local: server, remote: client });
    assert_eq!(server_end.local_addr(), server);
    assert_eq!(server_end.peer_addr(), client);
    assert_eq!(client_end.pair(), server_end.pair().mirrored());
    assert!(world.host(A).unwrap().has_stream(SocketPair::new(server, client)));
    assert!(world.host(B).unwrap().has_stream(SocketPair::new(client, server)));
    assert!(!world.host(A).unwrap().has_stream(SocketPair::new(client, server)));
    assert_eq!(world.host(A).unwrap().pending(server), 0);
    assert!(listener.accept(&mut world).is_none());
}

#[test]
fn a_cancelled_attempt_is_passed_over() {
    let mut world = world_on(&[A, B], A);
    let listener = TcpListener::bind(&mut world, SocketAddr::new(ANY, 80)).unwrap();
    let server = SocketAddr::new(A, 80);
    let (cancelled, cancelled_ack) = attempt(SocketAddr::new(B, 49152));
    let (live, mut live_ack) = attempt(SocketAddr::new(B, 49153));
    assert!(world.syn(server, cancelled).is_ok());
    assert!(world.syn(server, live).is_ok());
    drop(cancelled_ack);

    let (stream, remote) = listener.accept(&mut world).unwrap();
    assert_eq!(remote, SocketAddr::new(B, 49153));
    assert_eq!(stream.pair(), SocketPair::new(server, SocketAddr::new(B, 49153)));
    assert_eq!(live_ack.try_recv(), Ok(()));
    assert!(world.current_host().has_stream(SocketPair::new(server, SocketAddr::new(B, 49153))));
    assert!(!world.current_host().has_stream(SocketPair::new(server, SocketAddr::new(B, 49152))));
    assert_eq!(world.current_host().pending(server), 0);
    assert!(world.current_host().is_bound(server));
}

#[test]
fn only_cancelled_attempts_leave_the_host_as_it_was() {
    let mut world = world_on(&[A, B], A);
    let listener = TcpListener::bind(&mut world, SocketAddr::new(ANY, 80)).unwrap();
    let server = SocketAddr::new(A, 80);
    for port in [49152, 49153, 49154] {
        let (syn, syn_ack) = attempt(SocketAddr::new(B, port));
        assert!(world.syn(server, syn).is_ok());
        drop(syn_ack);
    }
    assert_eq!(world.current_host().pending(server), 3);
    assert!(listener.accept(&mut world).is_none());
    assert_eq!(world.current_host().pending(server), 0);
    assert!(world.current_host().is_bound(server));
    for port in [49152, 49153, 49154] {
        assert!(!world.current_host().has_stream(SocketPair::new(server, SocketAddr::new(B, port))));
    }
}

#[test]
fn attempts_are_accepted_in_the_order_of_arrival() {
    let mut world = world_on(&[A, B], A);
    let listener = TcpListener::bind(&mut world, SocketAddr::new(ANY, 80)).unwrap();
    let server = SocketAddr::new(A, 80);
    let mut acks = Vec::new();
    for port in [49160, 49152, 49155, 49153] {
        let (syn, syn_ack) = attempt(SocketAddr::new(B, port));
        assert!(world.syn(server, syn).is_ok());
        acks.push(syn_ack);
    }
    drop(acks.remove(2));
    let mut order = Vec::new();
    while let Some((_, remote)) = listener.accept(&mut world) {
        order.push(remote.port);
    }
    assert_eq!(order, vec![49160, 49152, 49153]);
}

fn accept_order(cancelled: &[usize]) -> Vec<SocketAddr> {
    let mut world = world_on(&[A, B], A);
    let listener = TcpListener::bind(&mut world, SocketAddr::new(ANY, 80)).unwrap();
    let mut acks = Vec::new();
    for port in 49152..49162 {
        let (syn, syn_ack) = attempt(SocketAddr::new(B, port));
        assert!(world.syn(SocketAddr::new(A, 80), syn).is_ok());
        acks.push(Some(syn_ack));
    }
    for index in cancelled {
        acks[*index] = None;
    }
    let mut order = Vec::new();
    while let Some((_, remote)) = listener.accept(&mut world) {
        order.push(remote);
    }
    order
}

#[test]
fn the_same_events_give_the_same_accepts() {
    let first = accept_order(&[0, 3, 4, 9]);
    let second = accept_order(&[0, 3, 4, 9]);
    assert_eq!(first, second);
    assert_eq!(first.len(), 6);
    assert_eq!(first[0], SocketAddr::new(B, 49153));
    assert_eq!(first[5], SocketAddr::new(B, 49160));
}

#[test]
fn completing_a_handshake_depends_on_the_acknowledgment() {
    let mut host = Host::new(A);
    let server = SocketAddr::new(A, 80);
    let client = SocketAddr::new(B, 49152);
    let listener = host.bind(server).unwrap();
    assert!(listener.complete(&mut host, client, false).is_none());
    assert!(!host.has_stream(SocketPair::new(server, client)));
    let (stream, remote) = listener.complete(&mut host, client, true).unwrap();
    assert_eq!(remote, client);
    assert_eq!(stream.pair(), SocketPair::new(server, client));
    assert!(host.has_stream(SocketPair::new(server, client)));
    assert!(!host.has_stream(SocketPair::new(client, server)));
}

#[test]
fn accept_on_a_host_where_the_listener_is_not_bound_finds_nothing() {
    let mut world = world_on(&[A, B], A);
    let listener = TcpListener::bind(&mut world, SocketAddr::new(ANY, 80)).unwrap();
    let (syn, mut syn_ack) = attempt(SocketAddr::new(B, 49152));
    assert!(world.syn(SocketAddr::new(A, 80), syn).is_ok());
    assert!(world.enter(B));
    assert!(listener.accept(&mut world).is_none());
    assert_eq!(syn_ack.try_recv(), Err(TryRecvError::Empty));
    assert_eq!(world.host(A).unwrap().pending(SocketAddr::new(A, 80)), 1);
}
