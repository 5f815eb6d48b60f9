//! A deterministic simulator of link faults and connection establishment.
//!
//! Hosts live in a [`world::World`], each with the bind table, the queues of
//! connection attempts and the stream table of [`host::Host`]. A
//! [`net::tcp::listener::TcpListener`] binds an address on the host that is
//! running and accepts the attempts queued for it. Links between hosts are
//! described by the types of [`config`], spans of simulated time by
//! [`time`]. What is taken on trust about the wake and acknowledgment
//! primitives stands in [`sync`].

pub mod config;
pub mod error;
pub mod host;
pub mod net;
pub mod sync;
pub mod time;
pub mod world;
