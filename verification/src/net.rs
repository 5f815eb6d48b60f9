//! Addresses and connection-oriented transport.

pub mod addr;
pub mod tcp;
