//! Simulated TCP: listeners and the streams that they accept.

pub mod listener;
pub mod stream;
