//! A universal pinger library: wire codec for the echo protocol, ICMP
//! checksum and packet construction, TCP stream deframing, the in-flight
//! request matching engine, request generation pacing, and RTT aggregation.
//!
//! All socket I/O, channels and timers live outside this crate; the library
//! works on plain values (byte buffers, indices, timestamps in nanoseconds)
//! and states what each operation computes.

pub mod aggregate;
pub mod checksum;
pub mod codec;
pub mod framing;
pub mod generator;
pub mod icmp;
pub mod probe;
pub mod stats;
pub mod stream;

pub use codec::EchoHeader;
