//! The events that flow between the generator, the transports and the
//! statistics engine.
//!
//! Timestamps are nanoseconds on a monotonic clock owned by the caller; the
//! library never reads a clock itself. A request's timestamp is taken at the
//! moment of actual transmission, a response's at the moment of arrival.

use vstd::prelude::*;

verus! {

/// Whether a probe event records a sent request or a received response.
#[derive(Clone, Copy, Debug, PartialEq, Eq, Structural)]
pub enum ProbeKind {
    /// The event records a request leaving the transport.
    Request,
    /// The event records a response arriving at the transport.
    Response,
}

/// One probe event: a monotonically allocated index, a timestamp in
/// nanoseconds, and the direction.
#[derive(Clone, Copy, Debug, PartialEq, Eq, Structural)]
pub struct ProbeEvent {
    /// Probe index; the generator allocates these strictly increasingly.
    pub index: u64,
    /// Nanoseconds on the caller's monotonic clock.
    pub timestamp: u64,
    /// Request or response.
    pub kind: ProbeKind,
}

/// One round-trip-time measurement, produced exactly once per matched
/// request/response pair.
#[derive(Clone, Copy, Debug, PartialEq, Eq, Structural)]
pub struct RttSample {
    /// The probe index the sample belongs to.
    pub index: u64,
    /// Round-trip time in nanoseconds.
    pub rtt: u64,
}

/// The elapsed time from `req_ts` to `resp_ts`, zero if the clock reads
/// earlier at the response than at the request.
pub open spec fn rtt_of(resp_ts: u64, req_ts: u64) -> u64 {
    if resp_ts >= req_ts {
        (resp_ts - req_ts) as u64
    } else {
        0u64
    }
}

} // verus!
