//! Values shared by the prober and the scanner.
use vstd::prelude::*;

verus! {

/// An IP address, held as the integer its octets spell in network order.
#[derive(Clone, Copy, Debug, PartialEq, Eq, Structural)]
pub enum IpAddress {
    V4(u32),
    V6(u128),
}

/// How one TCP connection attempt ended, as reported by whoever made it.
#[derive(Clone, Copy, Debug, PartialEq, Eq, Structural)]
pub enum ConnectOutcome {
    /// The handshake completed within the timeout.
    Connected,
    /// The peer (or the network) answered with an explicit refusal.
    Refused,
    /// Nothing came back before the timeout ran out.
    TimedOut,
    /// The attempt failed without an explicit refusal (no route, host unreachable).
    Unanswered,
}

/// The classification of one port of a scan.
#[derive(Clone, Copy, Debug, PartialEq, Eq, Structural)]
pub enum PortStatus {
    Open,
    Closed,
    Filtered,
    /// The session was cancelled before this port's probe resolved.
    Cancelled,
}

/// The status that a connection outcome stands for.
pub open spec fn status_of(o: ConnectOutcome) -> PortStatus {
    match o {
        ConnectOutcome::Connected => PortStatus::Open,
        ConnectOutcome::Refused => PortStatus::Closed,
        ConnectOutcome::TimedOut => PortStatus::Filtered,
        ConnectOutcome::Unanswered => PortStatus::Filtered,
    }
}

/// Classifies one connection attempt: a completed connection is open, an
/// explicit refusal is closed, and anything else is filtered.
pub fn classify_connect(o: ConnectOutcome) -> (s: PortStatus)
    ensures
        s == status_of(o),
        s == PortStatus::Open <==> o == ConnectOutcome::Connected,
        s == PortStatus::Closed <==> o == ConnectOutcome::Refused,
        s != PortStatus::Cancelled,
{
    match o {
        ConnectOutcome::Connected => PortStatus::Open,
        ConnectOutcome::Refused => PortStatus::Closed,
        ConnectOutcome::TimedOut => PortStatus::Filtered,
        ConnectOutcome::Unanswered => PortStatus::Filtered,
    }
}

/// One record of a scan: a port, its status and how long its probe took.
#[derive(Clone, Copy, Debug, PartialEq, Eq, Structural)]
pub struct ScanResult {
    pub port: u16,
    pub status: PortStatus,
    pub elapsed_ms: u64,
}

/// The IPv4 bounds of a range scan, when both ends are IPv4 addresses.
pub fn ipv4_bounds(min: IpAddress, max: IpAddress) -> (r: Option<(u32, u32)>)
    ensures
        r == match (min, max) {
            (IpAddress::V4(a), IpAddress::V4(b)) => Some((a, b)),
            _ => None::<(u32, u32)>,
        },
{
    match (min, max) {
        (IpAddress::V4(a), IpAddress::V4(b)) => Some((a, b)),
        _ => None,
    }
}

/// The address after `current` in a range that ends at `end` (inclusive),
/// or none once `current` is the last one; never wraps past the top.
pub fn next_in_range(current: u32, end: u32) -> (r: Option<u32>)
    ensures
        current < end ==> r == Some((current + 1) as u32),
        current >= end ==> r is None,
{
    if current < end {
        Some(current + 1)
    } else {
        None
    }
}

} // verus!
