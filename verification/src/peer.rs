use vstd::prelude::*;

verus! {

/// Network address of the request's peer, as plain numeric components.
#[derive(Clone, Copy, PartialEq, Eq, Structural, Debug)]
pub enum PeerIp {
    V4(u8, u8, u8, u8),
    V6(u16, u16, u16, u16, u16, u16, u16, u16),
}

/// Resolved socket address: an IP address and a port.
#[derive(Clone, Copy, PartialEq, Eq, Structural, Debug)]
pub struct PeerAddr {
    pub ip: PeerIp,
    pub port: u16,
}

/// Fallback address the accessors hand out when resolution failed: the
/// unspecified IPv4 address on port 8080. A leniency policy, not a claim
/// about the real peer.
pub open spec fn default_peer_addr() -> PeerAddr {
    PeerAddr { ip: PeerIp::V4(0, 0, 0, 0), port: 8080 }
}

/// Failure recorded when the peer address could not be resolved.
#[derive(Clone, Copy, PartialEq, Eq, Structural, Debug)]
pub enum PeerFailure {
    Unavailable,
}

/// Outcome of peer-address resolution: either a resolved socket address or a
/// recorded failure. Accessors never surface the failure; they fall back to
/// `default_peer_addr`.
#[derive(Clone, Copy, PartialEq, Eq, Structural, Debug)]
pub enum PeerInfo {
    Resolved(PeerAddr),
    Unresolved,
}

impl PeerInfo {
    /// The address this peer info stands for once the lenient fallback is
    /// applied: the resolved address, or the fixed default.
    pub open spec fn effective_addr(&self) -> PeerAddr {
        match *self {
            PeerInfo::Resolved(a) => a,
            PeerInfo::Unresolved => default_peer_addr(),
        }
    }

    pub fn addr(&self) -> (r: PeerAddr)
        ensures
            r == self.effective_addr(),
    {
        match *self {
            PeerInfo::Resolved(a) => a,
            PeerInfo::Unresolved => PeerAddr { ip: PeerIp::V4(0, 0, 0, 0), port: 8080 },
        }
    }
}

} // verus!
