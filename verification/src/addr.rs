//! Transport addresses as plain values.
use vstd::prelude::*;

verus! {

/// The address of a UDP endpoint.  An IP address is the number whose bytes,
/// the highest first, are those of the address.
#[derive(Debug, Copy, Clone, PartialEq, Eq, Hash, Structural)]
pub enum SocketAddr {
    V4 { ipv4: u32, port: u16 },
    V6 { ipv6: u128, port: u16, flowinfo: u32, scope_id: u32 },
}

impl SocketAddr {
    /// The address of the same family that lets the system choose both
    /// interface and port.
    pub open spec fn any(self) -> SocketAddr {
        match self {
            SocketAddr::V4 { .. } => SocketAddr::V4 { ipv4: 0, port: 0 },
            SocketAddr::V6 { .. } => SocketAddr::V6 { ipv6: 0, port: 0, flowinfo: 0, scope_id: 0 },
        }
    }

    /// The address to bind for a transfer with, or on behalf of, this
    /// endpoint: same family, interface and port chosen by the system.
    pub fn ephemeral(self) -> (addr: SocketAddr)
        ensures
            addr == self.any(),
    {
        match self {
            SocketAddr::V4 { .. } => SocketAddr::V4 { ipv4: 0, port: 0 },
            SocketAddr::V6 { .. } => SocketAddr::V6 { ipv6: 0, port: 0, flowinfo: 0, scope_id: 0 },
        }
    }
}

/// The address to bind is of the same family as the endpoint, with every
/// other part zero.
pub proof fn any_keeps_only_the_family(addr: SocketAddr)
    ensures
        addr is V4 <==> addr.any() is V4,
        addr.any() matches SocketAddr::V4 { ipv4, port } ==> ipv4 == 0 && port == 0,
        addr.any() matches SocketAddr::V6 { ipv6, port, flowinfo, scope_id } ==> ipv6 == 0 && port
            == 0 && flowinfo == 0 && scope_id == 0,
{
}

} // verus!
