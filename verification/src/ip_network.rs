//! Tagged union over the two address families.
use vstd::prelude::*;
use crate::IpNetworkError;
use crate::Ipv4Network;
use crate::Ipv6Network;
use crate::helpers::spec_bite_mask;
use crate::helpers::spec_bite_mask_u128;

verus! {

/// An IP address of either family, as a plain unsigned integer: 32 bits for
/// IPv4, 128 bits for IPv6.
#[derive(Clone, Copy, Debug, Eq, PartialEq, Structural, Hash)]
pub enum IpAddr {
    V4(u32),
    V6(u128),
}

/// Holds an IPv4 or an IPv6 network; a V4 and a V6 value are never equal,
/// even when their addresses coincide numerically.
#[derive(Clone, Copy, Debug, Eq, PartialEq, Structural, Hash, PartialOrd, Ord)]
pub enum IpNetwork {
    V4(Ipv4Network),
    V6(Ipv6Network),
}

impl IpNetwork {
    /// Constructs a new `IpNetwork` from an address and a netmask, choosing
    /// the variant by the address's family; the strict constructor of that
    /// family decides the result.
    pub fn new(network_address: IpAddr, netmask: u8) -> (r: Result<Self, IpNetworkError>)
        ensures
            match network_address {
                IpAddr::V4(ip) => {
                    &&& netmask > 32 ==> r == Err::<Self, IpNetworkError>(
                        IpNetworkError::NetmaskError(netmask),
                    )
                    &&& netmask <= 32 && ip & spec_bite_mask(netmask) != ip ==> r == Err::<
                        Self,
                        IpNetworkError,
                    >(IpNetworkError::HostBitsSet)
                    &&& netmask <= 32 && ip & spec_bite_mask(netmask) == ip ==> {
                        &&& r is Ok
                        &&& r->Ok_0 is V4
                        &&& r->Ok_0->V4_0.spec_network_address() == ip
                        &&& r->Ok_0->V4_0.spec_netmask() == netmask
                    }
                },
                IpAddr::V6(ip) => {
                    &&& netmask > 128 ==> r == Err::<Self, IpNetworkError>(
                        IpNetworkError::NetmaskError(netmask),
                    )
                    &&& netmask <= 128 && ip & spec_bite_mask_u128(netmask) != ip ==> r == Err::<
                        Self,
                        IpNetworkError,
                    >(IpNetworkError::HostBitsSet)
                    &&& netmask <= 128 && ip & spec_bite_mask_u128(netmask) == ip ==> {
                        &&& r is Ok
                        &&& r->Ok_0 is V6
                        &&& r->Ok_0->V6_0.spec_network_address() == ip
                        &&& r->Ok_0->V6_0.spec_netmask() == netmask
                    }
                },
            },
    {
        match network_address {
            IpAddr::V4(ip) => match Ipv4Network::new(ip, netmask) {
                Ok(network) => Ok(IpNetwork::V4(network)),
                Err(e) => Err(e),
            },
            IpAddr::V6(ip) => match Ipv6Network::new(ip, netmask) {
                Ok(network) => Ok(IpNetwork::V6(network)),
                Err(e) => Err(e),
            },
        }
    }

    /// Constructs a new `IpNetwork` from an address and a netmask, choosing
    /// the variant by the address's family and truncating any host bits;
    /// fails only if the netmask exceeds the family's width.
    pub fn new_truncate(network_address: IpAddr, netmask: u8) -> (r: Result<Self, IpNetworkError>)
        ensures
            match network_address {
                IpAddr::V4(ip) => {
                    &&& netmask > 32 ==> r == Err::<Self, IpNetworkError>(
                        IpNetworkError::NetmaskError(netmask),
                    )
                    &&& netmask <= 32 ==> {
                        &&& r is Ok
                        &&& r->Ok_0 is V4
                        &&& r->Ok_0->V4_0.spec_network_address() == ip & spec_bite_mask(netmask)
                        &&& r->Ok_0->V4_0.spec_netmask() == netmask
                    }
                },
                IpAddr::V6(ip) => {
                    &&& netmask > 128 ==> r == Err::<Self, IpNetworkError>(
                        IpNetworkError::NetmaskError(netmask),
                    )
                    &&& netmask <= 128 ==> {
                        &&& r is Ok
                        &&& r->Ok_0 is V6
                        &&& r->Ok_0->V6_0.spec_network_address() == ip & spec_bite_mask_u128(
                            netmask,
                        )
                        &&& r->Ok_0->V6_0.spec_netmask() == netmask
                    }
                },
            },
    {
        match network_address {
            IpAddr::V4(ip) => match Ipv4Network::new_truncate(ip, netmask) {
                Ok(network) => Ok(IpNetwork::V4(network)),
                Err(e) => Err(e),
            },
            IpAddr::V6(ip) => match Ipv6Network::new_truncate(ip, netmask) {
                Ok(network) => Ok(IpNetwork::V6(network)),
                Err(e) => Err(e),
            },
        }
    }

    /// Returns the network address, tagged with its family.
    pub fn network_address(&self) -> (r: IpAddr)
        ensures
            r == match *self {
                IpNetwork::V4(network) => IpAddr::V4(network.spec_network_address()),
                IpNetwork::V6(network) => IpAddr::V6(network.spec_network_address()),
            },
    {
        match self {
            IpNetwork::V4(network) => IpAddr::V4(network.network_address()),
            IpNetwork::V6(network) => IpAddr::V6(network.network_address()),
        }
    }

    /// Returns the netmask (prefix length) of the contained network.
    pub fn netmask(&self) -> (r: u8)
        ensures
            r == match *self {
                IpNetwork::V4(network) => network.spec_netmask(),
                IpNetwork::V6(network) => network.spec_netmask(),
            },
    {
        match self {
            IpNetwork::V4(network) => network.netmask(),
            IpNetwork::V6(network) => network.netmask(),
        }
    }

    /// Returns `true` iff this holds an `Ipv4Network`.
    pub fn is_ipv4(&self) -> (r: bool)
        ensures
            r == (*self is V4),
    {
        match self {
            IpNetwork::V4(_) => true,
            IpNetwork::V6(_) => false,
        }
    }

    /// Returns `true` iff this holds an `Ipv6Network`.
    pub fn is_ipv6(&self) -> (r: bool)
        ensures
            r == (*self is V6),
    {
        !self.is_ipv4()
    }

    /// Returns `true` iff the network contains the address; an address of
    /// the other family is never contained.
    pub fn contains(&self, ip: IpAddr) -> (r: bool)
        ensures
            r == match (*self, ip) {
                (IpNetwork::V4(network), IpAddr::V4(a)) => network.spec_contains(a),
                (IpNetwork::V6(network), IpAddr::V6(a)) => network.spec_contains(a),
                _ => false,
            },
    {
        match (self, ip) {
            (IpNetwork::V4(network), IpAddr::V4(a)) => network.contains(a),
            (IpNetwork::V6(network), IpAddr::V6(a)) => network.contains(a),
            _ => false,
        }
    }

    /// Returns `true` iff the contained network is part of its family's
    /// multicast range.
    pub fn is_multicast(&self) -> (r: bool)
        ensures
            r == match *self {
                IpNetwork::V4(network) => network.spec_is_multicast(),
                IpNetwork::V6(network) => network.spec_is_multicast(),
            },
    {
        match self {
            IpNetwork::V4(network) => network.is_multicast(),
            IpNetwork::V6(network) => network.is_multicast(),
        }
    }

    /// Returns `true` iff the contained network is part of its family's
    /// range reserved for documentation.
    pub fn is_documentation(&self) -> (r: bool)
        ensures
            r == match *self {
                IpNetwork::V4(network) => network.spec_is_documentation(),
                IpNetwork::V6(network) => network.spec_is_documentation(),
            },
    {
        match self {
            IpNetwork::V4(network) => network.is_documentation(),
            IpNetwork::V6(network) => network.is_documentation(),
        }
    }

    /// Returns `true` iff the contained network lies inside its family's
    /// loopback range.
    pub fn is_loopback(&self) -> (r: bool)
        ensures
            r == match *self {
                IpNetwork::V4(network) => network.spec_is_loopback(),
                IpNetwork::V6(network) => network.spec_is_loopback(),
            },
    {
        match self {
            IpNetwork::V4(network) => network.is_loopback(),
            IpNetwork::V6(network) => network.is_loopback(),
        }
    }

    /// Returns `true` iff the contained network appears to be globally
    /// routable, by its family's rules.
    pub fn is_global(&self) -> (r: bool)
        ensures
            r == match *self {
                IpNetwork::V4(network) => network.spec_is_global(),
                IpNetwork::V6(network) => network.spec_is_global(),
            },
    {
        match self {
            IpNetwork::V4(network) => network.is_global(),
            IpNetwork::V6(network) => network.is_global(),
        }
    }
}

impl IpNetwork {
    /// Constructs the single-address network of the address's own family:
    /// /32 for IPv4, /128 for IPv6.
    pub fn from_address(ip: IpAddr) -> (r: Self)
        ensures
            match ip {
                IpAddr::V4(a) => r is V4 && r->V4_0.spec_network_address() == a
                    && r->V4_0.spec_netmask() == 32,
                IpAddr::V6(a) => r is V6 && r->V6_0.spec_network_address() == a
                    && r->V6_0.spec_netmask() == 128,
            },
    {
        match ip {
            IpAddr::V4(a) => IpNetwork::V4(Ipv4Network::from_address(a)),
            IpAddr::V6(a) => IpNetwork::V6(Ipv6Network::from_address(a)),
        }
    }
}

impl From<Ipv4Network> for IpNetwork {
    /// Wraps an IPv4 network into the tagged union.
    fn from(network: Ipv4Network) -> (r: Self) {
        IpNetwork::V4(network)
    }
}

impl vstd::std_specs::convert::FromSpecImpl<Ipv4Network> for IpNetwork {
    open spec fn obeys_from_spec() -> bool {
        true
    }

    open spec fn from_spec(t: Ipv4Network) -> Self {
        IpNetwork::V4(t)
    }
}

impl From<Ipv6Network> for IpNetwork {
    /// Wraps an IPv6 network into the tagged union.
    fn from(network: Ipv6Network) -> (r: Self) {
        IpNetwork::V6(network)
    }
}

impl vstd::std_specs::convert::FromSpecImpl<Ipv6Network> for IpNetwork {
    open spec fn obeys_from_spec() -> bool {
        true
    }

    open spec fn from_spec(t: Ipv6Network) -> Self {
        IpNetwork::V6(t)
    }
}

} // verus!
