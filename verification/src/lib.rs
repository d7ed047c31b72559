//! IPv4 and IPv6 CIDR network types with validated construction, containment
//! testing, classification predicates, subnet enumeration and a range-to-CIDR
//! summarizer.
//!
//! A network is an (address, prefix-length) pair whose host bits are all zero;
//! addresses are plain unsigned integers (`u32` for IPv4, `u128` for IPv6).
use vstd::prelude::*;

mod bitmath;
mod helpers;
mod ip_network;
mod ipv4_network;
mod ipv6_network;
/// General laws of the library, proved once for all values.
pub mod laws;
/// Textual CIDR notation: grammar, parsing and formatting.
pub mod text;
/// `Ipv4RangeIterator`, `Ipv4NetworkIterator` and `Ipv6NetworkIterator`.
pub mod iterator;
/// The binary wire form of a network, as database adapters marshal it.
pub mod wire;

pub use ip_network::IpAddr;
pub use ip_network::IpNetwork;
pub use ipv4_network::Ipv4Network;
pub use ipv4_network::spec_mergeable_v4;
pub use ipv6_network::Ipv6MulticastScope;
pub use ipv6_network::spec_mergeable_v6;
pub use ipv6_network::Ipv6Network;

pub use helpers::bit_length;
pub use helpers::get_bite_mask;
pub use helpers::get_bite_mask_u128;
pub use helpers::split_ip_netmask;

verus! {

/// Errors when creating new IPv4 or IPv6 networks.
#[derive(Clone, Copy, Debug, PartialEq, Eq, Structural, Hash)]
pub enum IpNetworkError {
    /// Network mask is bigger than possible for the given IP version
    /// (32 for IPv4, 128 for IPv6); carries the offending value.
    NetmaskError(u8),
    /// Host bits are set in the given network IP address.
    HostBitsSet,
}

/// Errors from IPv4 or IPv6 network parsing.
#[derive(Clone, Copy, Debug, PartialEq, Eq, Structural, Hash)]
pub enum IpNetworkParseError {
    /// Network mask is not a valid integer between 0 and 255.
    InvalidNetmaskFormat,
    /// Network address has invalid format (not X/Y).
    InvalidFormatError,
    /// Invalid IP address syntax (IPv4 or IPv6).
    AddrParseError,
    /// Error when creating the parsed IPv4 or IPv6 network.
    IpNetworkError(IpNetworkError),
}

} // verus!
