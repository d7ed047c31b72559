use ip_network::IpNetwork;
use ip_network::Ipv6MulticastScope;
use ip_network::IpNetworkError;
use ip_network::IpNetworkParseError;
use ip_network::Ipv4Network;
use ip_network::Ipv6Network;

fn v4(a: u8, b: u8, c: u8, d: u8) -> u32 {
    u32::from_be_bytes([a, b, c, d])
}

fn v6(s0: u16, s1: u16, s2: u16, s3: u16, s4: u16, s5: u16, s6: u16, s7: u16) -> u128 {
    let segs = [s0, s1, s2, s3, s4, s5, s6, s7];
    let mut out: u128 = 0;
    for seg in segs {
        out = (out << 16) | seg as u128;
    }
    out
}

fn return_test_ipv4_network() -> Ipv4Network {
    Ipv4Network::new(v4(192, 168, 0, 0), 16).unwrap()
}

fn return_test_ipv6_network() -> Ipv6Network {
    Ipv6Network::new(v6(0x2001, 0xdb8, 0, 0, 0, 0, 0, 0), 32).unwrap()
}

#[test]
fn is_ipv4() {
    let ip_network = IpNetwork::V4(return_test_ipv4_network());
    assert!(ip_network.is_ipv4());
    assert!(!ip_network.is_ipv6());
}

#[test]
fn is_ipv6() {
    let ip_network = IpNetwork::V6(return_test_ipv6_network());
    assert!(ip_network.is_ipv6());
    assert!(!ip_network.is_ipv4());
}

#[test]
fn parse_ipv4() {
    let ip_network: IpNetwork = "192.168.0.0/16".parse().unwrap();
    assert_eq!(ip_network, IpNetwork::V4(return_test_ipv4_network()));
}

#[test]
fn parse_ipv6() {
    let ip_network: IpNetwork = "2001:db8::/32".parse().unwrap();
    assert_eq!(ip_network, IpNetwork::V6(return_test_ipv6_network()));
}

#[test]
fn parse_empty() {
    let ip_network = "".parse::<IpNetwork>();
    assert!(ip_network.is_err());
    assert!(match ip_network.err().unwrap() {
        IpNetworkParseError::InvalidFormatError => true,
        _ => false,
    });
}

#[test]
fn parse_invalid_netmask() {
    let ip_network = "192.168.0.0/a".parse::<IpNetwork>();
    assert!(ip_network.is_err());
    assert!(match ip_network.err().unwrap() {
        IpNetworkParseError::InvalidNetmaskFormat => true,
        _ => false,
    });
}

#[test]
fn parse_invalid_ip() {
    let ip_network = "192.168.0.0a/16".parse::<IpNetwork>();
    assert!(ip_network.is_err());
    assert!(match ip_network.err().unwrap() {
        IpNetworkParseError::AddrParseError => true,
        _ => false,
    });
}

#[test]
fn parse_ipv4_host_bits_set() {
    let ip_network = "192.168.0.1/16".parse::<IpNetwork>();
    assert!(ip_network.is_err());
    assert!(match ip_network.err().unwrap() {
        IpNetworkParseError::IpNetworkError(_) => true,
        _ => false,
    });
}

#[test]
fn parse_ipv6_host_bits_set() {
    let ip_network = "2001:db8::1/32".parse::<IpNetwork>();
    assert!(ip_network.is_err());
    assert!(match ip_network.err().unwrap() {
        IpNetworkParseError::IpNetworkError(_) => true,
        _ => false,
    });
}

#[test]
fn format_ipv4() {
    let ip_network = IpNetwork::V4(return_test_ipv4_network());
    assert_eq!(ip_network.to_string(), "192.168.0.0/16");
}

#[test]
fn format_ipv6() {
    let ip_network = IpNetwork::V6(return_test_ipv6_network());
    assert_eq!(ip_network.to_string(), "2001:db8::/32");
}

#[test]
fn new() {
    let ip = v6(0xfc00, 0, 0, 0, 0, 0, 0, 0);
    let network = Ipv6Network::new(ip, 7).unwrap();
    assert_eq!(network.network_address(), v6(0xfc00, 0, 0, 0, 0, 0, 0, 0));
    assert_eq!(network.netmask(), 7);
}

#[test]
fn contains() {
    let ip_network = return_test_ipv6_network();
    assert!(!ip_network.contains(v6(
        0x2001, 0x0db7, 0xffff, 0xffff, 0xffff, 0xffff, 0xffff, 0xffff
    )));
    assert!(ip_network.contains(v6(0x2001, 0x0db8, 0, 0, 0, 0, 0, 0)));
    assert!(ip_network.contains(v6(
        0x2001, 0x0db8, 0xffff, 0xffff, 0xffff, 0xffff, 0xffff, 0xffff
    )));
    assert!(!ip_network.contains(v6(0x2001, 0x0db9, 0, 0, 0, 0, 0, 0)));
}

#[test]
fn supernet() {
    let ip_network = return_test_ipv6_network();
    assert_eq!(
        ip_network.supernet(),
        Some(Ipv6Network::new(v6(0x2001, 0x0db8, 0, 0, 0, 0, 0, 0), 31).unwrap())
    );
}

#[test]
fn subnets() {
    let mut subnets = return_test_ipv6_network().subnets().unwrap();
    assert_eq!(subnets.len(), 2);
    assert_eq!(
        subnets.next().unwrap(),
        Ipv6Network::new(v6(0x2001, 0x0db8, 0, 0, 0, 0, 0, 0), 33).unwrap()
    );
    assert_eq!(
        subnets.next().unwrap(),
        Ipv6Network::new(v6(0x2001, 0x0db8, 0x8000, 0, 0, 0, 0, 0), 33).unwrap()
    );
    assert!(subnets.next().is_none());
}

#[test]
fn subnets_with_prefix() {
    let ip_network = return_test_ipv6_network();
    let mut subnets = ip_network.subnets_with_prefix(34);
    assert_eq!(subnets.len(), 4);
    assert_eq!(
        subnets.next().unwrap(),
        Ipv6Network::new(v6(0x2001, 0x0db8, 0x0000, 0, 0, 0, 0, 0), 34).unwrap()
    );
    assert_eq!(
        subnets.next().unwrap(),
        Ipv6Network::new(v6(0x2001, 0x0db8, 0x4000, 0, 0, 0, 0, 0), 34).unwrap()
    );
    assert_eq!(
        subnets.next().unwrap(),
        Ipv6Network::new(v6(0x2001, 0x0db8, 0x8000, 0, 0, 0, 0, 0), 34).unwrap()
    );
    assert_eq!(
        subnets.next().unwrap(),
        Ipv6Network::new(v6(0x2001, 0x0db8, 0xc000, 0, 0, 0, 0, 0), 34).unwrap()
    );
    assert!(subnets.next().is_none());
}

#[test]
fn parse() {
    let ip_network: Ipv6Network = "2001:db8::/32".parse().unwrap();
    assert_eq!(ip_network, return_test_ipv6_network());
}

#[test]
fn format() {
    let ip_network = return_test_ipv6_network();
    assert_eq!(ip_network.to_string(), "2001:db8::/32");
}

#[test]
fn new_netmask_error() {
    assert_eq!(
        Ipv4Network::new(0, 33),
        Err(IpNetworkError::NetmaskError(33))
    );
    assert_eq!(
        Ipv6Network::new(0, 129),
        Err(IpNetworkError::NetmaskError(129))
    );
}

#[test]
fn new_host_bits_set() {
    assert_eq!(
        Ipv4Network::new(v4(192, 168, 1, 1), 24),
        Err(IpNetworkError::HostBitsSet)
    );
    assert_eq!(
        Ipv6Network::new(1, 64),
        Err(IpNetworkError::HostBitsSet)
    );
}

#[test]
fn new_truncate_masks_host_bits() {
    let network = Ipv4Network::new_truncate(v4(192, 168, 1, 1), 24).unwrap();
    assert_eq!(network.network_address(), v4(192, 168, 1, 0));
    assert_eq!(network.netmask(), 24);
    let network6 = Ipv6Network::new_truncate(v6(0x2001, 0xdb8, 0, 0, 0, 1, 0, 0), 32).unwrap();
    assert_eq!(network6.network_address(), v6(0x2001, 0xdb8, 0, 0, 0, 0, 0, 0));
}

#[test]
fn ipv4_classification() {
    let loopback = Ipv4Network::new(v4(127, 0, 0, 0), 8).unwrap();
    assert!(loopback.is_loopback());
    assert!(!loopback.is_global());
    let private = Ipv4Network::new(v4(10, 0, 0, 0), 8).unwrap();
    assert!(private.is_private());
    let private2 = Ipv4Network::new(v4(172, 16, 0, 0), 12).unwrap();
    assert!(private2.is_private());
    let link_local = Ipv4Network::new(v4(169, 254, 0, 0), 16).unwrap();
    assert!(link_local.is_link_local());
    let broadcast = Ipv4Network::new(v4(255, 255, 255, 255), 32).unwrap();
    assert!(broadcast.is_broadcast());
    let multicast = Ipv4Network::new(v4(224, 0, 0, 0), 4).unwrap();
    assert!(multicast.is_multicast());
    let documentation = Ipv4Network::new(v4(192, 0, 2, 0), 24).unwrap();
    assert!(documentation.is_documentation());
    let global = Ipv4Network::new(v4(8, 8, 8, 0), 24).unwrap();
    assert!(global.is_global());
    // a /4 straddling the private 10/8 range is not itself private
    let wide = Ipv4Network::new(v4(0, 0, 0, 0), 4).unwrap();
    assert!(!wide.is_private());
}

#[test]
fn ipv6_classification() {
    assert!(Ipv6Network::new(0, 128).unwrap().is_unspecified());
    assert!(Ipv6Network::new(1, 128).unwrap().is_loopback());
    assert!(Ipv6Network::new(v6(0xfc02, 0, 0, 0, 0, 0, 0, 0), 16).unwrap().is_unique_local());
    assert!(Ipv6Network::new(v6(0xfe8a, 0, 0, 0, 0, 0, 0, 0), 16)
        .unwrap()
        .is_unicast_link_local());
    assert!(Ipv6Network::new(v6(0xfec2, 0, 0, 0, 0, 0, 0, 0), 16)
        .unwrap()
        .is_unicast_site_local());
    assert!(Ipv6Network::new(v6(0x2001, 0xdb8, 0, 0, 0, 0, 0, 0), 32)
        .unwrap()
        .is_documentation());
    assert!(Ipv6Network::new(v6(0xff00, 0, 0, 0, 0, 0, 0, 0), 8).unwrap().is_multicast());
    assert_eq!(
        Ipv6Network::new(v6(0xff0e, 0, 0, 0, 0, 0, 0, 0), 32).unwrap().multicast_scope(),
        Some(Ipv6MulticastScope::Global)
    );
    assert_eq!(
        Ipv6Network::new(v6(0xff01, 0, 0, 0, 0, 0, 0, 0), 16).unwrap().multicast_scope(),
        Some(Ipv6MulticastScope::InterfaceLocal)
    );
    assert_eq!(
        Ipv6Network::new(v6(0xff05, 0, 0, 0, 0, 0, 0, 0), 16).unwrap().multicast_scope(),
        Some(Ipv6MulticastScope::SiteLocal)
    );
    assert_eq!(
        Ipv6Network::new(v6(0x2001, 0xdb8, 0, 0, 0, 0, 0, 0), 32).unwrap().multicast_scope(),
        None
    );
    assert!(Ipv6Network::new(v6(0xff0e, 0, 0, 0, 0, 0, 0, 0), 32).unwrap().is_global());
    assert!(!Ipv6Network::new(1, 128).unwrap().is_global());
    assert!(Ipv6Network::new(v6(0, 0, 0x1c9, 0, 0, 0xafc8, 0, 0x1), 128).unwrap().is_global());
    assert!(Ipv6Network::new(v6(0, 0, 0, 0, 0, 0xffff, 0xc00a, 0x2ff), 128)
        .unwrap()
        .is_unicast_global());
}

#[test]
fn ipv4_supernet_and_broadcast() {
    let network = Ipv4Network::new(v4(192, 168, 1, 0), 24).unwrap();
    assert_eq!(
        network.supernet(),
        Some(Ipv4Network::new(v4(192, 168, 0, 0), 23).unwrap())
    );
    assert_eq!(network.broadcast_address(), v4(192, 168, 1, 255));
    let zero = Ipv4Network::new(0, 0).unwrap();
    assert_eq!(zero.supernet(), None);
}

#[test]
fn cross_family_contains() {
    let ip_network = IpNetwork::V4(return_test_ipv4_network());
    assert!(ip_network.contains(ip_network::IpAddr::V4(v4(192, 168, 1, 25))));
    assert!(!ip_network.contains(ip_network::IpAddr::V6(v6(0x2001, 0xdb8, 0, 0, 0, 1, 0, 0))));
}
