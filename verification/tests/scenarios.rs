use ip_network::IpNetworkError;
use ip_network::Ipv4Network;
use ip_network::Ipv6Network;
use ip_network::iterator::Ipv6NetworkIterator;

fn v4(a: u8, b: u8, c: u8, d: u8) -> u32 {
    u32::from_be_bytes([a, b, c, d])
}

#[test]
fn scenario_parse_and_hosts() {
    let network = Ipv4Network::from_str("192.168.1.0/24").unwrap();
    assert_eq!(network.network_address(), v4(192, 168, 1, 0));
    assert_eq!(network.netmask(), 24);
    assert_eq!(network.broadcast_address(), v4(192, 168, 1, 255));
    let mut hosts = network.hosts();
    let mut count = 0;
    while hosts.next().is_some() {
        count += 1;
    }
    assert_eq!(count, 254);
}

#[test]
fn scenario_strict_rejects_truncate_accepts() {
    assert_eq!(
        Ipv4Network::new(v4(192, 168, 1, 1), 24),
        Err(IpNetworkError::HostBitsSet)
    );
    let truncated = Ipv4Network::new_truncate(v4(192, 168, 1, 1), 24).unwrap();
    assert_eq!(truncated, Ipv4Network::new(v4(192, 168, 1, 0), 24).unwrap());
}

#[test]
fn scenario_summarize_two_blocks() {
    let blocks = Ipv4Network::summarize_address_range(v4(194, 249, 198, 0), v4(194, 249, 198, 159));
    assert_eq!(blocks.len(), 2);
    assert_eq!(blocks[0], Ipv4Network::new(v4(194, 249, 198, 0), 25).unwrap());
    assert_eq!(blocks[1], Ipv4Network::new(v4(194, 249, 198, 128), 27).unwrap());
}

#[test]
fn scenario_subnets_of_documentation_prefix() {
    let network = Ipv6Network::from_str("2001:db8::/32").unwrap();
    let mut subnets = network.subnets_with_prefix(33);
    assert_eq!(subnets.len(), 2);
    assert_eq!(subnets.next().unwrap().to_string(), "2001:db8::/33");
    assert_eq!(subnets.next().unwrap().to_string(), "2001:db8:8000::/33");
    assert!(subnets.next().is_none());
}

#[test]
fn scenario_whole_space_count_saturates() {
    // the exact remaining count of the whole space, 2^128, exceeds the
    // widest machine integer; the executable accessor saturates
    let network = Ipv6Network::new(0, 0).unwrap();
    let iterator = Ipv6NetworkIterator::new(network, 128);
    assert_eq!(iterator.real_len(), u128::MAX);
}

#[test]
fn containment_boundaries() {
    let network = Ipv4Network::new(v4(192, 168, 16, 0), 20).unwrap();
    assert!(network.contains(network.network_address()));
    assert!(network.contains(network.broadcast_address()));
    assert!(!network.contains(network.network_address() - 1));
    assert!(!network.contains(network.broadcast_address() + 1));
    let network6 = Ipv6Network::from_str("2001:db8::/32").unwrap();
    assert!(network6.contains(network6.network_address()));
    assert!(network6.contains(network6.last_address()));
    assert!(!network6.contains(network6.network_address() - 1));
}

#[test]
fn subnets_partition_parent() {
    let parent = Ipv4Network::new(v4(10, 0, 0, 0), 24).unwrap();
    let mut it = parent.subnets().unwrap();
    let low = it.next().unwrap();
    let high = it.next().unwrap();
    assert!(it.next().is_none());
    // every address of the parent is in exactly one half
    let mut addresses = parent.hosts();
    let mut checked = 0;
    while let Some(x) = addresses.next() {
        assert!(parent.contains(x));
        assert!(low.contains(x) != high.contains(x));
        checked += 1;
    }
    assert_eq!(checked, 254);
    assert!(low.contains(parent.network_address()));
    assert!(high.contains(parent.broadcast_address()));
    assert!(!low.contains(high.network_address()));
}

#[test]
fn summarize_single_address() {
    let blocks = Ipv4Network::summarize_address_range(v4(10, 0, 0, 5), v4(10, 0, 0, 5));
    assert_eq!(blocks.len(), 1);
    assert_eq!(blocks[0], Ipv4Network::new(v4(10, 0, 0, 5), 32).unwrap());
}

#[test]
fn summarize_whole_space() {
    let blocks = Ipv4Network::summarize_address_range(0, u32::MAX);
    assert_eq!(blocks.len(), 1);
    assert_eq!(blocks[0], Ipv4Network::new(0, 0).unwrap());
}

#[test]
fn summarize_empty_when_reversed() {
    let blocks = Ipv4Network::summarize_address_range(5, 4);
    assert_eq!(blocks.len(), 0);
}

#[test]
fn summarize_unaligned_range() {
    // 10.0.0.3 .. 10.0.0.16: greedy blocks, adjacent, none mergeable
    let blocks = Ipv4Network::summarize_address_range(v4(10, 0, 0, 3), v4(10, 0, 0, 16));
    let mut covered: u64 = 0;
    for (i, b) in blocks.iter().enumerate() {
        covered += (b.broadcast_address() - b.network_address() + 1) as u64;
        if i > 0 {
            assert_eq!(
                blocks[i - 1].broadcast_address() + 1,
                b.network_address()
            );
        }
    }
    assert_eq!(blocks[0].network_address(), v4(10, 0, 0, 3));
    assert_eq!(blocks[blocks.len() - 1].broadcast_address(), v4(10, 0, 0, 16));
    assert_eq!(covered, 14);
    assert_eq!(blocks.len(), 4);
    assert_eq!(blocks[1], Ipv4Network::new(v4(10, 0, 0, 4), 30).unwrap());
    assert_eq!(blocks[2], Ipv4Network::new(v4(10, 0, 0, 8), 29).unwrap());
}

#[test]
fn summarize_v6_unaligned_range() {
    // 2001:db8::3 .. 2001:db8::10, the 128-bit analogue of the greedy split
    let base = Ipv6Network::from_str("2001:db8::/32").unwrap().network_address();
    let blocks = Ipv6Network::summarize_address_range(base + 3, base + 16);
    assert_eq!(blocks.len(), 4);
    assert_eq!(blocks[0], Ipv6Network::new(base + 3, 128).unwrap());
    assert_eq!(blocks[1], Ipv6Network::new(base + 4, 126).unwrap());
    assert_eq!(blocks[2], Ipv6Network::new(base + 8, 125).unwrap());
    assert_eq!(blocks[3], Ipv6Network::new(base + 16, 128).unwrap());
}

#[test]
fn summarize_v6_whole_space() {
    let blocks = Ipv6Network::summarize_address_range(0, u128::MAX);
    assert_eq!(blocks.len(), 1);
    assert_eq!(blocks[0], Ipv6Network::new(0, 0).unwrap());
}

#[test]
fn summarize_ends_at_space_edge() {
    let blocks = Ipv4Network::summarize_address_range(v4(255, 255, 255, 254), u32::MAX);
    assert_eq!(blocks.len(), 1);
    assert_eq!(blocks[0], Ipv4Network::new(v4(255, 255, 255, 254), 31).unwrap());
}
