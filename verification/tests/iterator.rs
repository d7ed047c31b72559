use ip_network::Ipv4Network;
use ip_network::Ipv6Network;
use ip_network::iterator::Ipv4NetworkIterator;
use ip_network::iterator::Ipv4RangeIterator;
use ip_network::iterator::Ipv6NetworkIterator;

fn v4(a: u8, b: u8, c: u8, d: u8) -> u32 {
    u32::from_be_bytes([a, b, c, d])
}

fn v6(s0: u16, s1: u16, s2: u16, s3: u16, s4: u16, s5: u16, s6: u16, s7: u16) -> u128 {
    let segs = [s0, s1, s2, s3, s4, s5, s6, s7];
    let mut out: u128 = 0;
    for seg in segs {
        out = (out << 16) | seg as u128;
    }
    out
}

fn last_addr(mut it: Ipv4RangeIterator) -> Option<u32> {
    let mut last = None;
    while let Some(x) = it.next() {
        last = Some(x);
    }
    last
}

fn last_net(mut it: Ipv4NetworkIterator) -> Option<Ipv4Network> {
    let mut last = None;
    while let Some(x) = it.next() {
        last = Some(x);
    }
    last
}

#[test]
fn test_ipv4_range_iterator() {
    let mut iterator = Ipv4RangeIterator::new(v4(192, 168, 2, 0), v4(192, 168, 2, 255));
    assert_eq!(iterator.next().unwrap(), v4(192, 168, 2, 0));
    assert_eq!(iterator.next().unwrap(), v4(192, 168, 2, 1));
    assert_eq!(last_addr(iterator).unwrap(), v4(192, 168, 2, 255));
}

#[test]
fn test_ipv4_range_iterator_length() {
    let mut iterator = Ipv4RangeIterator::new(v4(192, 168, 2, 0), v4(192, 168, 2, 255));
    assert_eq!(iterator.len(), 256);
    iterator.next().unwrap();
    assert_eq!(iterator.len(), 255);
    let mut collected = Vec::new();
    while let Some(x) = iterator.next() {
        collected.push(x);
    }
    assert_eq!(collected.len(), 255);
}

#[test]
fn test_ipv4_range_iterator_same_values() {
    let mut iterator = Ipv4RangeIterator::new(v4(255, 255, 255, 255), v4(255, 255, 255, 255));
    assert_eq!(iterator.len(), 1);
    assert_eq!(iterator.next().unwrap(), v4(255, 255, 255, 255));
    assert!(iterator.next().is_none());
    assert_eq!(iterator.len(), 0);
}

#[test]
fn test_ipv4_network_iterator() {
    let network = Ipv4Network::new(v4(127, 0, 0, 0), 8).unwrap();
    let mut iterator = Ipv4NetworkIterator::new(network, 16);

    assert_eq!(iterator.len(), 256);
    assert_eq!(
        iterator.next().unwrap(),
        Ipv4Network::new(v4(127, 0, 0, 0), 16).unwrap()
    );
    assert_eq!(
        iterator.next().unwrap(),
        Ipv4Network::new(v4(127, 1, 0, 0), 16).unwrap()
    );
    assert_eq!(
        iterator.next().unwrap(),
        Ipv4Network::new(v4(127, 2, 0, 0), 16).unwrap()
    );
    assert_eq!(
        last_net(iterator).unwrap(),
        Ipv4Network::new(v4(127, 255, 0, 0), 16).unwrap()
    );
}

#[test]
fn test_ipv4_network_iterator_len() {
    let network = Ipv4Network::new(v4(127, 0, 0, 0), 8).unwrap();
    let iterator = Ipv4NetworkIterator::new(network, 16);
    assert_eq!(256, iterator.len());
}

#[test]
fn test_ipv6_network_iterator() {
    let ip = v6(0x2001, 0, 0, 0, 0, 0, 0, 0);
    let network = Ipv6Network::new(ip, 16).unwrap();
    let mut iterator = Ipv6NetworkIterator::new(network, 17);

    assert_eq!(2, iterator.len());
    assert_eq!(iterator.next().unwrap(), Ipv6Network::new(ip, 17).unwrap());
    assert_eq!(
        iterator.next().unwrap(),
        Ipv6Network::new(v6(0x2001, 0x8000, 0, 0, 0, 0, 0, 0), 17).unwrap()
    );
    assert!(iterator.next().is_none());
}

#[test]
fn test_ipv6_network_iterator_whole_range_real_len() {
    let network = Ipv6Network::new(0, 0).unwrap();
    let iterator = Ipv6NetworkIterator::new(network, 128);

    assert_eq!(iterator.real_len(), u128::MAX);
}

#[test]
fn test_ipv6_network_iterator_whole_range() {
    let network = Ipv6Network::new(0, 0).unwrap();
    let mut iterator = Ipv6NetworkIterator::new(network, 128);

    assert_eq!(iterator.next().unwrap(), Ipv6Network::new(0, 128).unwrap());
    assert_eq!(iterator.next().unwrap(), Ipv6Network::new(1, 128).unwrap());
}

#[test]
fn hosts_exclude_network_and_broadcast() {
    let network = Ipv4Network::new(v4(192, 168, 1, 0), 24).unwrap();
    let mut hosts = network.hosts();
    assert_eq!(hosts.len(), 254);
    assert_eq!(hosts.next().unwrap(), v4(192, 168, 1, 1));
    assert_eq!(last_addr(hosts).unwrap(), v4(192, 168, 1, 254));
}

#[test]
fn hosts_empty_for_tiny_networks() {
    let single = Ipv4Network::new(v4(10, 0, 0, 0), 32).unwrap();
    assert_eq!(single.hosts().len(), 0);
    let pair = Ipv4Network::new(v4(10, 0, 0, 0), 31).unwrap();
    assert_eq!(pair.hosts().len(), 0);
    let edge = Ipv4Network::new(v4(255, 255, 255, 255), 32).unwrap();
    assert_eq!(edge.hosts().len(), 0);
    let zero = Ipv4Network::new(0, 32).unwrap();
    assert_eq!(zero.hosts().len(), 0);
}

#[test]
fn range_iterator_count_reaches_zero() {
    let mut iterator = Ipv4RangeIterator::new(10, 12);
    assert_eq!(iterator.len(), 3);
    iterator.next().unwrap();
    assert_eq!(iterator.len(), 2);
    iterator.next().unwrap();
    assert_eq!(iterator.len(), 1);
    iterator.next().unwrap();
    assert_eq!(iterator.len(), 0);
    assert!(iterator.next().is_none());
    assert_eq!(iterator.len(), 0);
}

#[test]
fn subnets_at_top_prefix() {
    let network = Ipv4Network::new(v4(10, 0, 0, 1), 32).unwrap();
    assert!(network.subnets().is_none());
    let network6 = Ipv6Network::new(1, 128).unwrap();
    assert!(network6.subnets().is_none());
}
