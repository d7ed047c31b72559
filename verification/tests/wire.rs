use ip_network::IpNetwork;
use ip_network::Ipv4Network;
use ip_network::Ipv6Network;

fn v4(a: u8, b: u8, c: u8, d: u8) -> u32 {
    u32::from_be_bytes([a, b, c, d])
}

fn v6(s0: u16, s1: u16, s2: u16, s3: u16, s4: u16, s5: u16, s6: u16, s7: u16) -> u128 {
    let segs = [s0, s1, s2, s3, s4, s5, s6, s7];
    let mut out: u128 = 0;
    for seg in segs {
        out = (out << 16) | seg as u128;
    }
    out
}

fn return_test_ipv4_network() -> Ipv4Network {
    Ipv4Network::new(v4(192, 168, 0, 0), 16).unwrap()
}

fn return_test_ipv6_network() -> Ipv6Network {
    Ipv6Network::new(v6(0x2001, 0xdb8, 0, 0, 0, 0, 0, 0), 32).unwrap()
}

#[test]
fn ivp4_to_sql() {
    let ip_network = return_test_ipv4_network();
    let output = ip_network.to_wire_bytes();
    assert_eq!(2, output[0]);
    assert_eq!(16, output[1]);
    assert_eq!(1, output[2]);
    assert_eq!(4, output[3]);
    assert_eq!(192, output[4]);
    assert_eq!(168, output[5]);
    assert_eq!(0, output[6]);
    assert_eq!(0, output[7]);
}

#[test]
fn ivp4_both_direction() {
    let ip_network = return_test_ipv4_network();
    let output = ip_network.to_wire_bytes();

    let result = Ipv4Network::from_wire_bytes(&output);
    assert!(result.is_some());

    let ip_network_converted = result.unwrap();
    assert_eq!(ip_network, ip_network_converted);
}

#[test]
fn ivp6_to_sql() {
    let ip_network = return_test_ipv6_network();
    let output = ip_network.to_wire_bytes();
    assert_eq!(3, output[0]);
    assert_eq!(32, output[1]);
    assert_eq!(1, output[2]);
    assert_eq!(16, output[3]);
    assert_eq!(0x20, output[4]);
    assert_eq!(0x01, output[5]);
    assert_eq!(0x0d, output[6]);
    assert_eq!(0xb8, output[7]);
    for i in 8..20 {
        assert_eq!(0, output[i]);
    }
}

#[test]
fn ivp6_both_direction() {
    let ip_network = return_test_ipv6_network();
    let output = ip_network.to_wire_bytes();

    let result = Ipv6Network::from_wire_bytes(&output);
    assert!(result.is_some());

    let ip_network_converted = result.unwrap();
    assert_eq!(ip_network, ip_network_converted);
}

#[test]
fn ipnetwork_to_sql_v4() {
    let ip_network = IpNetwork::V4(return_test_ipv4_network());
    let output = ip_network.to_wire_bytes();
    assert_eq!(output.len(), 8);
}

#[test]
fn ipnetwork_to_sql_v6() {
    let ip_network = IpNetwork::V6(return_test_ipv6_network());
    let output = ip_network.to_wire_bytes();
    assert_eq!(output.len(), 20);
}

#[test]
fn ipnetwork_from_wire_picks_family() {
    let wire4 = IpNetwork::V4(return_test_ipv4_network()).to_wire_bytes();
    let wire6 = IpNetwork::V6(return_test_ipv6_network()).to_wire_bytes();
    assert_eq!(
        IpNetwork::from_wire_bytes(&wire4).unwrap(),
        IpNetwork::V4(return_test_ipv4_network())
    );
    assert_eq!(
        IpNetwork::from_wire_bytes(&wire6).unwrap(),
        IpNetwork::V6(return_test_ipv6_network())
    );
    assert!(IpNetwork::from_wire_bytes(&[9, 0, 1, 4]).is_none());
}

#[test]
fn from_wire_rejects_bad_shapes() {
    // wrong length
    assert!(Ipv4Network::from_wire_bytes(&[2, 16, 1, 4]).is_none());
    // wrong family byte
    assert!(Ipv4Network::from_wire_bytes(&[3, 16, 1, 4, 192, 168, 0, 0]).is_none());
    // netmask too deep
    assert!(Ipv4Network::from_wire_bytes(&[2, 33, 1, 4, 192, 168, 0, 0]).is_none());
    // host bits set beneath the prefix
    assert!(Ipv4Network::from_wire_bytes(&[2, 16, 1, 4, 192, 168, 0, 1]).is_none());
}
