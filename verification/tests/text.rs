use ip_network::IpNetworkParseError;
use ip_network::Ipv4Network;
use ip_network::Ipv6Network;

fn v6(s0: u16, s1: u16, s2: u16, s3: u16, s4: u16, s5: u16, s6: u16, s7: u16) -> u128 {
    let segs = [s0, s1, s2, s3, s4, s5, s6, s7];
    let mut out: u128 = 0;
    for seg in segs {
        out = (out << 16) | seg as u128;
    }
    out
}

#[test]
fn format_v6_compression_cases() {
    assert_eq!(Ipv6Network::new(0, 0).unwrap().to_string(), "::/0");
    assert_eq!(Ipv6Network::new(1, 128).unwrap().to_string(), "::1/128");
    assert_eq!(
        Ipv6Network::new(v6(1, 2, 3, 4, 0, 0, 0, 0), 64).unwrap().to_string(),
        "1:2:3:4::/64"
    );
    assert_eq!(
        Ipv6Network::new(v6(0xfe80, 0, 0, 0, 0, 0, 0, 0), 10).unwrap().to_string(),
        "fe80::/10"
    );
    // a single zero group is not compressed
    assert_eq!(
        Ipv6Network::new(v6(1, 0, 2, 3, 4, 5, 6, 7), 128).unwrap().to_string(),
        "1:0:2:3:4:5:6:7/128"
    );
    // the leftmost of two equally long runs is compressed
    assert_eq!(
        Ipv6Network::new(v6(1, 0, 0, 2, 3, 0, 0, 4), 128).unwrap().to_string(),
        "1::2:3:0:0:4/128"
    );
    // the longer run wins even when it comes second
    assert_eq!(
        Ipv6Network::new(v6(1, 0, 0, 2, 0, 0, 0, 4), 128).unwrap().to_string(),
        "1:0:0:2::4/128"
    );
}

#[test]
fn parse_v6_forms() {
    assert_eq!(
        Ipv6Network::from_str("::/0").unwrap(),
        Ipv6Network::new(0, 0).unwrap()
    );
    assert_eq!(
        Ipv6Network::from_str("::1/128").unwrap(),
        Ipv6Network::new(1, 128).unwrap()
    );
    assert_eq!(
        Ipv6Network::from_str("1:2:3:4:5:6:7:8/128").unwrap(),
        Ipv6Network::new(v6(1, 2, 3, 4, 5, 6, 7, 8), 128).unwrap()
    );
    assert_eq!(
        Ipv6Network::from_str("1::2:3:4:5:6:7/128").unwrap(),
        Ipv6Network::new(v6(1, 0, 2, 3, 4, 5, 6, 7), 128).unwrap()
    );
    assert_eq!(
        Ipv6Network::from_str("fe80::/10").unwrap(),
        Ipv6Network::new(v6(0xfe80, 0, 0, 0, 0, 0, 0, 0), 10).unwrap()
    );
    assert_eq!(
        Ipv6Network::from_str("2001:DB8::/32").unwrap(),
        Ipv6Network::new(v6(0x2001, 0xdb8, 0, 0, 0, 0, 0, 0), 32).unwrap()
    );
}

#[test]
fn parse_v6_rejects_bad_forms() {
    // two compressions
    assert!(Ipv6Network::from_str("1::2::3/128").is_err());
    // nine groups
    assert!(Ipv6Network::from_str("1:2:3:4:5:6:7:8:9/128").is_err());
    // seven groups without compression
    assert!(Ipv6Network::from_str("1:2:3:4:5:6:7/128").is_err());
    // compression standing for no group
    assert!(Ipv6Network::from_str("1:2:3:4:5:6:7::8/128").is_err());
    // single leading colon
    assert!(Ipv6Network::from_str(":1:2:3:4:5:6:7/128").is_err());
    // group too long
    assert!(Ipv6Network::from_str("12345::/128").is_err());
    // bad digit
    assert!(Ipv6Network::from_str("defg::/16").is_err());
}

#[test]
fn parse_v4_rejects_bad_forms() {
    // leading zero in an octet
    assert!(Ipv4Network::from_str("01.2.3.4/32").is_err());
    // octet out of range
    assert!(Ipv4Network::from_str("256.0.0.0/8").is_err());
    // three octets
    assert!(Ipv4Network::from_str("1.2.3/24").is_err());
    // five octets
    assert!(Ipv4Network::from_str("1.2.3.4.5/32").is_err());
    // empty octet
    assert!(Ipv4Network::from_str("1..3.4/32").is_err());
}

#[test]
fn parse_netmask_bounds() {
    assert_eq!(
        Ipv4Network::from_str("10.0.0.0/33"),
        Err(IpNetworkParseError::IpNetworkError(
            ip_network::IpNetworkError::NetmaskError(33)
        ))
    );
    assert_eq!(
        Ipv6Network::from_str("::/129"),
        Err(IpNetworkParseError::IpNetworkError(
            ip_network::IpNetworkError::NetmaskError(129)
        ))
    );
    assert_eq!(
        Ipv4Network::from_str("10.0.0.0/1000"),
        Err(IpNetworkParseError::InvalidNetmaskFormat)
    );
    assert_eq!(
        Ipv4Network::from_str("10.0.0.0/+24"),
        Err(IpNetworkParseError::InvalidNetmaskFormat)
    );
}

#[test]
fn roundtrip_samples() {
    let samples4 = ["0.0.0.0/0", "10.0.0.0/8", "192.168.1.0/24", "255.255.255.255/32", "8.8.8.8/32"];
    for s in samples4 {
        let network = Ipv4Network::from_str(s).unwrap();
        assert_eq!(network.to_string(), s);
        assert_eq!(Ipv4Network::from_str(&network.to_string()).unwrap(), network);
    }
    let samples6 = ["::/0", "::1/128", "2001:db8::/32", "fe80::/10", "1:0:2:3:4:5:6:7/128"];
    for s in samples6 {
        let network = Ipv6Network::from_str(s).unwrap();
        assert_eq!(network.to_string(), s);
        assert_eq!(Ipv6Network::from_str(&network.to_string()).unwrap(), network);
    }
}
