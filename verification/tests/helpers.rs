use ip_network::get_bite_mask;
use ip_network::get_bite_mask_u128;
use ip_network::bit_length;
use ip_network::split_ip_netmask;

#[test]
fn get_bite_mask_32() {
    assert_eq!(u32::MAX, get_bite_mask(32));
}

#[test]
fn get_bite_mask_0() {
    assert_eq!(0, get_bite_mask(0));
}

#[test]
fn test_split_ip_netmask() {
    let (ip, netmask) = split_ip_netmask("192.168.1.1/24").unwrap();
    assert_eq!("192.168.1.1", ip);
    assert_eq!("24", netmask);
}

#[test]
fn test_split_ip_netmask_invalid_1() {
    let a = split_ip_netmask("ab");
    assert!(a.is_none());
}

#[test]
fn test_split_ip_netmask_invalid_2() {
    let a = split_ip_netmask("/");
    assert!(a.is_none());
}

#[test]
fn test_split_ip_netmask_invalid_3() {
    let a = split_ip_netmask("192.168.1.1/");
    assert!(a.is_none());
}

#[test]
fn get_bite_mask_values() {
    assert_eq!(get_bite_mask(8), 0xff00_0000);
    assert_eq!(get_bite_mask(24), 0xffff_ff00);
    assert_eq!(get_bite_mask_u128(0), 0);
    assert_eq!(get_bite_mask_u128(128), u128::MAX);
    assert_eq!(get_bite_mask_u128(32), 0xffff_ffff_u128 << 96);
}

#[test]
fn bit_length_values() {
    assert_eq!(bit_length(0), 0);
    assert_eq!(bit_length(1), 1);
    assert_eq!(bit_length(2), 2);
    assert_eq!(bit_length(255), 8);
    assert_eq!(bit_length(256), 9);
    assert_eq!(bit_length(u32::MAX), 32);
}
