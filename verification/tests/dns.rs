use search_engine::crawler::dns::{
    dns_retry_delay_ms, is_private, pick_public_address, IpAddress, ResolveError,
};

#[test]
fn loopback_is_private() {
    assert!(is_private(IpAddress::V4([127, 0, 0, 1])));
    assert!(is_private(IpAddress::V6([0, 0, 0, 0, 0, 0, 0, 1])));
}

#[test]
fn public_ip_is_not_private() {
    assert!(!is_private(IpAddress::V4([1, 1, 1, 1])));
}

#[test]
fn private_ranges_are_private() {
    assert!(is_private(IpAddress::V4([10, 2, 3, 4])));
    assert!(is_private(IpAddress::V4([172, 16, 0, 1])));
    assert!(is_private(IpAddress::V4([172, 31, 255, 255])));
    assert!(!is_private(IpAddress::V4([172, 32, 0, 1])));
    assert!(is_private(IpAddress::V4([192, 168, 1, 1])));
    assert!(is_private(IpAddress::V4([169, 254, 0, 9])));
    assert!(is_private(IpAddress::V6([0xfe80, 0, 0, 0, 0, 0, 0, 1])));
    assert!(is_private(IpAddress::V6([0xfd12, 0x3456, 0, 0, 0, 0, 0, 1])));
    assert!(is_private(IpAddress::V6([0, 0, 0, 0, 0, 0, 0, 0])));
    assert!(!is_private(IpAddress::V6([0x2606, 0x4700, 0, 0, 0, 0, 0, 0x1111])));
}

#[test]
fn picks_first_public_address() {
    let addrs = [IpAddress::V4([10, 0, 0, 1]), IpAddress::V4([8, 8, 8, 8]), IpAddress::V4([1, 1, 1, 1])];
    assert_eq!(pick_public_address(&addrs), Ok(IpAddress::V4([8, 8, 8, 8])));
}

#[test]
fn all_private_and_no_address_are_errors() {
    assert_eq!(pick_public_address(&[IpAddress::V4([127, 0, 0, 1])]), Err(ResolveError::AllPrivate));
    assert_eq!(pick_public_address(&[]), Err(ResolveError::NoAddress));
}

#[test]
fn dns_backoff_doubles_then_stops() {
    assert_eq!(dns_retry_delay_ms(1), Some(250));
    assert_eq!(dns_retry_delay_ms(2), Some(500));
    assert_eq!(dns_retry_delay_ms(3), None);
}
