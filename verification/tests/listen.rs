use herdr_badges::listen::{addr_is_loopback, choose_listen_addr, first_ipv4, ListenAddr};

fn v4(a: u8, b: u8, c: u8, d: u8, port: u16) -> ListenAddr {
    ListenAddr::V4 { octets: [a, b, c, d], port }
}

fn v6_loopback(port: u16) -> ListenAddr {
    ListenAddr::V6 { segments: [0, 0, 0, 0, 0, 0, 0, 1], port }
}

#[test]
fn listen_literal_addresses_must_be_loopback() {
    assert_eq!(choose_listen_addr(Some(v4(127, 0, 0, 1, 7878)), None), Some(v4(127, 0, 0, 1, 7878)));
    assert_eq!(choose_listen_addr(Some(v4(127, 9, 9, 9, 80)), None), Some(v4(127, 9, 9, 9, 80)));
    assert_eq!(choose_listen_addr(Some(v6_loopback(7878)), None), Some(v6_loopback(7878)));
    assert_eq!(choose_listen_addr(Some(v4(10, 0, 0, 1, 7878)), None), None);
    assert_eq!(choose_listen_addr(Some(v4(0, 0, 0, 0, 7878)), None), None);
    let other_v6 = ListenAddr::V6 { segments: [0, 0, 0, 0, 0, 0, 0, 2], port: 1 };
    assert_eq!(choose_listen_addr(Some(other_v6), None), None);
}

#[test]
fn listen_resolved_names_use_the_first_ipv4() {
    let resolved = vec![v6_loopback(7878), v4(127, 0, 0, 1, 7878), v4(10, 0, 0, 1, 7878)];
    assert_eq!(choose_listen_addr(None, Some(resolved.clone())), Some(v4(127, 0, 0, 1, 7878)));
    assert_eq!(first_ipv4(&resolved), Some(v4(127, 0, 0, 1, 7878)));
    assert_eq!(choose_listen_addr(None, Some(vec![v4(10, 0, 0, 1, 1), v4(127, 0, 0, 1, 1)])), None);
    // A name that resolves to IPv6 addresses only gives nothing.
    assert_eq!(choose_listen_addr(None, Some(vec![v6_loopback(7878)])), None);
    assert_eq!(choose_listen_addr(None, Some(Vec::new())), None);
    assert_eq!(choose_listen_addr(None, None), None);
    assert!(addr_is_loopback(&v6_loopback(1)));
    assert!(!addr_is_loopback(&v4(128, 0, 0, 1, 1)));
}
