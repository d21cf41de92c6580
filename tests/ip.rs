use riley_cms::ip::{first_safe_address, is_safe_ip, to_ipv4_mapped, IpAddr, SocketAddress};

fn v4(a: u8, b: u8, c: u8, d: u8) -> IpAddr {
    IpAddr::V4([a, b, c, d])
}

fn mapped(a: u8, b: u8, c: u8, d: u8) -> IpAddr {
    IpAddr::V6([0, 0, 0, 0, 0, 0xffff, (a as u16) << 8 | b as u16, (c as u16) << 8 | d as u16])
}

#[test]
fn rejects_ipv4_mapped_loopback() {
    let ip = mapped(127, 0, 0, 1);
    assert!(!is_safe_ip(&ip));
}

#[test]
fn rejects_ipv4_mapped_private() {
    assert!(!is_safe_ip(&mapped(10, 0, 0, 1)));
    assert!(!is_safe_ip(&mapped(192, 168, 1, 1)));
    assert!(!is_safe_ip(&mapped(172, 16, 0, 1)));
}

#[test]
fn rejects_ipv4_mapped_link_local() {
    assert!(!is_safe_ip(&mapped(169, 254, 169, 254)));
}

#[test]
fn rejects_multicast() {
    assert!(!is_safe_ip(&IpAddr::V6([0xff02, 0, 0, 0, 0, 0, 0, 1])));
}

#[test]
fn rejects_site_local() {
    assert!(!is_safe_ip(&IpAddr::V6([0xfec0, 0, 0, 0, 0, 0, 0, 1])));
}

#[test]
fn rejects_private_ipv4() {
    assert!(!is_safe_ip(&v4(10, 0, 0, 1)));
    assert!(!is_safe_ip(&v4(192, 168, 1, 1)));
    assert!(!is_safe_ip(&v4(172, 16, 0, 1)));
    assert!(!is_safe_ip(&v4(100, 64, 0, 1)));
}

#[test]
fn rejects_loopback() {
    assert!(!is_safe_ip(&v4(127, 0, 0, 1)));
    assert!(!is_safe_ip(&IpAddr::V6([0, 0, 0, 0, 0, 0, 0, 1])));
}

#[test]
fn rejects_unspecified() {
    assert!(!is_safe_ip(&v4(0, 0, 0, 0)));
    assert!(!is_safe_ip(&IpAddr::V6([0; 8])));
}

#[test]
fn allows_public_ipv4() {
    assert!(is_safe_ip(&v4(8, 8, 8, 8)));
    assert!(is_safe_ip(&v4(1, 1, 1, 1)));
}

#[test]
fn allows_public_ipv6() {
    assert!(is_safe_ip(&IpAddr::V6([0x2606, 0x4700, 0x4700, 0, 0, 0, 0, 0x1111])));
}

#[test]
fn rejects_carrier_grade_nat_boundary() {
    assert!(!is_safe_ip(&v4(100, 64, 0, 0)));
    assert!(!is_safe_ip(&v4(100, 127, 255, 255)));
    assert!(is_safe_ip(&v4(100, 128, 0, 0)));
}

#[test]
fn rejects_unique_local_ipv6() {
    assert!(!is_safe_ip(&IpAddr::V6([0xfc00, 0, 0, 0, 0, 0, 0, 1])));
    assert!(!is_safe_ip(&IpAddr::V6([0xfd00, 0, 0, 0, 0, 0, 0, 1])));
}

#[test]
fn rejects_link_local_ipv6_and_metadata_address() {
    assert!(!is_safe_ip(&IpAddr::V6([0xfe80, 0, 0, 0, 0, 0, 0, 1])));
    assert!(!is_safe_ip(&v4(169, 254, 169, 254)));
}

#[test]
fn mapped_address_judged_like_its_ipv4() {
    for (a, b, c, d) in [(8, 8, 8, 8), (127, 0, 0, 1), (10, 1, 2, 3), (1, 1, 1, 1), (100, 128, 0, 0)] {
        assert_eq!(is_safe_ip(&mapped(a, b, c, d)), is_safe_ip(&v4(a, b, c, d)));
    }
    assert!(is_safe_ip(&mapped(8, 8, 8, 8)));
}

#[test]
fn ipv4_mapped_is_unwrapped() {
    let s = [0, 0, 0, 0, 0, 0xffff, 0x7f00, 0x0001];
    assert_eq!(to_ipv4_mapped(&s), Some([127, 0, 0, 1]));
    assert_eq!(to_ipv4_mapped(&[0, 0, 0, 0, 0, 0, 0, 1]), None);
}

#[test]
fn first_safe_address_skips_private_ones() {
    let addrs = vec![
        SocketAddress { ip: v4(127, 0, 0, 1), port: 443 },
        SocketAddress { ip: v4(10, 0, 0, 5), port: 443 },
        SocketAddress { ip: v4(93, 184, 216, 34), port: 443 },
        SocketAddress { ip: v4(1, 1, 1, 1), port: 443 },
    ];
    assert_eq!(first_safe_address(&addrs), Some(addrs[2]));
}

#[test]
fn no_safe_address_when_all_resolve_to_loopback() {
    let addrs = vec![
        SocketAddress { ip: v4(127, 0, 0, 1), port: 80 },
        SocketAddress { ip: IpAddr::V6([0, 0, 0, 0, 0, 0, 0, 1]), port: 80 },
    ];
    assert_eq!(first_safe_address(&addrs), None);
    assert_eq!(first_safe_address(&Vec::new()), None);
}
