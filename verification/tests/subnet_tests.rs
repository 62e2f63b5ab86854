use jitstreamer::subnet::{check_access, ip_in_subnet_v4, parse_cidr, parse_ipv4};

#[test]
fn parse_ipv4_exact_value() {
    assert_eq!(parse_ipv4("1.2.3.4"), Some(0x01020304));
    assert_eq!(parse_ipv4("0.0.0.0"), Some(0));
    assert_eq!(parse_ipv4("255.255.255.255"), Some(0xFFFFFFFF));
    assert_eq!(parse_ipv4("192.168.182.1"), Some((192u32 << 24) | (168 << 16) | (182 << 8) | 1));
}

#[test]
fn parse_ipv4_rejects_malformed_addresses() {
    assert_eq!(parse_ipv4(""), None);
    assert_eq!(parse_ipv4("1.2.3"), None);
    assert_eq!(parse_ipv4("1.2.3.4.5"), None);
    assert_eq!(parse_ipv4("256.1.1.1"), None);
    assert_eq!(parse_ipv4("01.2.3.4"), None);
    assert_eq!(parse_ipv4("1.2.3.4:8080"), None);
    assert_eq!(parse_ipv4("a.b.c.d"), None);
    assert_eq!(parse_ipv4("1..2.3"), None);
    assert_eq!(parse_ipv4("fe80::1"), None);
}

#[test]
fn parse_cidr_accepts_blocks_and_rejects_junk() {
    assert_eq!(parse_cidr("192.168.182.0/24"), Some(((192u32 << 24) | (168 << 16) | (182 << 8), 24)));
    assert_eq!(parse_cidr("0.0.0.0/0"), Some((0, 0)));
    assert_eq!(parse_cidr("10.0.0.1/32"), Some(((10u32 << 24) | 1, 32)));
    assert_eq!(parse_cidr("10.0.0.1/33"), None);
    assert_eq!(parse_cidr("10.0.0.1/01"), None);
    assert_eq!(parse_cidr("10.0.0.1"), None);
    assert_eq!(parse_cidr("10.0.0.1/"), None);
    assert_eq!(parse_cidr("/24"), None);
    assert_eq!(parse_cidr("10.0.0.1/24/7"), None);
}

#[test]
fn containment_includes_boundaries_and_excludes_outside() {
    let base = (192u32 << 24) | (168 << 16) | (182 << 8);
    // Network and broadcast addresses are both inside.
    assert!(ip_in_subnet_v4(base, base, 24));
    assert!(ip_in_subnet_v4(base | 0xFF, base, 24));
    assert!(ip_in_subnet_v4(base | 1, base, 24));
    // The neighbouring blocks are outside.
    assert!(!ip_in_subnet_v4(base - 1, base, 24));
    assert!(!ip_in_subnet_v4(base + 0x100, base, 24));
    // A zero-length prefix admits everything.
    assert!(ip_in_subnet_v4(0, 0, 0));
    assert!(ip_in_subnet_v4(0xFFFFFFFF, 0, 0));
    // A full-length prefix admits exactly the base.
    assert!(ip_in_subnet_v4(base, base, 32));
    assert!(!ip_in_subnet_v4(base + 1, base, 32));
}

#[test]
fn check_access_true_inside_subnet_false_outside() {
    assert!(check_access("192.168.182.0/24", "192.168.182.1"));
    assert!(check_access("192.168.182.0/24", "192.168.182.0"));
    assert!(check_access("192.168.182.0/24", "192.168.182.255"));
    assert!(!check_access("192.168.182.0/24", "192.168.183.1"));
    assert!(check_access("0.0.0.0/0", "8.8.8.8"));
}

#[test]
fn check_access_denies_malformed_input() {
    assert!(!check_access("not a subnet", "192.168.182.1"));
    assert!(!check_access("192.168.182.0/24", "not an ip"));
    assert!(!check_access("192.168.182.0/24", "192.168.182.1:5000"));
    assert!(!check_access("192.168.182.0", "192.168.182.1"));
}
