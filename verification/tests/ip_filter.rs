use antigravity_tools::ip_filter::{cidr_match, ip_list_match, ipv4_value, prefix_mask, IpListMatch};

#[test]
fn cidr_matching() {
    assert!(cidr_match("192.168.1.77", "192.168.1.0/24"));
    assert!(!cidr_match("192.168.2.1", "192.168.1.0/24"));
    assert!(cidr_match("10.1.2.3", "10.0.0.0/8"));
    assert!(cidr_match("8.8.8.8", "0.0.0.0/0"));
    assert!(cidr_match("1.2.3.4", "1.2.3.4/32"));
    assert!(!cidr_match("1.2.3.5", "1.2.3.4/32"));
    assert!(!cidr_match("1.2.3.4", "1.2.3.4"));
    assert!(!cidr_match("1.2.3.4", "1.2.3.4/32/1"));
    assert!(!cidr_match("1.2.3.4", "1.2.3.4/x"));
    assert!(!cidr_match("1.2.3", "1.2.3.0/24"));
    assert!(cidr_match("1.2.3.4", "1.2.3.0/+24"));
    assert!(!cidr_match("10.0.0.1", "10.0.0.0/33"));
    assert!(!cidr_match("10.0.0.0", "10.0.0.0/255"));
}

#[test]
fn ipv4_skips_pieces_that_do_not_parse() {
    assert_eq!(ipv4_value("1.2.3.4"), Some(0x01020304));
    assert_eq!(ipv4_value("1.2.x.3.4"), Some(0x01020304));
    assert_eq!(ipv4_value("1..2.3.4"), Some(0x01020304));
    assert_eq!(ipv4_value("1.2.3.256"), None);
    assert_eq!(ipv4_value("255.255.255.255"), Some(u32::MAX));
    assert_eq!(ipv4_value(""), None);
}

#[test]
fn prefix_masks() {
    assert_eq!(prefix_mask(0), 0);
    assert_eq!(prefix_mask(8), 0xFF00_0000);
    assert_eq!(prefix_mask(24), 0xFFFF_FF00);
    assert_eq!(prefix_mask(32), 0xFFFF_FFFF);
    assert_eq!(prefix_mask(1), 0x8000_0000);
}

#[test]
fn list_match_prefers_exact_then_first_cidr() {
    let pats = vec!["10.0.0.1".to_string(), "10.0.0.0/8".to_string(), "10.0.0.0/16".to_string()];
    assert_eq!(ip_list_match("10.0.0.1", 1, &pats), IpListMatch::Exact);
    assert_eq!(ip_list_match("10.0.5.1", 0, &pats), IpListMatch::Cidr(1));
    assert_eq!(ip_list_match("11.0.0.1", 0, &pats), IpListMatch::NoMatch);
    assert_eq!(ip_list_match("10.0.0.1", 0, &vec![]), IpListMatch::NoMatch);
}
