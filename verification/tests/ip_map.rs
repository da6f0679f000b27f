use diverge::ip_map::{mask4, mask6, IpAddr, IpMap};
use diverge::net::{parse_cidr, parse_ip};
use diverge::utils::FromLst;

#[test]
fn ip_map_size() {
    println!("size_of::<IpSet>: {}", std::mem::size_of::<IpMap<u8>>());
}

#[test]
fn ip_map_test_ip_map() {
    let mut m = IpMap::new(false);
    for (net, len) in [("127.0.0.1", 24), ("2001:db8::", 32)] {
        m.insert(parse_ip(net).unwrap(), len, true);
    }

    let tests = [
        ("126.255.255.255", false),
        ("127.0.0.0", true),
        ("127.0.0.255", true),
        ("127.0.1.0", false),
        ("2001:db7:ffff:ffff:ffff:ffff:ffff:ffff", false),
        ("2001:db8::0", true),
        ("2001:db8:ffff:ffff:ffff:ffff:ffff:ffff", true),
        ("2001:db9::0", false),
    ];
    for (ip, expected) in tests.iter() {
        assert_eq!(m.get(parse_ip(ip).unwrap()), *expected);
    }
}

#[test]
fn longest_prefix_wins() {
    let mut m = IpMap::new(9u8);
    m.insert(IpAddr::V4(0x0a00_0000), 8, 0);
    m.insert(IpAddr::V4(0x0a01_0000), 16, 1);
    m.insert(IpAddr::V4(0x0a01_0200), 24, 2);
    m.insert(IpAddr::V4(0x0a01_0203), 32, 3);
    assert_eq!(m.get4(0x0a01_0203), 3);
    assert_eq!(m.get4(0x0a01_0204), 2);
    assert_eq!(m.get4(0x0a01_0304), 1);
    assert_eq!(m.get4(0x0a02_0304), 0);
    assert_eq!(m.get4(0x0b02_0304), 9);
    assert_eq!(m.get(IpAddr::V6(1)), 9);
}

#[test]
fn zero_length_prefix_covers_all() {
    let mut m = IpMap::new(1u8);
    m.insert(IpAddr::V4(0xffff_ffff), 0, 2);
    m.insert(IpAddr::V6(7), 0, 3);
    assert_eq!(m.get4(0), 2);
    assert_eq!(m.get4(0x0102_0304), 2);
    assert_eq!(m.get6(0), 3);
    assert_eq!(m.get6(u128::MAX), 3);
}

#[test]
fn too_long_prefix_is_rejected() {
    let mut m = IpMap::new(0u8);
    m.insert(IpAddr::V4(0x0a00_0000), 33, 1);
    m.insert(IpAddr::V6(0x2001_0db8 << 96), 129, 1);
    assert_eq!(m.get4(0x0a00_0000), 0);
    assert_eq!(m.get6(0x2001_0db8 << 96), 0);
    m.insert(IpAddr::V4(0x0a00_0000), 32, 1);
    m.insert(IpAddr::V6(0x2001_0db8 << 96), 128, 1);
    assert_eq!(m.get4(0x0a00_0000), 1);
    assert_eq!(m.get6(0x2001_0db8 << 96), 1);
    assert_eq!(m.get4(0x0a00_0001), 0);
}

#[test]
fn insert_replaces_prefix() {
    let mut m = IpMap::new(0u8);
    m.insert(IpAddr::V4(0x7f00_0001), 24, 1);
    m.insert(IpAddr::V4(0x7f00_00fe), 24, 2);
    assert_eq!(m.get4(0x7f00_0010), 2);
}

#[test]
fn masks() {
    assert_eq!(mask4(0x0102_0304, 0), 0);
    assert_eq!(mask4(0x0102_0304, 8), 0x0100_0000);
    assert_eq!(mask4(0x0102_0304, 23), 0x0102_0200);
    assert_eq!(mask4(0x0102_0304, 32), 0x0102_0304);
    assert_eq!(mask6(u128::MAX, 0), 0);
    assert_eq!(mask6(u128::MAX, 1), 1 << 127);
    assert_eq!(mask6(u128::MAX, 64), (u64::MAX as u128) << 64);
    assert_eq!(mask6(u128::MAX, 128), u128::MAX);
}

#[test]
fn ip_list_is_loaded() {
    let mut m = IpMap::new(1u8);
    let lines: Vec<String> = [
        "# comment",
        "10.0.0.0/8",
        "  192.168.1.7/24  ",
        "",
        "not an address/8",
        "10.0.0.0",
        "10.0.0.0/33",
        "2001:db8::/32",
        "fe80::/129",
        "172.16.0.0/+12",
    ]
    .iter()
    .map(|s| s.to_string())
    .collect();
    assert_eq!(m.append_from(&lines, 0), 4);
    assert_eq!(m.get(parse_ip("10.200.3.4").unwrap()), 0);
    assert_eq!(m.get(parse_ip("192.168.1.200").unwrap()), 0);
    assert_eq!(m.get(parse_ip("192.168.2.1").unwrap()), 1);
    assert_eq!(m.get(parse_ip("2001:db8:1::1").unwrap()), 0);
    assert_eq!(m.get(parse_ip("fe80::1").unwrap()), 1);
    assert_eq!(m.get(parse_ip("172.31.255.255").unwrap()), 0);
    assert_eq!(m.append_line("1.2.3.4/32", 0), Some(()));
    assert_eq!(m.append_line("1.2.3.4/", 0), None);
    assert_eq!(m.append_line("1.2.3.4/-1", 0), None);
}

#[test]
fn cidr_text() {
    assert_eq!(parse_cidr("10.0.0.0/8"), Some((IpAddr::V4(0x0a00_0000), 8)));
    assert_eq!(parse_cidr("::1/128"), Some((IpAddr::V6(1), 128)));
    assert_eq!(parse_cidr("10.0.0.0/008"), Some((IpAddr::V4(0x0a00_0000), 8)));
    assert_eq!(parse_cidr("10.0.0.0/33"), None);
    assert_eq!(parse_cidr("::/129"), None);
    assert_eq!(parse_cidr("10.0.0.0/8/8"), None);
    assert_eq!(parse_cidr("/8"), None);
    assert_eq!(parse_cidr("10.0.0.0/4294967296"), None);
}

#[test]
fn longest_match_is_found() {
    let mut m = IpMap::new(0u8);
    assert_eq!(m.find4(0x0a01_0203), None);
    assert_eq!(m.find6(1), None);
    m.insert(IpAddr::V4(0x0a00_0000), 8, 1);
    m.insert(IpAddr::V4(0x0a01_0000), 16, 2);
    m.insert(IpAddr::V6(0), 127, 3);
    assert_eq!(m.find4(0x0a01_0203), Some((16, 2)));
    assert_eq!(m.find4(0x0a02_0203), Some((8, 1)));
    assert_eq!(m.find4(0x0b02_0203), None);
    assert_eq!(m.find6(1), Some((127, 3)));
    assert_eq!(m.find6(2), None);
}
