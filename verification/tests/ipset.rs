use diverge::ip4set::Ip4Set;
use diverge::ip_map::IpAddr;
use diverge::ipset::IpSet;
use diverge::net::parse_ip;

fn v4(ip: &str) -> u32 {
    match parse_ip(ip).unwrap() {
        IpAddr::V4(a) => a,
        IpAddr::V6(_) => panic!("not an IPv4 address: {}", ip),
    }
}

#[test]
fn ipset_size() {
    println!("size_of::<IpSet>: {}", std::mem::size_of::<IpSet>());
}

#[test]
fn ipset_test() {
    let mut s = IpSet::new();
    for (net, len) in [("127.0.0.1", 24), ("2001:db8::", 32)] {
        let net: IpAddr = parse_ip(net).unwrap();
        s.insert(net, len);
    }

    let tests = [
        ("126.255.255.255", false),
        ("127.0.0.0", true),
        ("127.0.0.255", true),
        ("127.0.1.0", false),
        ("2001:db7:ffff:ffff:ffff:ffff:ffff:ffff", false),
        ("2001:db8::0", true),
        ("2001:db8:ffff:ffff:ffff:ffff:ffff:ffff", true),
        ("2001:db9::0", false),
    ];
    for (ip, expected) in tests.iter() {
        let a: IpAddr = parse_ip(ip).unwrap();
        assert_eq!(s.contains(a), *expected);
    }
}

#[test]
fn ip4set_test() {
    let mut s = Ip4Set::new();
    for (net, len) in [("127.0.0.1", 24)] {
        s.insert(v4(net), len);
    }

    let tests = [
        ("126.255.255.255", false),
        ("127.0.0.1", true),
        ("127.0.0.255", true),
        ("127.0.1.1", false),
    ];
    for (ip, expected) in tests.iter() {
        assert_eq!(s.contains(v4(ip)), *expected);
    }
}

#[test]
fn ipset_rejects_long_prefixes() {
    let mut s = IpSet::new();
    s.insert_v4(0x0a00_0000, 33);
    s.insert_v6(1 << 127, 65);
    assert!(!s.contains_v4(0x0a00_0000));
    assert!(!s.contains_v6(1 << 127));
    s.insert_v4(0x0a00_0000, 32);
    s.insert_v6(1 << 127, 64);
    assert!(s.contains_v4(0x0a00_0000));
    assert!(!s.contains_v4(0x0a00_0001));
    assert!(s.contains_v6((1 << 127) | 0xffff));
    assert!(!s.contains_v6((1 << 127) | (1 << 64)));
}

#[test]
fn ip4set_rejects_bad_lengths() {
    let mut s = Ip4Set::new();
    s.insert(0x0a00_0000, -1);
    s.insert(0x0a00_0000, 33);
    assert!(!s.contains(0x0a00_0000));
    s.insert(0x0a00_0000, 0);
    assert!(s.contains(0x0a00_0000));
    assert!(s.contains(0xffff_ffff));
}

#[test]
fn sets_take_lines() {
    let mut s = IpSet::new();
    assert_eq!(s.append_line("10.0.0.0/8"), Some(()));
    assert_eq!(s.append_line("2001:db8::/32"), Some(()));
    assert_eq!(s.append_line("2001:db8::/65"), None);
    assert_eq!(s.append_line("10.0.0.0/33"), None);
    assert_eq!(s.append_line("10.0.0.0"), None);
    assert!(s.contains(parse_ip("10.9.8.7").unwrap()));
    assert!(s.contains(parse_ip("2001:db8:ffff::1").unwrap()));
    assert!(!s.contains(parse_ip("11.0.0.0").unwrap()));

    let mut s = Ip4Set::new();
    assert_eq!(s.append_line("192.168.0.0/16"), Some(()));
    assert_eq!(s.append_line("2001:db8::/32"), None);
    assert_eq!(s.append_line("nothing"), None);
    assert!(s.contains(v4("192.168.255.255")));
    assert!(!s.contains(v4("192.169.0.0")));
}
