use diverge::conf::{
    parse_line, parse_proto, Conf, ConfError, ConfSized, DivergeConf, GlobalSec, Line, Protocol,
    Section, SectionId, UpstreamSec,
};
use diverge::diverge::{Diverge, Lists, Step};
use diverge::dns::TYPE_A;
use diverge::ip_map::IpAddr;
use diverge::net::{parse_socket, SocketAddr};
use diverge::resolver::{default_port, failure_level, from, Failure, Level, TlsName};
use diverge::utils::frame;

const EXAMPLE: &str = "\
# where to listen
stray = line
[ Global ]
listen = 0.0.0.0:5353
unknown = ignored

[local]
Addresses = 192.168.1.1  192.168.1.2
protocol = UDP
ips = lists/local.ips   lists/more.ips
domains =\tlists/local.domains
disable_aaaa = true

[global]
LISTEN=[::1]:53

[cloud]
addresses = 1.1.1.1 2606:4700:4700::1111
protocol = tls
port = 8853
tls_dns_name = cloudflare-dns.com
";

fn lines(s: &str) -> Vec<String> {
    s.lines().map(|l| l.to_string()).collect()
}

#[test]
fn configuration_is_read() {
    let conf = <DivergeConf as Conf>::from(&lines(EXAMPLE)).unwrap();
    assert_eq!(conf.global.listen, SocketAddr { ip: IpAddr::V6(1), port: 53 });
    assert_eq!(conf.upstreams.len(), 2);
    let local = &conf.upstreams[0];
    assert_eq!(local.name, "local");
    assert_eq!(local.protocol, Protocol::Udp);
    assert_eq!(local.addrs, vec![IpAddr::V4(0xc0a8_0101), IpAddr::V4(0xc0a8_0102)]);
    assert_eq!(local.port, None);
    assert_eq!(local.tls_dns_name, None);
    assert_eq!(local.ips, vec!["lists/local.ips", "lists/more.ips"]);
    assert_eq!(local.domains, vec!["lists/local.domains"]);
    assert!(local.disable_aaaa);
    let cloud = &conf.upstreams[1];
    assert_eq!(cloud.name, "cloud");
    assert_eq!(cloud.protocol, Protocol::Tls);
    assert_eq!(
        cloud.addrs,
        vec![IpAddr::V4(0x0101_0101), IpAddr::V6(0x2606_4700_4700_0000_0000_0000_0000_1111)]
    );
    assert_eq!(cloud.port, Some(8853));
    assert_eq!(cloud.tls_dns_name, Some("cloudflare-dns.com".to_string()));
    assert!(cloud.ips.is_empty());
    assert!(!cloud.disable_aaaa);
}

#[test]
fn configuration_is_read_from_text() {
    let conf = DivergeConf::from_str(EXAMPLE).unwrap();
    assert_eq!(conf.upstreams.len(), 2);
    let conf = DivergeConf::from_str("").unwrap();
    assert_eq!(conf.global.listen, SocketAddr { ip: IpAddr::V4(0x7f00_0001), port: 1054 });
    assert!(conf.upstreams.is_empty());
    let conf = DivergeConf::from_str("[a]\r\n[b]\r\n[a]\r\n").unwrap();
    assert_eq!(conf.upstreams.len(), 3);
    assert_eq!(conf.upstreams[2].name, "a");
}

#[test]
fn configuration_errors() {
    let read = |s: &str| DivergeConf::from_str(s).err();
    assert_eq!(read("[u]\nno equals sign"), Some(ConfError::Line));
    assert_eq!(read("no equals sign\n[u]"), None);
    assert_eq!(read("[global]\nlisten = nowhere"), Some(ConfError::Listen));
    assert_eq!(read("[global]\nlisten = 1.2.3.4"), Some(ConfError::Listen));
    assert_eq!(read("[global]\nlisten = 1.2.3.4:65536"), Some(ConfError::Listen));
    assert_eq!(read("[u]\naddresses = 1.2.3.4 five"), Some(ConfError::Address));
    assert_eq!(read("[u]\naddresses = 1.2.3.4\t1.2.3.5"), Some(ConfError::Address));
    assert_eq!(read("[u]\nprotocol = quic"), Some(ConfError::Protocol));
    assert_eq!(read("[u]\nport = 65536"), Some(ConfError::Port));
    assert_eq!(read("[u]\nport ="), Some(ConfError::Port));
    assert_eq!(read("[u]\ndisable_aaaa = yes"), Some(ConfError::Flag));
    assert_eq!(read("[u]\ndisable_aaaa = True"), Some(ConfError::Flag));
    // the first error counts
    assert_eq!(read("[u]\nport = x\nprotocol = y"), Some(ConfError::Port));
    // keys of another section are not known in `global`
    assert_eq!(read("[global]\nport = x"), None);
}

#[test]
fn lines_are_told_apart() {
    let kind = |l: &str| match parse_line(l) {
        Line::Blank => "blank".to_string(),
        Line::Section { name } => format!("[{}]", name),
        Line::Pair { key, value } => format!("{}={}", key, value),
        Line::Bare => "bare".to_string(),
    };
    assert_eq!(kind(""), "blank");
    assert_eq!(kind("  \t"), "blank");
    assert_eq!(kind(" # [x]"), "blank");
    assert_eq!(kind("[x]"), "[x]");
    assert_eq!(kind("  [  x y  ]  "), "[x y]");
    assert_eq!(kind("[]"), "[]");
    assert_eq!(kind("[a]=[b]"), "[a]=[b]");
    assert_eq!(kind("["), "bare");
    assert_eq!(kind("]"), "bare");
    assert_eq!(kind("[x] # c"), "bare");
    assert_eq!(kind("k=v"), "k=v");
    assert_eq!(kind(" k k \t=\t v = w "), "k k=v = w");
    assert_eq!(kind("="), "=");
    assert_eq!(kind("k"), "bare");
}

#[test]
fn sections_are_set() {
    let mut u = UpstreamSec::new("x");
    assert_eq!(u.protocol, Protocol::Udp);
    assert_eq!(u.set("PORT", "+53"), Ok(()));
    assert_eq!(u.port, Some(53));
    assert_eq!(u.set("port", "0x35"), Err(ConfError::Port));
    assert_eq!(u.port, Some(53));
    assert_eq!(u.set("tls_dns_name", ""), Ok(()));
    assert_eq!(u.tls_dns_name, Some(String::new()));
    assert_eq!(u.set("domains", " a  b\tc "), Ok(()));
    assert_eq!(u.domains, vec!["a", "b", "c"]);
    assert_eq!(u.set("domains", ""), Ok(()));
    assert!(u.domains.is_empty());
    assert_eq!(u.set("addresses", ""), Ok(()));
    assert!(u.addrs.is_empty());
    assert_eq!(u.set("disable_aaaa", "true"), Ok(()));
    assert_eq!(u.set("disable_aaaa", "false"), Ok(()));
    assert!(!u.disable_aaaa);
    assert_eq!(u.set("nothing", "at all"), Ok(()));

    let mut g = GlobalSec::new();
    assert_eq!(g.set("Listen", "[2001:db8::1]:8053"), Ok(()));
    assert_eq!(g.listen, SocketAddr { ip: IpAddr::V6(0x2001_0db8 << 96 | 1), port: 8053 });
    assert_eq!(g.set("listen", "2001:db8::1:8053"), Err(ConfError::Listen));
    assert_eq!(g.set("other", "x"), Ok(()));

    let mut c = DivergeConf::new();
    assert_eq!(c.sec_mut("GLOBAL"), SectionId::Global);
    assert_eq!(c.sec_mut("one"), SectionId::Upstream(0));
    assert_eq!(c.sec_mut("two"), SectionId::Upstream(1));
    assert_eq!(Conf::set(&mut c, &SectionId::Upstream(1), "port", "1"), Ok(()));
    assert_eq!(c.upstreams[1].port, Some(1));
    assert_eq!(c.upstreams[0].port, None);
    assert_eq!(Conf::set(&mut c, &SectionId::Upstream(2), "port", "x"), Ok(()));
    assert_eq!(Conf::set(&mut c, &SectionId::Global, "listen", "x"), Err(ConfError::Listen));
}

#[test]
fn protocols() {
    assert_eq!(parse_proto("udp"), Some(Protocol::Udp));
    assert_eq!(parse_proto("TCP"), Some(Protocol::Tcp));
    assert_eq!(parse_proto("Tls"), Some(Protocol::Tls));
    assert_eq!(parse_proto("https"), Some(Protocol::Https));
    assert_eq!(parse_proto("H3"), Some(Protocol::H3));
    assert_eq!(parse_proto("quic"), None);
    assert_eq!(parse_proto(""), None);
    assert_eq!(parse_proto(" udp"), None);
    assert_eq!(default_port(Protocol::Udp), 53);
    assert_eq!(default_port(Protocol::Tcp), 53);
    assert_eq!(default_port(Protocol::Tls), 853);
    assert_eq!(default_port(Protocol::Https), 443);
    assert_eq!(default_port(Protocol::H3), 443);
}

#[test]
fn sockets() {
    assert_eq!(parse_socket("127.0.0.1:1054"), Some(SocketAddr { ip: IpAddr::V4(0x7f00_0001), port: 1054 }));
    assert_eq!(parse_socket("[::]:0"), Some(SocketAddr { ip: IpAddr::V6(0), port: 0 }));
    assert_eq!(parse_socket("1.2.3.4:00053"), Some(SocketAddr { ip: IpAddr::V4(0x0102_0304), port: 53 }));
    for s in ["", ":53", "1.2.3.4", "1.2.3.4:", "1.2.3.4:+53", "1.2.3.4:65536", "::1:53", "[::1]", "[::1]53", "[::1]:", "[1.2.3.4]:53", "[]:53", "[::1]:53 "] {
        assert_eq!(parse_socket(s), None, "{:?}", s);
    }
}

#[test]
fn name_servers() {
    let mut u = UpstreamSec::new("x");
    assert!(from(&u).is_empty());
    u.set("protocol", "tls").unwrap();
    assert!(from(&u).is_empty());
    u.set("addresses", "9.9.9.9 2620:fe::fe").unwrap();
    let servers = from(&u);
    assert_eq!(servers.len(), 2);
    assert_eq!(servers[0].socket_addr, SocketAddr { ip: IpAddr::V4(0x0909_0909), port: 853 });
    assert_eq!(servers[1].socket_addr.port, 853);
    assert_eq!(servers[1].socket_addr.ip, IpAddr::V6(0x2620_00fe << 96 | 0xfe));
    for s in &servers {
        assert_eq!(s.protocol, Protocol::Tls);
        assert!(s.trust_negative_responses);
        match &s.tls_dns_name {
            TlsName::Address(a) => assert_eq!(*a, IpAddr::V4(0x0909_0909)),
            _ => panic!("tls name"),
        }
    }
    u.set("tls_dns_name", "dns.quad9.net").unwrap();
    u.set("port", "8853").unwrap();
    u.set("protocol", "https").unwrap();
    let servers = from(&u);
    assert_eq!(servers[1].socket_addr.port, 8853);
    assert!(!servers[0].trust_negative_responses);
    match &servers[1].tls_dns_name {
        TlsName::Name(n) => assert_eq!(n, "dns.quad9.net"),
        _ => panic!("tls name"),
    }
    let mut plain = UpstreamSec::new("y");
    plain.set("addresses", "8.8.8.8").unwrap();
    let servers = from(&plain);
    assert_eq!(servers[0].socket_addr.port, 53);
    assert_eq!(servers[0].protocol, Protocol::Udp);
    assert!(matches!(servers[0].tls_dns_name, TlsName::Unnamed));
    assert!(!servers[0].trust_negative_responses);
}

#[test]
fn failures_are_weighed() {
    assert_eq!(failure_level(Failure::NoRecords { qtype: TYPE_A }), Level::Warn);
    assert_eq!(failure_level(Failure::NoRecords { qtype: 28 }), Level::Info);
    assert_eq!(failure_level(Failure::NoRecords { qtype: 16 }), Level::Info);
    assert_eq!(failure_level(Failure::Other), Level::Warn);
}

#[test]
fn messages_are_framed() {
    assert_eq!(frame(&[]), Some(vec![0, 0]));
    assert_eq!(frame(&[7, 8, 9]), Some(vec![0, 3, 7, 8, 9]));
    let long = vec![1u8; 0x1234];
    let framed = frame(&long).unwrap();
    assert_eq!(&framed[..2], &[0x12, 0x34]);
    assert_eq!(&framed[2..], &long[..]);
    assert_eq!(frame(&vec![0u8; 65535]).unwrap().len(), 65537);
    assert_eq!(frame(&vec![0u8; 65536]), None);
}

#[test]
fn engine_from_configuration() {
    let conf = DivergeConf::from_str("[a]\ndisable_aaaa = true\n[b]\n").unwrap();
    let lists = vec![
        Lists { domains: vec![], ips: vec![vec!["10.0.0.0/8".to_string()]] },
        Lists { domains: vec![], ips: vec![] },
    ];
    let d = Diverge::from(&conf, &lists).unwrap();
    assert_eq!(d.upstream_count(), 2);
    assert_eq!(d.upstream(0).unwrap().name, "a");
    assert!(d.upstream(0).unwrap().disable_aaaa);
    assert!(!d.upstream(1).unwrap().disable_aaaa);
    assert!(Diverge::from(&conf, &vec![]).is_none());
    let none = DivergeConf::from_str("[global]\n").unwrap();
    assert!(Diverge::from(&none, &vec![]).is_none());

    // an AAAA question goes to the second upstream only
    let mut m = hickory_proto::op::Message::new();
    m.add_query(hickory_proto::op::Query::query(
        hickory_proto::rr::Name::from_ascii("x.example.").unwrap(),
        hickory_proto::rr::RecordType::AAAA,
    ));
    let req = diverge::dns::decode(&m.to_vec().unwrap()).unwrap();
    match d.start(&req) {
        Step::Wait(p) => assert_eq!(p.upstreams, vec![1]),
        Step::Reply(_) => panic!("reply"),
    }
}
