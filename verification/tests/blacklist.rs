use blacklist::addr::{IpAddr, SocketAddr};
use blacklist::pattern::PatternAddr;
use blacklist::ports::PortsSet;
use blacklist::Blacklist;

/// Renders a canonical 128-bit address the way the usual IPv6 notation does:
/// the IPv4-mapped form with a dotted tail, otherwise hex groups with the
/// longest zero run (of two or more) compressed.
fn fmt_ipv6(v: u128) -> String {
    if (v >> 32) == 0xffff {
        let w = (v & 0xffff_ffff) as u32;
        return format!(
            "::ffff:{}.{}.{}.{}",
            (w >> 24) & 0xff,
            (w >> 16) & 0xff,
            (w >> 8) & 0xff,
            w & 0xff
        );
    }
    let mut g = [0u16; 8];
    for i in 0..8 {
        g[i] = ((v >> (16 * (7 - i))) & 0xffff) as u16;
    }
    let mut best_start = 0usize;
    let mut best_len = 0usize;
    let mut cur_start = 0usize;
    let mut cur_len = 0usize;
    for i in 0..8 {
        if g[i] == 0 {
            if cur_len == 0 {
                cur_start = i;
            }
            cur_len += 1;
            if cur_len > best_len {
                best_len = cur_len;
                best_start = cur_start;
            }
        } else {
            cur_len = 0;
        }
    }
    if best_len < 2 {
        let parts: Vec<String> = g.iter().map(|x| format!("{:x}", x)).collect();
        return parts.join(":");
    }
    let head: Vec<String> = g[..best_start].iter().map(|x| format!("{:x}", x)).collect();
    let tail: Vec<String> = g[best_start + best_len..]
        .iter()
        .map(|x| format!("{:x}", x))
        .collect();
    format!("{}::{}", head.join(":"), tail.join(":"))
}

fn parse(value: &str) -> String {
    match PatternAddr::from_str(value) {
        Ok(PatternAddr::Ip(ip)) => fmt_ipv6(ip),
        Ok(PatternAddr::IpPort(ip, port)) => format!("[{}]:{}", fmt_ipv6(ip), port),
        Err(_) => "err".to_string(),
    }
}

fn parsed_ip(value: &str) -> u128 {
    match PatternAddr::from_str(value) {
        Ok(PatternAddr::Ip(ip)) => ip,
        _ => panic!("expected a bare IP pattern"),
    }
}

fn sa(ip: IpAddr, port: u16) -> SocketAddr {
    SocketAddr { ip, port }
}

#[test]
fn test_pattern_addr() {
    assert_eq!("err", parse("foo"));
    assert_eq!("err", parse("192.0.2.*"));
    assert_eq!("err", parse("192.0.2.0/24"));
    assert_eq!("err", parse("192.0.2.4.5"));
    assert_eq!("err", parse("192.0.2.4:424242"));

    assert_eq!("::ffff:192.0.2.4", parse("192.0.2.4"));
    assert_eq!("[::ffff:192.0.2.4]:0", parse("192.0.2.4:0"));
    assert_eq!("[::ffff:192.0.2.4]:42", parse("192.0.2.4:42"));

    assert_eq!("::1", parse("::1"));
    assert_eq!("[::1]:42", parse("[::1]:42"));

    assert_eq!("::ffff:127.0.0.1", parse("::ffff:127.0.0.1"));
    assert_eq!("[::ffff:127.0.0.1]:42", parse("[::ffff:127.0.0.1]:42"));
}

#[test]
fn test_ports_set() {
    let mut ports = PortsSet::new(42);
    assert!(ports.contains(42));
    assert!(!ports.contains(24));
    ports.add_port(24);
    assert!(ports.contains(42));
    assert!(ports.contains(24));
    assert!(!ports.contains(12));
    ports.add_all();
    assert!(ports.contains(42));
    assert!(ports.contains(24));
    assert!(ports.contains(12));
}

#[test]
fn test_blacklist() {
    let ip = IpAddr::V4(192, 0, 2, 4);
    let lo4 = IpAddr::V4(127, 0, 0, 1);
    let lo6 = IpAddr::V6(1);
    let mapped_ip = IpAddr::V6(parsed_ip("::ffff:192.0.2.4"));
    let mapped_lo4 = IpAddr::V6(parsed_ip("::ffff:127.0.0.1"));

    let filter = Blacklist::from_iter(&vec![
        "127.0.0.1".to_string(),
        "192.0.2.4:42".to_string(),
        "[::1]:42".to_string(),
    ]);

    assert!(filter.contains(&sa(lo4, 42)));
    assert!(filter.contains(&sa(lo4, 8080)));
    assert!(filter.contains(&sa(ip, 42)));
    assert!(!filter.contains(&sa(ip, 8080)));
    assert!(filter.contains(&sa(lo6, 42)));
    assert!(!filter.contains(&sa(lo6, 8080)));
    assert!(filter.contains(&sa(mapped_lo4, 42)));
    assert!(filter.contains(&sa(mapped_lo4, 8080)));
    assert!(filter.contains(&sa(mapped_ip, 42)));
    assert!(!filter.contains(&sa(mapped_ip, 8080)));
}

#[test]
fn both_spellings_one_canonical_address() {
    assert_eq!(parsed_ip("192.0.2.4"), parsed_ip("::ffff:192.0.2.4"));
    assert_eq!(parsed_ip("127.0.0.1"), parsed_ip("::ffff:127.0.0.1"));
    assert_eq!(parsed_ip("0.0.0.0"), parsed_ip("::ffff:0.0.0.0"));
    assert_eq!(parsed_ip("255.255.255.255"), parsed_ip("::ffff:255.255.255.255"));
}

#[test]
fn ip_rule_denies_every_port_in_both_families() {
    let filter = Blacklist::from_iter(&vec!["192.0.2.4".to_string()]);
    let mapped = IpAddr::V6(parsed_ip("::ffff:192.0.2.4"));
    for port in [0u16, 1, 42, 8080, 65535] {
        assert!(filter.contains(&sa(IpAddr::V4(192, 0, 2, 4), port)));
        assert!(filter.contains(&sa(mapped, port)));
    }
    assert!(!filter.contains(&sa(IpAddr::V4(192, 0, 2, 5), 42)));
}

#[test]
fn ip_port_rule_denies_exactly_one_endpoint() {
    let filter = Blacklist::from_iter(&vec!["192.0.2.4:42".to_string()]);
    assert!(filter.contains(&sa(IpAddr::V4(192, 0, 2, 4), 42)));
    assert!(filter.contains(&sa(IpAddr::V6(parsed_ip("::ffff:192.0.2.4")), 42)));
    for port in [0u16, 1, 41, 43, 8080, 65535] {
        assert!(!filter.contains(&sa(IpAddr::V4(192, 0, 2, 4), port)));
    }
    assert!(!filter.contains(&sa(IpAddr::V4(192, 0, 2, 5), 42)));
}

#[test]
fn all_ports_stays_all_after_adding_one() {
    let mut ports = PortsSet::new(1);
    ports.add_all();
    ports.add_port(5);
    assert!(ports.contains(5));
    assert!(ports.contains(9999));
    assert!(ports.contains(0));
    assert!(ports.contains(65535));
}

#[test]
fn invalid_entry_changes_nothing() {
    let with_bad = Blacklist::from_iter(&vec![
        "127.0.0.1".to_string(),
        "192.0.2.4.5".to_string(),
        "192.0.2.0/24".to_string(),
        "[::1]:42".to_string(),
    ]);
    let without = Blacklist::from_iter(&vec!["127.0.0.1".to_string(), "[::1]:42".to_string()]);
    let probes = [
        sa(IpAddr::V4(127, 0, 0, 1), 42),
        sa(IpAddr::V4(192, 0, 2, 4), 42),
        sa(IpAddr::V4(192, 0, 2, 5), 80),
        sa(IpAddr::V6(1), 42),
        sa(IpAddr::V6(1), 43),
    ];
    for p in probes {
        assert_eq!(with_bad.contains(&p), without.contains(&p));
    }
}

#[test]
fn duplicate_pattern_changes_nothing() {
    let twice = Blacklist::from_iter(&vec![
        "192.0.2.4:42".to_string(),
        "192.0.2.4:42".to_string(),
    ]);
    let once = Blacklist::from_iter(&vec!["192.0.2.4:42".to_string()]);
    let probes = [
        sa(IpAddr::V4(192, 0, 2, 4), 42),
        sa(IpAddr::V4(192, 0, 2, 4), 43),
        sa(IpAddr::V4(192, 0, 2, 5), 42),
    ];
    for p in probes {
        assert_eq!(twice.contains(&p), once.contains(&p));
    }
}

#[test]
fn empty_and_all_invalid_lists_deny_nothing() {
    let empty = Blacklist::from_iter(&vec![]);
    let invalid = Blacklist::from_iter(&vec!["foo".to_string(), "192.0.2.*".to_string()]);
    for p in [
        sa(IpAddr::V4(127, 0, 0, 1), 42),
        sa(IpAddr::V6(1), 0),
        sa(IpAddr::V4(0, 0, 0, 0), 0),
    ] {
        assert!(!empty.contains(&p));
        assert!(!invalid.contains(&p));
    }
}

#[test]
fn port_grammar_edges() {
    assert_eq!("[::ffff:192.0.2.4]:65535", parse("192.0.2.4:65535"));
    assert_eq!("err", parse("192.0.2.4:65536"));
    assert_eq!("err", parse("192.0.2.4:"));
    // the port may carry leading zeros, as the usual socket-address grammar has it
    assert_eq!("[::ffff:192.0.2.4]:42", parse("192.0.2.4:042"));
    assert_eq!("[::1]:0", parse("[::1]:0"));
    assert_eq!("err", parse("[::1]"));
    assert_eq!("err", parse("[::1]:"));
    assert_eq!("err", parse("[::1]:65536"));
}

#[test]
fn ipv4_grammar_edges() {
    // octets take no leading zero and at most three digits
    assert_eq!("err", parse("01.2.3.4"));
    assert_eq!("err", parse("1.2.3.004"));
    assert_eq!("::ffff:0.0.0.0", parse("0.0.0.0"));
    assert_eq!("::ffff:255.255.255.255", parse("255.255.255.255"));
    assert_eq!("err", parse("256.0.0.1"));
    assert_eq!("err", parse("300.1.2.3"));
    assert_eq!("err", parse("1.2.3"));
    assert_eq!("err", parse("1.2.3.4."));
    assert_eq!("err", parse(".1.2.3.4"));
    assert_eq!("err", parse(""));
}

#[test]
fn ipv6_grammar_edges() {
    assert_eq!("1:2:3:4:5:6:7:8", parse("1:2:3:4:5:6:7:8"));
    assert_eq!("err", parse("1:2:3:4:5:6:7:8:9"));
    assert_eq!("err", parse("1:2:3:4:5:6:7"));
    assert_eq!("::", parse("::"));
    assert_eq!("1::8", parse("1::8"));
    assert_eq!("1:2:3:4:5:6:7:0", parse("1:2:3:4:5:6:7::"));
    assert_eq!("err", parse("::1:2:3:4:5:6:7:8"));
    assert_eq!("err", parse(":::"));
    assert_eq!("err", parse(":1::2"));
    assert_eq!("err", parse("1:2:3:4:5:6:7:8::"));
    assert_eq!("err", parse("12345::"));
    assert_eq!("abcd::ef", parse("abcd::ef"));
    assert_eq!("abcd::ef", parse("ABCD::EF"));
    assert_eq!("::ffff:192.0.2.4", parse("::ffff:192.0.2.4"));
    assert_eq!("err", parse("::ffff:192.0.2.4.5"));
    assert_eq!("err", parse("1.2.3.4::"));
    assert_eq!("1:2:3:4:5:6:102:304", parse("1:2:3:4:5:6:1.2.3.4"));
}

#[test]
fn end_to_end_scenario() {
    let filter = Blacklist::from_iter(&vec![
        "127.0.0.1".to_string(),
        "192.0.2.4:42".to_string(),
        "[::1]:42".to_string(),
    ]);
    assert!(filter.contains(&sa(IpAddr::V4(127, 0, 0, 1), 42)));
    assert!(filter.contains(&sa(IpAddr::V4(127, 0, 0, 1), 8080)));
    assert!(filter.contains(&sa(IpAddr::V4(192, 0, 2, 4), 42)));
    assert!(!filter.contains(&sa(IpAddr::V4(192, 0, 2, 4), 8080)));
    assert!(filter.contains(&sa(IpAddr::V6(1), 42)));
    assert!(!filter.contains(&sa(IpAddr::V6(1), 8080)));
    assert!(filter.contains(&sa(IpAddr::V6(parsed_ip("::ffff:127.0.0.1")), 42)));
    assert!(filter.contains(&sa(IpAddr::V6(parsed_ip("::ffff:192.0.2.4")), 42)));
    assert!(!filter.contains(&sa(IpAddr::V6(parsed_ip("::ffff:192.0.2.4")), 8080)));
}

#[test]
fn pattern_order_is_irrelevant() {
    let fwd = Blacklist::from_iter(&vec![
        "127.0.0.1".to_string(),
        "192.0.2.4:42".to_string(),
        "[::1]:42".to_string(),
    ]);
    let rev = Blacklist::from_iter(&vec![
        "[::1]:42".to_string(),
        "192.0.2.4:42".to_string(),
        "127.0.0.1".to_string(),
    ]);
    let probes = [
        sa(IpAddr::V4(127, 0, 0, 1), 42),
        sa(IpAddr::V4(127, 0, 0, 1), 8080),
        sa(IpAddr::V4(192, 0, 2, 4), 42),
        sa(IpAddr::V4(192, 0, 2, 4), 8080),
        sa(IpAddr::V6(1), 42),
        sa(IpAddr::V6(1), 8080),
    ];
    for p in probes {
        assert_eq!(fwd.contains(&p), rev.contains(&p));
    }
}

#[test]
fn whole_ip_rule_wins_over_port_rule_in_either_order() {
    let port_first = Blacklist::from_iter(&vec![
        "192.0.2.4:42".to_string(),
        "192.0.2.4".to_string(),
    ]);
    let ip_first = Blacklist::from_iter(&vec![
        "192.0.2.4".to_string(),
        "192.0.2.4:42".to_string(),
    ]);
    for port in [42u16, 8080, 0] {
        assert!(port_first.contains(&sa(IpAddr::V4(192, 0, 2, 4), port)));
        assert!(ip_first.contains(&sa(IpAddr::V4(192, 0, 2, 4), port)));
    }
}

#[test]
fn default_filter_denies_nothing() {
    let filter = Blacklist::default();
    assert!(!filter.contains(&sa(IpAddr::V4(127, 0, 0, 1), 42)));
    assert!(!filter.contains(&sa(IpAddr::V6(1), 42)));
}

#[test]
fn canonicalize_maps_v4_into_v6() {
    let v4 = IpAddr::V4(192, 0, 2, 4);
    let mapped = parsed_ip("::ffff:192.0.2.4");
    assert_eq!(v4.canonical(), mapped);
    assert_eq!(IpAddr::V6(mapped).canonical(), mapped);
    assert_eq!(IpAddr::V4(0, 0, 0, 0).canonical(), 0xffff_0000_0000u128);
}
