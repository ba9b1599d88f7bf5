use resolve::address::{address_equal, address_name, IpAddr, Ipv4Addr, Ipv6Addr, SocketAddr, socket_address_equal};
use resolve::idna::{to_ascii, to_unicode};
use resolve::message::{encode_name, is_valid_segment};

static SAMPLE_HOSTS: &'static [(&'static str, &'static str)] = &[
    ("bücher.de.", "xn--bcher-kva.de."),
    ("ουτοπία.δπθ.gr.", "xn--kxae4bafwg.xn--pxaix.gr."),
    // We want to preserve a lack of trailing '.', too.
    ("bücher.de", "xn--bcher-kva.de"),
    ("ουτοπία.δπθ.gr", "xn--kxae4bafwg.xn--pxaix.gr"),
];

#[test]
fn idna_test_hosts() {
    for &(uni, ascii) in SAMPLE_HOSTS {
        assert_eq!(to_ascii(uni).unwrap(), ascii);
        assert_eq!(to_unicode(ascii).unwrap(), uni);

        // Ensure the functions are idempotent
        assert_eq!(to_ascii(ascii).unwrap(), ascii);
        assert_eq!(to_unicode(uni).unwrap(), uni);
    }
}

#[test]
fn punycode_prefix_in_any_case() {
    assert_eq!(to_unicode("XN--bcher-kva.de").unwrap(), "bücher.de");
    assert_eq!(to_unicode("www.example.com").unwrap(), "www.example.com");
}

#[test]
fn encode_name_uses_ascii_form() {
    let w = encode_name("bücher.de").unwrap();
    assert_eq!(w, b"\x0dxn--bcher-kva\x02de\x00".to_vec());
}

#[test]
fn segment_checks() {
    assert!(is_valid_segment("foo-bar"));
    assert!(!is_valid_segment("-foo"));
    assert!(!is_valid_segment("foo-"));
    assert!(!is_valid_segment("fo o"));
    assert!(!is_valid_segment("fo\u{7}o"));
    assert!(is_valid_segment(""));
}

#[test]
fn test_address_equal() {
    let ip = Ipv4Addr::new(1, 2, 3, 4);
    let a = IpAddr::V4(ip);

    let compatible = IpAddr::V6(Ipv6Addr::new(0, 0, 0, 0, 0, 0, 0x0102, 0x0304));
    assert!(address_equal(&a, &compatible));
    assert!(address_equal(&a, &IpAddr::V6(ip.to_ipv6_mapped())));
    assert!(!address_equal(
        &a,
        &IpAddr::V6(Ipv6Addr::new(1, 0, 0, 0, 0, 0, 0x0102, 0x0304))
    ));
    assert!(address_equal(&compatible, &a));
    assert!(!address_equal(&a, &IpAddr::V4(Ipv4Addr::new(1, 2, 3, 5))));
}

#[test]
fn socket_addresses_need_equal_ports() {
    let a = SocketAddr { ip: IpAddr::V4(Ipv4Addr::new(10, 0, 0, 1)), port: 53 };
    let b = SocketAddr { ip: IpAddr::V6(Ipv4Addr::new(10, 0, 0, 1).to_ipv6_mapped()), port: 53 };
    let c = SocketAddr { ip: IpAddr::V4(Ipv4Addr::new(10, 0, 0, 1)), port: 54 };
    assert!(socket_address_equal(&a, &b));
    assert!(!socket_address_equal(&a, &c));
}

#[test]
fn test_address_name() {
    assert_eq!(
        address_name(&IpAddr::V4(Ipv4Addr::new(192, 0, 2, 5))),
        "5.2.0.192.in-addr.arpa"
    );
    assert_eq!(
        address_name(&IpAddr::V6(Ipv6Addr::new(0x2001, 0xdb8, 0, 0, 0, 0, 0x567, 0x89ab))),
        "b.a.9.8.7.6.5.0.0.0.0.0.0.0.0.0.0.0.0.0.0.0.0.0.8.b.d.0.1.0.0.2.ip6.arpa"
    );
    assert_eq!(
        address_name(&IpAddr::V4(Ipv4Addr::new(0, 10, 255, 99))),
        "99.255.10.0.in-addr.arpa"
    );
}

#[test]
fn idna_failures_are_errors() {
    assert_eq!(to_unicode("xn--55555577"), Err(resolve::idna::Error));
    assert_eq!(to_ascii("\u{11C3A}"), Err(resolve::idna::Error));
    let data = b"\x0cxn--55555577\x00";
    assert_eq!(
        resolve::message::MsgReader::new(data).read_name(),
        Err(resolve::message::DecodeError::InvalidName)
    );
    assert_eq!(encode_name("\u{11C3A}.com"), Err(resolve::message::EncodeError::InvalidName));
}

fn host(address: IpAddr, name: &str, aliases: &[&str]) -> resolve::hosts::Host {
    resolve::hosts::Host {
        address,
        name: name.to_owned(),
        aliases: aliases.iter().map(|s| s.to_string()).collect(),
    }
}

#[test]
fn host_table_lookups() {
    let localhost = IpAddr::V4(Ipv4Addr::new(127, 0, 0, 1));
    let six = IpAddr::V6(Ipv6Addr::new(0, 0, 0, 0, 0, 0, 0, 1));
    let foo = IpAddr::V4(Ipv4Addr::new(192, 168, 10, 1));
    let table = resolve::hosts::HostTable {
        hosts: vec![
            host(localhost, "localhost", &[]),
            host(six, "ip6-localhost", &[]),
            host(foo, "foo", &["foo.bar", "foo.local"]),
            host(foo, "second", &["localhost"]),
        ],
    };
    assert_eq!(table.find_address("localhost"), Some(localhost));
    assert_eq!(table.find_address("ip6-localhost"), Some(six));
    assert_eq!(table.find_address("foo.local"), Some(foo));
    assert_eq!(table.find_name(foo), Some("foo"));
    assert_eq!(table.find_address("missing"), None);
    assert_eq!(table.find_name(IpAddr::V4(Ipv4Addr::new(0, 0, 0, 0))), None);
    assert_eq!(table.find_name(IpAddr::V6(Ipv4Addr::new(127, 0, 0, 1).to_ipv6_mapped())), None);
    let h = table.find_host_by_address(foo).unwrap();
    assert_eq!(h.name, "foo");
    assert_eq!(h.aliases, ["foo.bar", "foo.local"]);
    assert_eq!(table.find_host_by_name("foo.bar").unwrap().address, foo);
}

#[test]
fn hosts_lines_give_hosts() {
    use_hosts_line("192.168.10.1    foo foo.bar foo.local # Mid-line comment", &["192.168.10.1", "foo", "foo.bar", "foo.local"]);
    use_hosts_line("# Comment line", &[]);
    use_hosts_line("", &[]);
    use_hosts_line("::1             ip6-localhost", &["::1", "ip6-localhost"]);
    let words = resolve::hosts::host_line_words("192.168.10.1 foo foo.bar foo.local");
    let addr = IpAddr::V4(Ipv4Addr::new(192, 168, 10, 1));
    let h = resolve::hosts::host_entry(addr, &words).unwrap();
    assert_eq!(h.name, "foo");
    assert_eq!(h.aliases, ["foo.bar", "foo.local"]);
    let lone = resolve::hosts::host_line_words("10.0.0.1");
    assert!(resolve::hosts::host_entry(addr, &lone).is_none());
}

fn use_hosts_line(line: &str, want: &[&str]) {
    assert_eq!(resolve::hosts::host_line_words(line), want.iter().map(|s| s.to_string()).collect::<Vec<_>>());
}
