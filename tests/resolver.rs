use resolve::address::{IpAddr, Ipv4Addr, SocketAddr};
use resolve::config::DnsConfig;
use resolve::message::{DecodeError, DnsError, EncodeError, Header, Message, Qr, RCode, Resource};
use resolve::socket::{context_message, convert_error, Error};
use resolve::record::{Class, Ptr, Record, RecordType, A, Mx, Txt};
use resolve::resolver::{
    next_server, ptr_host_name, query_names, records_of, with_suffixes, Action, Event, Exchange,
    ExchangeError, Phase,
};

fn server(last: u8) -> SocketAddr {
    SocketAddr { ip: IpAddr::V4(Ipv4Addr::new(192, 0, 2, last)), port: 53 }
}

fn config(n: u8) -> DnsConfig {
    DnsConfig::with_name_servers((1..=n).map(server).collect())
}

fn reply_header(id: u16) -> Result<Header, DecodeError> {
    let mut h = Header::with_id(id);
    h.qr = Qr::Response;
    Ok(h)
}

#[test]
fn defaults_of_with_name_servers() {
    let c = config(2);
    assert_eq!(c.name_servers.len(), 2);
    assert!(c.search.is_empty());
    assert_eq!(c.n_dots, 1);
    assert_eq!(c.timeout_ms, 5000);
    assert_eq!(c.attempts, 5);
    assert!(!c.rotate);
    assert!(!c.use_inet6);
}

#[test]
fn search_expansion_of_bare_name() {
    let mut c = config(1);
    c.search = vec!["example.com".to_owned()];
    assert_eq!(query_names("foo", &c), vec!["foo.example.com".to_owned(), "foo".to_owned()]);
    assert_eq!(query_names("foo.bar", &c), vec!["foo.bar".to_owned()]);
    assert_eq!(query_names("foo.", &c), vec!["foo.".to_owned()]);
    c.n_dots = 2;
    assert_eq!(
        query_names("foo.bar", &c),
        vec!["foo.bar.example.com".to_owned(), "foo.bar".to_owned()]
    );
}

#[test]
fn suffixes_in_order() {
    let s = vec!["a.com".to_owned(), "b.org".to_owned()];
    assert_eq!(
        with_suffixes("host", &s),
        vec!["host.a.com".to_owned(), "host.b.org".to_owned(), "host".to_owned()]
    );
}

#[test]
fn stray_datagram_then_reply_on_first_attempt() {
    let c = config(1);
    let mut cursor = 0;
    let (mut ex, first) = Exchange::start(&c, &mut cursor, 77);
    assert_eq!(first, Action::Send(0));
    assert_eq!(ex.on_event(&c, &mut cursor, Event::Sent), Action::Receive(5000));
    let stray = Event::Received { elapsed_ms: 1200, from: server(9), header: reply_header(77) };
    assert_eq!(ex.on_event(&c, &mut cursor, stray), Action::Receive(3800));
    let other_id = Event::Received { elapsed_ms: 800, from: server(1), header: reply_header(78) };
    assert_eq!(ex.on_event(&c, &mut cursor, other_id), Action::Receive(3000));
    let good = Event::Received { elapsed_ms: 100, from: server(1), header: reply_header(77) };
    assert_eq!(ex.on_event(&c, &mut cursor, good), Action::Accept);
    assert_eq!(ex.attempt, 0);
    assert_eq!(ex.phase, Phase::Finished);
}

#[test]
fn only_strays_time_out_once_per_attempt() {
    let mut c = config(2);
    c.attempts = 3;
    c.timeout_ms = 1000;
    let mut cursor = 0;
    let (mut ex, mut action) = Exchange::start(&c, &mut cursor, 5);
    let mut sends = Vec::new();
    let mut timeouts = 0;
    loop {
        match action {
            Action::Send(s) => {
                sends.push(s);
                action = ex.on_event(&c, &mut cursor, Event::Sent);
            }
            Action::Receive(ms) => {
                if ms > 600 {
                    let stray =
                        Event::Received { elapsed_ms: 600, from: server(9), header: reply_header(5) };
                    action = ex.on_event(&c, &mut cursor, stray);
                } else {
                    timeouts += 1;
                    action = ex.on_event(&c, &mut cursor, Event::TimedOut);
                }
            }
            Action::Accept => panic!("no reply was sent"),
            Action::Fail(e) => {
                assert_eq!(e, ExchangeError::TimedOut);
                break;
            }
        }
    }
    assert_eq!(sends, vec![0, 1, 0]);
    assert_eq!(timeouts, 3);
}

#[test]
fn flood_of_strays_uses_up_the_attempt() {
    let mut c = config(1);
    c.attempts = 1;
    c.timeout_ms = 100;
    let mut cursor = 0;
    let (mut ex, _) = Exchange::start(&c, &mut cursor, 1);
    assert_eq!(ex.on_event(&c, &mut cursor, Event::Sent), Action::Receive(100));
    let stray = Event::Received { elapsed_ms: 60, from: server(9), header: reply_header(1) };
    assert_eq!(ex.on_event(&c, &mut cursor, stray), Action::Receive(40));
    assert_eq!(
        ex.on_event(&c, &mut cursor, stray),
        Action::Fail(ExchangeError::TimedOut)
    );
}

#[test]
fn rotation_targets_each_server_in_turn() {
    let mut c = config(3);
    c.rotate = true;
    let mut cursor = 0;
    let mut targets = Vec::new();
    for id in 0..3u16 {
        let (mut ex, action) = Exchange::start(&c, &mut cursor, id);
        if let Action::Send(s) = action {
            targets.push(s);
        }
        assert_eq!(ex.on_event(&c, &mut cursor, Event::Sent), Action::Receive(5000));
        for _ in 0..4 {
            let stray = Event::Received { elapsed_ms: 1, from: server(9), header: reply_header(id) };
            ex.on_event(&c, &mut cursor, stray);
        }
        let reply = Event::Received {
            elapsed_ms: 1,
            from: c.name_servers[targets[id as usize]],
            header: reply_header(id),
        };
        assert_eq!(ex.on_event(&c, &mut cursor, reply), Action::Accept);
    }
    assert_eq!(targets, vec![0, 1, 2]);
    let mut cursor = 2;
    assert_eq!(next_server(&c, &mut cursor, 0), 2);
    assert_eq!(cursor, 0);
}

#[test]
fn without_rotation_attempts_cycle_servers() {
    let c = config(3);
    let mut cursor = 0;
    assert_eq!(next_server(&c, &mut cursor, 4), 1);
    assert_eq!(cursor, 0);
}

#[test]
fn server_error_and_io_error_end_the_exchange() {
    let c = config(1);
    let mut cursor = 0;
    let (mut ex, _) = Exchange::start(&c, &mut cursor, 3);
    ex.on_event(&c, &mut cursor, Event::Sent);
    let mut h = Header::with_id(3);
    h.qr = Qr::Response;
    h.rcode = RCode::NameError;
    let ev = Event::Received { elapsed_ms: 5, from: server(1), header: Ok(h) };
    assert_eq!(
        ex.on_event(&c, &mut cursor, ev),
        Action::Fail(ExchangeError::Server(RCode::NameError))
    );
    let (mut ex, _) = Exchange::start(&c, &mut cursor, 3);
    assert_eq!(ex.on_event(&c, &mut cursor, Event::IoFailed), Action::Fail(ExchangeError::Io));
    let (mut ex, _) = Exchange::start(&c, &mut cursor, 3);
    ex.on_event(&c, &mut cursor, Event::Sent);
    let bad = Event::Received {
        elapsed_ms: 5,
        from: server(1),
        header: Err(DecodeError::ShortMessage),
    };
    assert_eq!(
        ex.on_event(&c, &mut cursor, bad),
        Action::Fail(ExchangeError::Decode(DecodeError::ShortMessage))
    );
}

#[test]
fn no_attempts_fails_at_once() {
    let mut c = config(1);
    c.attempts = 0;
    let mut cursor = 0;
    let (ex, action) = Exchange::start(&c, &mut cursor, 3);
    assert_eq!(action, Action::Fail(ExchangeError::TimedOut));
    assert_eq!(ex.phase, Phase::Finished);
}

fn record(r_type: RecordType, data: Vec<u8>) -> Resource {
    let mut rr = Resource::new("example.com.".to_owned(), r_type, Class::Internet, 60);
    rr.data = data;
    rr
}

#[test]
fn typed_records_are_filtered_and_decoded() {
    let mut msg = Message::with_id(1);
    msg.answer.push(record(RecordType::A, vec![192, 0, 2, 1]));
    msg.answer.push(record(RecordType::CName, vec![1, b'x', 0]));
    msg.additional.push(record(RecordType::A, vec![192, 0, 2, 2]));
    let found: Vec<A> = records_of(&msg).unwrap();
    assert_eq!(found.len(), 2);
    assert_eq!(found[0].address, Ipv4Addr::new(192, 0, 2, 1));
    assert_eq!(found[1].address, Ipv4Addr::new(192, 0, 2, 2));
    msg.answer.push(record(RecordType::A, vec![1, 2, 3]));
    assert_eq!(records_of::<A>(&msg), Err(DecodeError::ShortMessage));
    msg.answer.pop();
    msg.answer.push(record(RecordType::A, vec![1, 2, 3, 4, 5]));
    assert_eq!(records_of::<A>(&msg), Err(DecodeError::ExtraneousData));
}

#[test]
fn ptr_name_loses_its_trailing_dot() {
    let mut msg = Message::with_id(1);
    assert_eq!(ptr_host_name(&msg), Ok(None));
    msg.answer.push(record(RecordType::Ptr, b"\x04host\x07example\x00".to_vec()));
    msg.answer.push(record(RecordType::Ptr, b"\x05other\x00".to_vec()));
    assert_eq!(ptr_host_name(&msg), Ok(Some("host.example".to_owned())));
}

#[test]
fn rdata_round_trips() {
    let mut rr = record(RecordType::Mx, Vec::new());
    let mx = Mx { preference: 10, exchange: "mail.example.com.".to_owned() };
    rr.write_rdata(&mx).unwrap();
    assert_eq!(rr.data[..2], [0, 10]);
    assert_eq!(rr.read_rdata::<Mx>().unwrap(), mx);
    let txt = Txt { data: b"v=spf1".to_vec() };
    rr.write_rdata(&txt).unwrap();
    assert_eq!(rr.data, b"\x06v=spf1".to_vec());
    assert_eq!(rr.read_rdata::<Txt>().unwrap(), txt);
    let ptr = Ptr { name: "a.b.".to_owned() };
    rr.write_rdata(&ptr).unwrap();
    assert_eq!(rr.read_rdata::<Ptr>().unwrap(), ptr);
    assert_eq!(<Ptr as Record>::record_type(), RecordType::Ptr);
    let bad = Ptr { name: "a..b".to_owned() };
    assert!(rr.write_rdata(&bad).is_err());
    assert_eq!(rr.read_rdata::<Ptr>().unwrap(), ptr);
}

#[test]
fn errors_gain_context() {
    let e = Error::DecodeError(DecodeError::ShortMessage);
    assert_eq!(
        context_message("failed to resolve host", &e),
        "failed to resolve host: error decoding message: short message"
    );
    let e = Error::DnsError(DnsError(RCode::NameError));
    assert_eq!(e.text(), "server responded with error: no such name");
    assert_eq!(Error::EncodeError(EncodeError::TooLong).text(), "error encoding message: message too long");
    let c = convert_error::<()>("failed to resolve record", Err(Error::DecodeError(DecodeError::InvalidName)));
    assert_eq!(c.unwrap_err().to_string(), "failed to resolve record: error decoding message: invalid name");
    let io = std::io::Error::new(std::io::ErrorKind::TimedOut, "late");
    let c = convert_error::<()>("x", Err(Error::IoError(io)));
    assert_eq!(c.unwrap_err().kind(), std::io::ErrorKind::TimedOut);
    assert_eq!(convert_error("x", Ok::<u8, Error>(4)).unwrap(), 4);
}

#[test]
fn dual_stack_order_and_mapping() {
    let mut c = config(1);
    let v4 = vec![Ipv4Addr::new(192, 0, 2, 1)];
    let v6 = vec![resolve::address::Ipv6Addr::new(0x2001, 0xdb8, 0, 0, 0, 0, 0, 1)];
    assert_eq!(resolve::resolver::first_address_query(&c), RecordType::A);
    assert!(resolve::resolver::second_address_query(&c, 3));
    assert_eq!(
        resolve::resolver::host_addresses(&c, &v4, &v6),
        vec![IpAddr::V4(v4[0]), IpAddr::V6(v6[0])]
    );
    c.use_inet6 = true;
    assert_eq!(resolve::resolver::first_address_query(&c), RecordType::AAAA);
    assert!(!resolve::resolver::second_address_query(&c, 1));
    assert!(resolve::resolver::second_address_query(&c, 0));
    assert_eq!(resolve::resolver::host_addresses(&c, &v4, &v6), vec![IpAddr::V6(v6[0])]);
    assert_eq!(
        resolve::resolver::host_addresses(&c, &v4, &Vec::new()),
        vec![IpAddr::V6(resolve::address::Ipv6Addr::new(0, 0, 0, 0, 0, 0xffff, 0xc000, 0x0201))]
    );
}

#[test]
fn resolv_conf_options_are_capped() {
    let mut c = config(1);
    for opt in "timeout:99 ndots:2 rotate".split_whitespace() {
        c.apply_option(opt);
    }
    assert_eq!(c.timeout_ms, 30_000);
    assert_eq!(c.n_dots, 2);
    assert!(c.rotate);
    assert!(!c.use_inet6);
    c.apply_option("attempts:9");
    assert_eq!(c.attempts, 5);
    c.apply_option("attempts:+3");
    assert_eq!(c.attempts, 3);
    c.apply_option("ndots:x");
    c.apply_option("ndots:99999999999");
    c.apply_option("ndots");
    assert_eq!(c.n_dots, 2);
    c.apply_option("timeout:4");
    assert_eq!(c.timeout_ms, 4000);
    c.apply_option("inet6");
    c.apply_option("debug");
    assert!(c.use_inet6);
    assert_eq!(c.attempts, 3);
}

#[test]
fn search_domain_from_hostname() {
    use_search_domain("box.example.org", Some("example.org"));
    use_search_domain("box", None);
    use_search_domain("box.", Some(""));
}

fn use_search_domain(host: &str, want: Option<&str>) {
    assert_eq!(resolve::config::search_from_hostname(host), want.map(|s| s.to_owned()));
}

#[test]
fn at_most_three_name_servers() {
    let mut c = config(0);
    for i in 1..=5 {
        c.add_name_server(server(i));
    }
    assert_eq!(c.name_servers, vec![server(1), server(2), server(3)]);
}

#[test]
fn outbound_query_shape() {
    let msg = resolve::resolver::query_message(0x1234, "example.com.".to_owned(), RecordType::Mx);
    assert_eq!(msg.header.id, 0x1234);
    assert_eq!(msg.header.qr, Qr::Query);
    assert!(msg.header.recursion_desired);
    assert_eq!(msg.question.len(), 1);
    assert_eq!(msg.question[0].q_type, RecordType::Mx);
    assert_eq!(msg.question[0].q_class, Class::Internet);
    let mut buf = [0; 512];
    let bytes = msg.encode(&mut buf).unwrap();
    assert_eq!(&bytes[..4], &[0x12, 0x34, 0x01, 0x00][..]);
}

#[test]
fn resolv_conf_lines() {
    let text = "nameserver 127.0.0.1\nsearch foo.com bar.com\noptions timeout:99 ndots:2 rotate";
    let mut c = DnsConfig::resolv_conf_base();
    for line in text.lines() {
        let words = resolve::text::split_words(line);
        let ip = if words.len() > 1 && words[1] == "127.0.0.1" {
            Some(IpAddr::V4(Ipv4Addr::new(127, 0, 0, 1)))
        } else {
            None
        };
        c.apply_directive(&words, ip);
    }
    assert_eq!(
        c.name_servers,
        vec![SocketAddr { ip: IpAddr::V4(Ipv4Addr::new(127, 0, 0, 1)), port: 53 }]
    );
    assert_eq!(c.search, vec!["foo.com".to_owned(), "bar.com".to_owned()]);
    assert_eq!(c.timeout_ms, 30_000);
    assert_eq!(c.n_dots, 2);
    assert!(c.rotate);
    assert_eq!(c.attempts, 2);
    let words = resolve::text::split_words("domain  example.net extra");
    c.apply_directive(&words, None);
    assert_eq!(c.search, vec!["example.net".to_owned()]);
    let words = resolve::text::split_words("# nameserver 10.0.0.1");
    c.apply_directive(&words, Some(IpAddr::V4(Ipv4Addr::new(10, 0, 0, 1))));
    assert_eq!(c.name_servers.len(), 1);
}

#[test]
fn words_split_on_any_white_space() {
    assert_eq!(
        resolve::text::split_words("  a\tbb \u{3000}c  "),
        vec!["a".to_owned(), "bb".to_owned(), "c".to_owned()]
    );
    assert!(resolve::text::split_words(" \t ").is_empty());
}
