use dns_server::cache::DnsCache;
use dns_server::config::{Config, ConfigParser, IpAddress, ServerSettings};
use dns_server::decode::decode;
use dns_server::dns_server::{error_reply_bytes, reply_to, send, Dispatch, DnsServer, Pending, DEFAULT_CACHE_ENTRIES};
use dns_server::encode::encode;
use dns_server::error::ResolutionError;
use dns_server::message::{Flags, Message, Question, Record, CLASS_IN, TYPE_A};
use dns_server::name::Name;
use dns_server::resolver::{shortest_ttl, Lookup, Mode, Resolution, Resolver, UpstreamError};
use dns_server::store::{RecordStore, ZoneEntry};

fn name(text: &str) -> Name {
    Name { labels: text.split('.').filter(|l| !l.is_empty()).map(|l| l.as_bytes().to_vec()).collect() }
}

fn a_record(owner: &str, ttl: u32, last: u8) -> Record {
    Record { name: name(owner), rtype: TYPE_A, class: CLASS_IN, ttl, rdata: vec![192, 0, 2, last] }
}

fn question(owner: &str) -> Question {
    Question { name: name(owner), qtype: TYPE_A, qclass: CLASS_IN }
}

fn query(id: u16, owner: &str, qtype: u16, qclass: u16) -> Vec<u8> {
    encode(&Message {
        id,
        flags: 0x0100,
        questions: vec![Question { name: name(owner), qtype, qclass }],
        answers: vec![],
        authorities: vec![],
        additionals: vec![],
    })
    .unwrap()
}

fn config(mode: Mode) -> Config {
    Config {
        mode,
        listeners: vec![],
        enable_tcp: false,
        enable_https: false,
        enable_tls: false,
        std_listen_port: 53,
        https_listen_port: 443,
        tls_listen_port: 853,
    }
}

fn example_server(mode: Mode) -> DnsServer {
    let mut s = DnsServer::new(config(mode));
    s.load(vec![ZoneEntry { name: name("example.com"), rtype: TYPE_A, ttl: 300, data: vec![192, 0, 2, 1] }]);
    s
}

fn reply_of(d: Dispatch) -> Message {
    match d {
        Dispatch::Reply(bytes) => decode(&bytes).unwrap(),
        other => panic!("no reply: {:?}", other),
    }
}

fn upstream_reply(owner: &str, ttls: &[u32]) -> Message {
    Message {
        id: 77,
        flags: 0x8180,
        questions: vec![question(owner)],
        answers: ttls.iter().enumerate().map(|(i, t)| a_record(owner, *t, i as u8 + 1)).collect(),
        authorities: vec![],
        additionals: vec![],
    }
}

#[test]
fn query_for_a_stored_name_is_answered_authoritatively() {
    let s = example_server(Mode::Authoritative);
    let m = reply_of(s.handle_request(&query(0x1234, "example.com", TYPE_A, CLASS_IN), 0));
    assert_eq!(m.id, 0x1234);
    assert_eq!(m.answers, vec![a_record("example.com", 300, 1)]);
    assert_eq!(m.answers[0].rdata, vec![192, 0, 2, 1]);
    assert_eq!(m.questions, vec![question("example.com")]);
    let f = Flags::from_bits(m.flags);
    assert!(f.qr && f.aa && f.rd && !f.ra && !f.tc);
    assert_eq!(f.rcode, 0);
    assert_eq!(f.opcode, 0);
    assert!(m.authorities.is_empty() && m.additionals.is_empty());
}

#[test]
fn reply_bytes_of_an_authoritative_answer_are_exact() {
    let s = example_server(Mode::Authoritative);
    let d = s.handle_request(&query(0x1234, "example.com", TYPE_A, CLASS_IN), 0);
    let mut expected = vec![0x12, 0x34, 0x85, 0x00, 0, 1, 0, 1, 0, 0, 0, 0];
    expected.extend_from_slice(b"\x07example\x03com\x00\x00\x01\x00\x01");
    expected.extend_from_slice(b"\x07example\x03com\x00\x00\x01\x00\x01\x00\x00\x01\x2c\x00\x04\xc0\x00\x02\x01");
    assert_eq!(d, Dispatch::Reply(expected));
}

#[test]
fn query_for_an_absent_name_in_authoritative_mode_is_nxdomain() {
    let s = example_server(Mode::Authoritative);
    let m = reply_of(s.handle_request(&query(9, "absent.example", TYPE_A, CLASS_IN), 0));
    let f = Flags::from_bits(m.flags);
    assert_eq!(f.rcode, 3);
    assert!(f.qr && !f.aa);
    assert_eq!(m.id, 9);
    assert!(m.answers.is_empty());
    assert_eq!(m.questions, vec![question("absent.example")]);
}

#[test]
fn query_for_a_stored_name_of_another_type_is_nxdomain() {
    let s = example_server(Mode::Authoritative);
    let m = reply_of(s.handle_request(&query(9, "example.com", 28, CLASS_IN), 0));
    assert_eq!(Flags::from_bits(m.flags).rcode, 3);
}

#[test]
fn forwarded_answer_is_cached_for_its_lifetime() {
    let mut s = DnsServer::new(config(Mode::Forwarder));
    let now = 10_000u64;
    let q = query(5, "remote.example", TYPE_A, CLASS_IN);
    let pending = match s.handle_request(&q, now) {
        Dispatch::Forward(p) => p,
        other => panic!("not forwarded: {:?}", other),
    };
    assert_eq!(pending, Pending { id: 5, flags: 0x0100, question: question("remote.example") });
    let bytes = s.handle_upstream(pending, Ok(upstream_reply("remote.example", &[60])), now);
    let m = decode(&bytes).unwrap();
    assert_eq!(m.id, 5);
    assert_eq!(m.answers, vec![a_record("remote.example", 60, 1)]);
    let f = Flags::from_bits(m.flags);
    assert!(f.qr && !f.aa && f.ra && f.rd);
    assert_eq!(f.rcode, 0);

    // present immediately after
    let m = reply_of(s.handle_request(&q, now));
    assert_eq!(m.answers, vec![a_record("remote.example", 60, 1)]);
    assert!(!Flags::from_bits(m.flags).aa);
    // still present one second before the end, with the lifetime left
    let m = reply_of(s.handle_request(&q, now + 59));
    assert_eq!(m.answers, vec![a_record("remote.example", 1, 1)]);
    // absent once the lifetime has passed
    assert!(matches!(s.handle_request(&q, now + 60), Dispatch::Forward(_)));
    assert!(matches!(s.handle_request(&q, now + 61), Dispatch::Forward(_)));
}

#[test]
fn forwarded_answer_is_cached_under_its_shortest_lifetime() {
    let mut s = DnsServer::new(config(Mode::Forwarder));
    let q = query(5, "remote.example", TYPE_A, CLASS_IN);
    let pending = match s.handle_request(&q, 0) {
        Dispatch::Forward(p) => p,
        other => panic!("not forwarded: {:?}", other),
    };
    s.handle_upstream(pending, Ok(upstream_reply("remote.example", &[300, 20, 90])), 0);
    assert!(matches!(s.handle_request(&q, 19), Dispatch::Reply(_)));
    assert!(matches!(s.handle_request(&q, 20), Dispatch::Forward(_)));
}

#[test]
fn upstream_failure_is_servfail_and_caches_nothing() {
    let mut s = DnsServer::new(config(Mode::Forwarder));
    let q = query(6, "remote.example", TYPE_A, CLASS_IN);
    for failure in [UpstreamError::Timeout, UpstreamError::Transport] {
        let pending = match s.handle_request(&q, 0) {
            Dispatch::Forward(p) => p,
            other => panic!("not forwarded: {:?}", other),
        };
        let m = decode(&s.handle_upstream(pending, Err(failure), 0)).unwrap();
        assert_eq!(Flags::from_bits(m.flags).rcode, 2);
        assert_eq!(m.id, 6);
        assert!(m.answers.is_empty());
        assert_eq!(m.questions, vec![question("remote.example")]);
        assert!(matches!(s.handle_request(&q, 0), Dispatch::Forward(_)));
    }
}

#[test]
fn upstream_reply_without_answers_is_an_empty_success() {
    let mut s = DnsServer::new(config(Mode::Forwarder));
    let q = query(6, "remote.example", TYPE_A, CLASS_IN);
    let pending = match s.handle_request(&q, 0) {
        Dispatch::Forward(p) => p,
        other => panic!("not forwarded: {:?}", other),
    };
    let m = decode(&s.handle_upstream(pending, Ok(upstream_reply("remote.example", &[])), 0)).unwrap();
    assert_eq!(Flags::from_bits(m.flags).rcode, 0);
    assert!(m.answers.is_empty());
    assert!(matches!(s.handle_request(&q, 0), Dispatch::Forward(_)));
}

#[test]
fn store_answers_before_cache_in_forwarder_mode() {
    let s = example_server(Mode::Forwarder);
    let m = reply_of(s.handle_request(&query(1, "EXAMPLE.com", TYPE_A, CLASS_IN), 0));
    let f = Flags::from_bits(m.flags);
    assert!(f.aa && f.ra);
    assert_eq!(m.answers, vec![a_record("example.com", 300, 1)]);
    assert_eq!(m.questions[0].name.labels[0], b"EXAMPLE".to_vec());
}

#[test]
fn query_for_a_wildcard_name_is_resolved_like_any_other() {
    let mut s = DnsServer::new(config(Mode::Authoritative));
    let star = Name { labels: vec![b"*".to_vec(), b"com".to_vec()] };
    s.load(vec![ZoneEntry { name: Name { labels: vec![b"*".to_vec(), b"com".to_vec()] }, rtype: TYPE_A, ttl: 30, data: vec![192, 0, 2, 7] }]);
    let q = encode(&Message {
        id: 11,
        flags: 0x0100,
        questions: vec![Question { name: star, qtype: TYPE_A, qclass: CLASS_IN }],
        answers: vec![],
        authorities: vec![],
        additionals: vec![],
    })
    .unwrap();
    let m = reply_of(s.handle_request(&q, 0));
    assert_eq!(Flags::from_bits(m.flags).rcode, 0);
    assert_eq!(m.answers.len(), 1);
    assert_eq!(m.answers[0].rdata, vec![192, 0, 2, 7]);
    // the label is no pattern: another name under com is not found
    let m = reply_of(s.handle_request(&query(12, "www.com", TYPE_A, CLASS_IN), 0));
    assert_eq!(Flags::from_bits(m.flags).rcode, 3);
    let printer = Name { labels: vec![b"My Printer".to_vec(), b"_ipp".to_vec(), b"_tcp".to_vec(), b"local".to_vec()] };
    let q = encode(&Message {
        id: 13,
        flags: 0,
        questions: vec![Question { name: printer, qtype: 12, qclass: CLASS_IN }],
        answers: vec![],
        authorities: vec![],
        additionals: vec![],
    })
    .unwrap();
    let m = reply_of(s.handle_request(&q, 0));
    assert_eq!((m.id, Flags::from_bits(m.flags).rcode, m.questions.len()), (13, 3, 1));
}

#[test]
fn datagram_of_less_than_two_bytes_is_dropped() {
    let s = example_server(Mode::Authoritative);
    assert_eq!(s.handle_request(&[], 0), Dispatch::Drop);
    assert_eq!(s.handle_request(&[0x12], 0), Dispatch::Drop);
}

#[test]
fn malformed_datagram_gets_formerr_under_its_id() {
    let s = example_server(Mode::Authoritative);
    let expected = vec![0xab, 0xcd, 0x80, 0x01, 0, 0, 0, 0, 0, 0, 0, 0];
    assert_eq!(s.handle_request(&[0xab, 0xcd], 0), Dispatch::Reply(expected.clone()));
    assert_eq!(s.handle_request(&[0xab, 0xcd, 1, 0, 0], 0), Dispatch::Reply(expected.clone()));
    let mut q = query(0xabcd, "example.com", TYPE_A, CLASS_IN);
    q.truncate(20);
    assert_eq!(s.handle_request(&q, 0), Dispatch::Reply(expected.clone()));
    let mut q = query(0xabcd, "example.com", TYPE_A, CLASS_IN);
    q[13] = 0xff;
    assert_eq!(s.handle_request(&q, 0), Dispatch::Reply(expected));
}

#[test]
fn message_without_exactly_one_question_gets_formerr() {
    let s = example_server(Mode::Authoritative);
    let none = encode(&Message { id: 3, flags: 0, questions: vec![], answers: vec![], authorities: vec![], additionals: vec![] }).unwrap();
    let m = reply_of(s.handle_request(&none, 0));
    assert_eq!((m.id, Flags::from_bits(m.flags).rcode, m.questions.len()), (3, 1, 0));
    let two = encode(&Message {
        id: 4,
        flags: 0,
        questions: vec![question("example.com"), question("example.com")],
        answers: vec![],
        authorities: vec![],
        additionals: vec![],
    })
    .unwrap();
    let m = reply_of(s.handle_request(&two, 0));
    assert_eq!((m.id, Flags::from_bits(m.flags).rcode, m.questions.len()), (4, 1, 0));
}

#[test]
fn question_of_another_class_gets_formerr() {
    let s = example_server(Mode::Authoritative);
    let m = reply_of(s.handle_request(&query(8, "example.com", TYPE_A, 3), 0));
    assert_eq!(m.id, 8);
    assert_eq!(Flags::from_bits(m.flags).rcode, 1);
    assert!(m.answers.is_empty());
}

#[test]
fn reply_keeps_opcode_and_recursion_desired_of_the_query() {
    let s = example_server(Mode::Authoritative);
    let mut q = query(8, "example.com", TYPE_A, CLASS_IN);
    q[2] = 0x28; // opcode 5, rd clear
    let m = reply_of(s.handle_request(&q, 0));
    let f = Flags::from_bits(m.flags);
    assert_eq!(f.opcode, 5);
    assert!(!f.rd && f.qr && f.aa);
}

#[test]
fn answer_that_cannot_be_encoded_becomes_servfail() {
    let mut s = DnsServer::new(config(Mode::Authoritative));
    s.load(vec![ZoneEntry { name: name("big.example"), rtype: 16, ttl: 1, data: vec![0u8; 70000] }]);
    let d = s.handle_request(&query(0x0102, "big.example", 16, CLASS_IN), 0);
    assert_eq!(d, Dispatch::Reply(vec![1, 2, 0x80, 0x02, 0, 0, 0, 0, 0, 0, 0, 0]));
}

#[test]
fn error_reply_is_a_bare_header() {
    assert_eq!(error_reply_bytes(0xfffe, 1), vec![0xff, 0xfe, 0x80, 0x01, 0, 0, 0, 0, 0, 0, 0, 0]);
    assert_eq!(error_reply_bytes(0, 2), vec![0, 0, 0x80, 0x02, 0, 0, 0, 0, 0, 0, 0, 0]);
    assert_eq!(error_reply_bytes(1, 3), vec![0, 1, 0x80, 0x03, 0, 0, 0, 0, 0, 0, 0, 0]);
}

#[test]
fn send_encodes_a_well_formed_message_as_it_is() {
    let m = upstream_reply("remote.example", &[5, 6]);
    assert_eq!(send(&m), encode(&m).unwrap());
    let mut bad = upstream_reply("remote.example", &[5]);
    bad.answers[0].name.labels[0] = b"not ok".to_vec();
    assert_eq!(send(&bad), encode(&bad).unwrap());
    bad.answers[0].name.labels[0] = vec![0xc0, 0xaf];
    assert_eq!(send(&bad), error_reply_bytes(77, 2));
}

#[test]
fn reply_to_maps_each_outcome_to_its_result_code() {
    let cases: Vec<(Resolution, u8, bool, usize)> = vec![
        (Resolution::Found(vec![a_record("example.com", 1, 1)]), 0, true, 1),
        (Resolution::Cached(vec![a_record("example.com", 1, 1)]), 0, false, 1),
        (Resolution::Forwarded(vec![a_record("example.com", 1, 1)]), 0, false, 1),
        (Resolution::NotFound, 3, false, 0),
        (Resolution::Failed, 2, false, 0),
        (Resolution::Unsupported, 1, false, 0),
    ];
    for (res, rcode, aa, n) in cases {
        let m = decode(&reply_to(21, 0x0100, question("example.com"), res, false)).unwrap();
        let f = Flags::from_bits(m.flags);
        assert_eq!((m.id, f.rcode, f.aa, m.answers.len(), f.qr), (21, rcode, aa, n, true));
    }
}

#[test]
fn resolver_consults_store_then_cache_then_upstream() {
    let mut store = RecordStore::new();
    store.load(vec![ZoneEntry { name: name("local.example"), rtype: TYPE_A, ttl: 300, data: vec![192, 0, 2, 1] }]);
    let mut cache = DnsCache::new(4);
    cache.put(&name("local.example"), TYPE_A, vec![a_record("local.example", 9, 9)], 9, 0);
    cache.put(&name("cached.example"), TYPE_A, vec![a_record("cached.example", 9, 2)], 9, 0);
    let r = Resolver::new(store, cache, Mode::Forwarder);
    assert_eq!(r.get_mode(), Mode::Forwarder);
    assert_eq!(
        r.resolve(&question("local.example"), 0),
        Lookup::Resolved(Resolution::Found(vec![a_record("local.example", 300, 1)]))
    );
    assert_eq!(
        r.resolve(&question("cached.example"), 4),
        Lookup::Resolved(Resolution::Cached(vec![a_record("cached.example", 5, 2)]))
    );
    assert_eq!(r.resolve(&question("cached.example"), 9), Lookup::AskUpstream);
    assert_eq!(r.resolve(&question("other.example"), 0), Lookup::AskUpstream);
    let other_class = Question { name: name("local.example"), qtype: TYPE_A, qclass: 4 };
    assert_eq!(r.resolve(&other_class, 0), Lookup::Resolved(Resolution::Unsupported));
}

#[test]
fn authoritative_resolver_never_asks_upstream() {
    let r = Resolver::new(RecordStore::new(), DnsCache::new(4), Mode::Authoritative);
    assert_eq!(r.resolve(&question("other.example"), 0), Lookup::Resolved(Resolution::NotFound));
}

#[test]
fn resolver_caches_what_upstream_answered() {
    let mut r = Resolver::new(RecordStore::new(), DnsCache::new(4), Mode::Forwarder);
    let q = question("remote.example");
    let res = r.accept_upstream(&q, Ok(upstream_reply("remote.example", &[60, 30])), 100);
    assert_eq!(res, Resolution::Forwarded(vec![a_record("remote.example", 60, 1), a_record("remote.example", 30, 2)]));
    assert_eq!(
        r.resolve(&q, 110),
        Lookup::Resolved(Resolution::Cached(vec![a_record("remote.example", 20, 1), a_record("remote.example", 20, 2)]))
    );
    assert_eq!(r.resolve(&q, 130), Lookup::AskUpstream);
    assert_eq!(r.accept_upstream(&q, Err(UpstreamError::Timeout), 130), Resolution::Failed);
    r.evict(130);
    assert_eq!(r.resolve(&q, 0), Lookup::AskUpstream);
}

#[test]
fn resolution_turns_into_records_or_an_error() {
    assert_eq!(Resolution::Found(vec![a_record("a", 1, 1)]).into_result(), Ok(vec![a_record("a", 1, 1)]));
    assert_eq!(Resolution::Cached(vec![]).into_result(), Ok(vec![]));
    assert_eq!(Resolution::Forwarded(vec![a_record("a", 1, 2)]).into_result(), Ok(vec![a_record("a", 1, 2)]));
    assert_eq!(Resolution::NotFound.into_result(), Err(ResolutionError::NameError));
    assert_eq!(Resolution::Failed.into_result(), Err(ResolutionError::ServerFailure));
    assert_eq!(Resolution::Unsupported.into_result(), Err(ResolutionError::Unsupported));
}

#[test]
fn shortest_ttl_is_the_minimum_or_zero() {
    assert_eq!(shortest_ttl(&vec![]), 0);
    assert_eq!(shortest_ttl(&vec![a_record("a", 7, 1)]), 7);
    assert_eq!(shortest_ttl(&vec![a_record("a", 7, 1), a_record("a", 3, 2), a_record("a", 9, 3)]), 3);
    assert_eq!(shortest_ttl(&vec![a_record("a", u32::MAX, 1), a_record("a", u32::MAX, 2)]), u32::MAX);
}

#[test]
fn server_cache_is_bounded_and_evicts() {
    let mut s = DnsServer::with_cache(Mode::Forwarder, 1);
    for (i, owner) in ["a.example", "b.example"].iter().enumerate() {
        let pending = Pending { id: i as u16, flags: 0, question: question(owner) };
        s.handle_upstream(pending, Ok(upstream_reply(owner, &[60])), 0);
    }
    assert!(matches!(s.handle_request(&query(1, "a.example", TYPE_A, CLASS_IN), 0), Dispatch::Forward(_)));
    assert!(matches!(s.handle_request(&query(1, "b.example", TYPE_A, CLASS_IN), 0), Dispatch::Reply(_)));
    s.evict(60);
    assert!(matches!(s.handle_request(&query(1, "b.example", TYPE_A, CLASS_IN), 0), Dispatch::Forward(_)));
    assert_eq!(DEFAULT_CACHE_ENTRIES, 1024);
}

#[test]
fn config_takes_ports_from_the_file_or_the_usual_ones() {
    let c = Config::parse_config(ServerSettings {
        enable_tcp: true,
        enable_https: false,
        enable_tls: true,
        basic_port: None,
        tls_port: Some(8853),
        https_port: None,
        ip_addrs: vec![IpAddress::V4(0x7f000001), IpAddress::V6(1)],
    });
    assert_eq!(
        c,
        Config {
            mode: Mode::Authoritative,
            listeners: vec![IpAddress::V4(0x7f000001), IpAddress::V6(1)],
            enable_tcp: true,
            enable_https: false,
            enable_tls: true,
            std_listen_port: 53,
            https_listen_port: 443,
            tls_listen_port: 8853,
        }
    );
    let c = Config::parse_config(ServerSettings {
        enable_tcp: false,
        enable_https: true,
        enable_tls: false,
        basic_port: Some(5353),
        tls_port: None,
        https_port: Some(8443),
        ip_addrs: vec![],
    });
    assert_eq!((c.std_listen_port, c.tls_listen_port, c.https_listen_port), (5353, 853, 8443));
    assert!(c.enable_https && !c.enable_tcp && !c.enable_tls && c.listeners.is_empty());
}

#[test]
fn config_parser_builds_an_authoritative_config_for_one_socket() {
    let c = ConfigParser::parse_file(IpAddress::V4(0x0a000001), 5300);
    assert_eq!(
        c,
        Config {
            mode: Mode::Authoritative,
            listeners: vec![IpAddress::V4(0x0a000001)],
            enable_tcp: false,
            enable_https: false,
            enable_tls: false,
            std_listen_port: 5300,
            https_listen_port: 443,
            tls_listen_port: 853,
        }
    );
}

#[test]
fn upstream_nxdomain_is_told_as_nxdomain_and_not_cached() {
    let mut s = DnsServer::new(config(Mode::Forwarder));
    let q = query(6, "gone.example", TYPE_A, CLASS_IN);
    let pending = match s.handle_request(&q, 0) {
        Dispatch::Forward(p) => p,
        other => panic!("not forwarded: {:?}", other),
    };
    let mut reply = upstream_reply("gone.example", &[60]);
    reply.flags = 0x8183;
    let m = decode(&s.handle_upstream(pending, Ok(reply), 0)).unwrap();
    assert_eq!((m.id, Flags::from_bits(m.flags).rcode), (6, 3));
    assert!(m.answers.is_empty());
    assert_eq!(m.questions, vec![question("gone.example")]);
    assert!(matches!(s.handle_request(&q, 0), Dispatch::Forward(_)));
}

#[test]
fn upstream_reply_with_another_result_code_is_servfail() {
    let mut s = DnsServer::new(config(Mode::Forwarder));
    let q = query(6, "remote.example", TYPE_A, CLASS_IN);
    for flags in [0x8182u16, 0x8185, 0x8181, 0x818f] {
        let pending = match s.handle_request(&q, 0) {
            Dispatch::Forward(p) => p,
            other => panic!("not forwarded: {:?}", other),
        };
        let mut reply = upstream_reply("remote.example", &[60]);
        reply.flags = flags;
        let m = decode(&s.handle_upstream(pending, Ok(reply), 0)).unwrap();
        assert_eq!(Flags::from_bits(m.flags).rcode, 2, "flags {:04x}", flags);
        assert!(m.answers.is_empty());
        assert!(matches!(s.handle_request(&q, 0), Dispatch::Forward(_)));
    }
}

#[test]
fn upstream_reply_that_does_not_answer_leaves_the_cache_alone() {
    let mut r = Resolver::new(RecordStore::new(), DnsCache::new(4), Mode::Forwarder);
    let q = question("remote.example");
    r.accept_upstream(&q, Ok(upstream_reply("remote.example", &[60])), 0);
    let mut refusal = upstream_reply("remote.example", &[]);
    refusal.flags = 0x8183;
    assert_eq!(r.accept_upstream(&q, Ok(refusal), 10), Resolution::NotFound);
    let mut failure = upstream_reply("remote.example", &[5]);
    failure.flags = 0x8182;
    assert_eq!(r.accept_upstream(&q, Ok(failure), 10), Resolution::Failed);
    assert_eq!(r.resolve(&q, 10), Lookup::Resolved(Resolution::Cached(vec![a_record("remote.example", 50, 1)])));
}
