use dns_server::message::{Record, CLASS_IN, TYPE_A};
use dns_server::name::Name;
use dns_server::store::{RecordStore, ZoneEntry};

fn name(text: &str) -> Name {
    Name { labels: text.split('.').filter(|l| !l.is_empty()).map(|l| l.as_bytes().to_vec()).collect() }
}

fn entry(owner: &str, rtype: u16, ttl: u32, data: &[u8]) -> ZoneEntry {
    ZoneEntry { name: name(owner), rtype, ttl, data: data.to_vec() }
}

fn record(owner: &str, rtype: u16, ttl: u32, data: &[u8]) -> Record {
    Record { name: name(owner), rtype, class: CLASS_IN, ttl, rdata: data.to_vec() }
}

#[test]
fn empty_store_finds_nothing() {
    let s = RecordStore::new();
    assert_eq!(s.len(), 0);
    assert!(s.lookup(&name("example.com"), TYPE_A).is_empty());
}

#[test]
fn lookup_returns_the_matching_records_in_load_order() {
    let mut s = RecordStore::new();
    s.load(vec![
        entry("example.com", TYPE_A, 300, &[192, 0, 2, 1]),
        entry("other.example", TYPE_A, 300, &[192, 0, 2, 9]),
        entry("example.com", 16, 60, b"\x02hi"),
        entry("example.com", TYPE_A, 120, &[192, 0, 2, 2]),
    ]);
    assert_eq!(s.len(), 4);
    assert_eq!(
        s.lookup(&name("example.com"), TYPE_A),
        vec![record("example.com", TYPE_A, 300, &[192, 0, 2, 1]), record("example.com", TYPE_A, 120, &[192, 0, 2, 2])]
    );
    assert_eq!(s.lookup(&name("example.com"), 16), vec![record("example.com", 16, 60, b"\x02hi")]);
    assert!(s.lookup(&name("example.com"), 28).is_empty());
}

#[test]
fn lookup_ignores_case_and_matches_whole_names_only() {
    let mut s = RecordStore::new();
    s.load(vec![entry("Example.COM", TYPE_A, 300, &[192, 0, 2, 1])]);
    assert_eq!(s.lookup(&name("eXample.com"), TYPE_A), vec![record("Example.COM", TYPE_A, 300, &[192, 0, 2, 1])]);
    assert!(s.lookup(&name("www.example.com"), TYPE_A).is_empty());
    assert!(s.lookup(&name("com"), TYPE_A).is_empty());
    assert!(s.lookup(&name("examplecom"), TYPE_A).is_empty());
}

#[test]
fn store_has_no_wildcards() {
    let mut s = RecordStore::new();
    s.load(vec![ZoneEntry { name: Name { labels: vec![b"*".to_vec(), b"example".to_vec()] }, rtype: TYPE_A, ttl: 1, data: vec![1, 2, 3, 4] }]);
    assert!(s.lookup(&name("www.example"), TYPE_A).is_empty());
}

#[test]
fn load_replaces_the_whole_store() {
    let mut s = RecordStore::new();
    s.load(vec![entry("a.example", TYPE_A, 1, &[1, 1, 1, 1]), entry("b.example", TYPE_A, 1, &[2, 2, 2, 2])]);
    s.load(vec![entry("c.example", TYPE_A, 1, &[3, 3, 3, 3])]);
    assert_eq!(s.len(), 1);
    assert!(s.lookup(&name("a.example"), TYPE_A).is_empty());
    assert_eq!(s.lookup(&name("c.example"), TYPE_A).len(), 1);
    s.load(vec![]);
    assert_eq!(s.len(), 0);
}
