use dns_server::cache::{records_with_ttl, DnsCache};
use dns_server::message::{Record, CLASS_IN, TYPE_A};
use dns_server::name::Name;

fn name(text: &str) -> Name {
    Name { labels: text.split('.').filter(|l| !l.is_empty()).map(|l| l.as_bytes().to_vec()).collect() }
}

fn a_record(owner: &str, ttl: u32, last: u8) -> Record {
    Record { name: name(owner), rtype: TYPE_A, class: CLASS_IN, ttl, rdata: vec![192, 0, 2, last] }
}

#[test]
fn put_with_zero_ttl_is_absent_at_once() {
    let mut c = DnsCache::new(8);
    c.put(&name("example.com"), TYPE_A, vec![a_record("example.com", 0, 1)], 0, 1000);
    assert_eq!(c.get(&name("example.com"), TYPE_A, 1000), None);
    assert_eq!(c.len(), 0);
}

#[test]
fn put_with_negative_ttl_is_absent() {
    let mut c = DnsCache::new(8);
    c.put(&name("example.com"), TYPE_A, vec![a_record("example.com", 5, 1)], -5, 1000);
    assert_eq!(c.get(&name("example.com"), TYPE_A, 0), None);
    assert_eq!(c.get(&name("example.com"), TYPE_A, 1000), None);
    assert_eq!(c.len(), 0);
}

#[test]
fn put_with_zero_ttl_takes_the_old_entry_away() {
    let mut c = DnsCache::new(8);
    c.put(&name("example.com"), TYPE_A, vec![a_record("example.com", 60, 1)], 60, 1000);
    assert!(c.get(&name("example.com"), TYPE_A, 1000).is_some());
    c.put(&name("example.com"), TYPE_A, vec![a_record("example.com", 0, 2)], 0, 1000);
    assert_eq!(c.get(&name("example.com"), TYPE_A, 1000), None);
    assert_eq!(c.len(), 0);
}

#[test]
fn entry_is_present_before_its_expiry_and_absent_after() {
    let t = 5000u64;
    let mut c = DnsCache::new(8);
    c.put(&name("example.com"), TYPE_A, vec![a_record("example.com", 10, 1)], 10, t);
    assert_eq!(c.get(&name("example.com"), TYPE_A, t + 9), Some(vec![a_record("example.com", 1, 1)]));
    assert_eq!(c.get(&name("example.com"), TYPE_A, t + 11), None);
    assert_eq!(c.get(&name("example.com"), TYPE_A, t + 10), None);
    assert_eq!(c.get(&name("example.com"), TYPE_A, t), Some(vec![a_record("example.com", 10, 1)]));
}

#[test]
fn expired_entry_stays_until_evicted() {
    let mut c = DnsCache::new(8);
    c.put(&name("a.example"), TYPE_A, vec![a_record("a.example", 10, 1)], 10, 100);
    c.put(&name("b.example"), TYPE_A, vec![a_record("b.example", 50, 2)], 50, 100);
    assert_eq!(c.get(&name("a.example"), TYPE_A, 110), None);
    assert_eq!(c.len(), 2);
    c.evict(109);
    assert_eq!(c.len(), 2);
    c.evict(110);
    assert_eq!(c.len(), 1);
    assert!(c.get(&name("b.example"), TYPE_A, 110).is_some());
    c.evict(u64::MAX);
    assert_eq!(c.len(), 0);
}

#[test]
fn get_gives_every_record_the_lifetime_left() {
    let mut c = DnsCache::new(8);
    let recs = vec![a_record("example.com", 300, 1), a_record("example.com", 60, 2)];
    c.put(&name("example.com"), TYPE_A, recs, 60, 1_000_000);
    assert_eq!(
        c.get(&name("example.com"), TYPE_A, 1_000_025),
        Some(vec![a_record("example.com", 35, 1), a_record("example.com", 35, 2)])
    );
}

#[test]
fn lifetime_left_is_capped_at_what_a_record_can_say() {
    let mut c = DnsCache::new(8);
    c.put(&name("example.com"), TYPE_A, vec![a_record("example.com", 1, 1)], i64::MAX, 0);
    assert_eq!(c.get(&name("example.com"), TYPE_A, 5), Some(vec![a_record("example.com", u32::MAX, 1)]));
}

#[test]
fn expiry_stops_at_the_last_instant() {
    let mut c = DnsCache::new(8);
    c.put(&name("example.com"), TYPE_A, vec![a_record("example.com", 1, 1)], 100, u64::MAX - 10);
    assert_eq!(c.get(&name("example.com"), TYPE_A, u64::MAX - 1), Some(vec![a_record("example.com", 1, 1)]));
    assert_eq!(c.get(&name("example.com"), TYPE_A, u64::MAX), None);
}

#[test]
fn keys_are_names_without_case_and_types() {
    let mut c = DnsCache::new(8);
    c.put(&name("Example.COM"), TYPE_A, vec![a_record("Example.COM", 60, 1)], 60, 0);
    assert!(c.get(&name("example.com"), TYPE_A, 1).is_some());
    assert!(c.get(&name("EXAMPLE.com"), TYPE_A, 1).is_some());
    assert_eq!(c.get(&name("example.com"), 28, 1), None);
    assert_eq!(c.get(&name("www.example.com"), TYPE_A, 1), None);
    c.put(&name("EXAMPLE.COM"), TYPE_A, vec![a_record("example.com", 60, 9)], 60, 0);
    assert_eq!(c.len(), 1);
    assert_eq!(c.get(&name("example.com"), TYPE_A, 0), Some(vec![a_record("example.com", 60, 9)]));
}

#[test]
fn put_replaces_the_entry_for_the_same_key() {
    let mut c = DnsCache::new(2);
    c.put(&name("example.com"), TYPE_A, vec![a_record("example.com", 10, 1)], 10, 0);
    c.put(&name("example.com"), TYPE_A, vec![a_record("example.com", 100, 2)], 100, 5);
    assert_eq!(c.len(), 1);
    assert_eq!(c.get(&name("example.com"), TYPE_A, 50), Some(vec![a_record("example.com", 55, 2)]));
}

#[test]
fn full_cache_evicts_the_entry_that_expires_soonest() {
    let mut c = DnsCache::new(3);
    c.put(&name("a.example"), TYPE_A, vec![a_record("a.example", 1, 1)], 300, 0);
    c.put(&name("b.example"), TYPE_A, vec![a_record("b.example", 1, 2)], 100, 0);
    c.put(&name("c.example"), TYPE_A, vec![a_record("c.example", 1, 3)], 200, 0);
    assert_eq!(c.len(), 3);
    c.put(&name("d.example"), TYPE_A, vec![a_record("d.example", 1, 4)], 50, 10);
    assert_eq!(c.len(), 3);
    assert_eq!(c.get(&name("b.example"), TYPE_A, 10), None);
    assert!(c.get(&name("a.example"), TYPE_A, 10).is_some());
    assert!(c.get(&name("c.example"), TYPE_A, 10).is_some());
    assert!(c.get(&name("d.example"), TYPE_A, 10).is_some());
    c.put(&name("e.example"), TYPE_A, vec![a_record("e.example", 1, 5)], 500, 10);
    assert_eq!(c.len(), 3);
    assert_eq!(c.get(&name("d.example"), TYPE_A, 10), None);
}

#[test]
fn full_cache_drops_all_expired_entries_before_live_ones() {
    let mut c = DnsCache::new(3);
    c.put(&name("a.example"), TYPE_A, vec![a_record("a.example", 1, 1)], 10, 0);
    c.put(&name("b.example"), TYPE_A, vec![a_record("b.example", 1, 2)], 20, 0);
    c.put(&name("c.example"), TYPE_A, vec![a_record("c.example", 1, 3)], 1000, 0);
    c.put(&name("d.example"), TYPE_A, vec![a_record("d.example", 1, 4)], 5, 100);
    assert_eq!(c.len(), 2);
    assert!(c.get(&name("c.example"), TYPE_A, 100).is_some());
    assert!(c.get(&name("d.example"), TYPE_A, 100).is_some());
}

#[test]
fn cache_never_grows_past_its_bound() {
    let mut c = DnsCache::new(4);
    assert_eq!(c.max_entries(), 4);
    for i in 0..50u32 {
        let owner = format!("host{}.example", i);
        c.put(&name(&owner), TYPE_A, vec![a_record(&owner, 60, i as u8)], 60 + i as i64, 0);
        assert!(c.len() <= 4);
    }
    assert_eq!(c.len(), 4);
    assert!(c.get(&name("host49.example"), TYPE_A, 1).is_some());
    assert!(c.get(&name("host46.example"), TYPE_A, 1).is_some());
    assert_eq!(c.get(&name("host45.example"), TYPE_A, 1), None);
}

#[test]
fn cache_made_for_no_entries_stores_nothing() {
    let mut c = DnsCache::new(0);
    c.put(&name("example.com"), TYPE_A, vec![a_record("example.com", 60, 1)], 60, 0);
    assert_eq!(c.len(), 0);
    assert_eq!(c.get(&name("example.com"), TYPE_A, 0), None);
}

#[test]
fn cache_of_one_entry_keeps_the_last_put() {
    let mut c = DnsCache::new(1);
    c.put(&name("a.example"), TYPE_A, vec![a_record("a.example", 60, 1)], 60, 0);
    c.put(&name("b.example"), TYPE_A, vec![a_record("b.example", 60, 2)], 60, 0);
    assert_eq!(c.len(), 1);
    assert_eq!(c.get(&name("a.example"), TYPE_A, 0), None);
    assert!(c.get(&name("b.example"), TYPE_A, 0).is_some());
}

#[test]
fn an_empty_answer_can_be_cached() {
    let mut c = DnsCache::new(2);
    c.put(&name("example.com"), 28, vec![], 30, 0);
    assert_eq!(c.get(&name("example.com"), 28, 29), Some(vec![]));
    assert_eq!(c.get(&name("example.com"), 28, 30), None);
}

#[test]
fn records_with_ttl_changes_the_lifetime_only() {
    let recs = vec![a_record("a.example", 5, 1), a_record("b.example", 7, 2)];
    assert_eq!(records_with_ttl(&recs, 99), vec![a_record("a.example", 99, 1), a_record("b.example", 99, 2)]);
}
