use lazydns::cache::{get_min_ttl, make_key, CacheEntry, CachePlugin, CacheStats, LazyCacheStats, Lookup, PersistedEntry, Served};
use lazydns::cache_dump::{decode_dump, dump_threshold, encode_dump, DumpRecord};
use lazydns::dns::{Context, Message, Question, RData, Record};

fn create_test_message() -> Message {
    let mut msg = Message::new();
    msg.questions.push(Question { qname: "example.com".to_string(), qtype: 1, qclass: 1 });
    msg
}

fn create_test_response() -> Message {
    let mut msg = create_test_message();
    msg.answers.push(Record {
        name: "example.com".to_string(),
        rtype: 1,
        class: 1,
        ttl: 300,
        rdata: RData::A(0x5db8d822),
    });
    msg
}

fn entry(ttl: u32, now_ms: u64) -> CacheEntry {
    CacheEntry::new(create_test_response(), ttl, ttl, now_ms, 1_700_000_000)
}

#[test]
fn test_cache_entry_creation() {
    let e = entry(300, 0);
    assert_eq!(e.ttl, 300);
    assert!(!e.is_cache_expired(0));
    assert_eq!(e.response.answers.len(), 1);
}

#[test]
fn test_cache_entry_expiration() {
    let e = entry(0, 0);
    assert!(e.is_cache_expired(0));
}

#[test]
fn test_cache_entry_remaining_ttl() {
    let e = entry(300, 10_000);
    let remaining = e.remaining_ttl(10_500);
    assert!(remaining <= 300);
    assert!(remaining >= 299);
    assert_eq!(e.remaining_ttl(10_000 + 301_000), 0);
}

#[test]
fn test_cache_stats() {
    let mut stats = CacheStats::new();
    assert_eq!(stats.hits(), 0);
    assert_eq!(stats.misses(), 0);
    assert_eq!(stats.evictions(), 0);
    stats.record_hit();
    stats.record_hit();
    stats.record_miss();
    assert_eq!(stats.hits(), 2);
    assert_eq!(stats.misses(), 1);
    assert_eq!(stats.total_requests(), 3);
}

#[test]
fn test_cache_plugin_creation() {
    let cache = CachePlugin::new(100);
    assert_eq!(cache.max_size, 100);
    assert_eq!(cache.size(), 0);
    assert_eq!(cache.stats.hits(), 0);
}

#[test]
fn test_make_key() {
    let key = make_key(&create_test_message());
    assert_eq!(key.unwrap(), "example.com:1:1:0");
}

#[test]
fn test_make_key_case_insensitive() {
    let msg_lower = create_test_message();
    let mut msg_upper = create_test_message();
    msg_upper.questions[0].qname = "EXAMPLE.COM".to_string();
    let key_lower = make_key(&msg_lower).unwrap();
    let key_upper = make_key(&msg_upper).unwrap();
    assert_eq!(key_lower, key_upper);
    assert_eq!(key_lower, "example.com:1:1:0");
}

#[test]
fn test_make_key_no_questions() {
    assert!(make_key(&Message::new()).is_none());
}

#[test]
fn test_make_key_dnssec_flags_separate_keys() {
    let msg = create_test_message();
    let key_plain = make_key(&msg).unwrap();
    assert!(key_plain.ends_with(":0"));

    let mut msg_ad = create_test_message();
    msg_ad.authentic_data = true;
    let key_ad = make_key(&msg_ad).unwrap();
    assert!(key_ad.ends_with(":1"));
    assert_ne!(key_plain, key_ad);

    let mut msg_cd = create_test_message();
    msg_cd.checking_disabled = true;
    let key_cd = make_key(&msg_cd).unwrap();
    assert!(key_cd.ends_with(":2"));
    assert_ne!(key_plain, key_cd);

    let mut msg_do = create_test_message();
    msg_do.additional.push(Record { name: String::new(), rtype: 41, class: 1, ttl: 0, rdata: RData::Opt { flags: 0x8000 } });
    let key_do = make_key(&msg_do).unwrap();
    assert!(key_do.ends_with(":4"));
    assert_ne!(key_plain, key_do);
}

#[test]
fn test_get_min_ttl() {
    assert_eq!(get_min_ttl(&create_test_response()), 300);
}

#[test]
fn test_get_min_ttl_no_records() {
    assert_eq!(get_min_ttl(&create_test_message()), 300);
}

#[test]
fn test_cache_hit() {
    let mut cache = CachePlugin::new(100);
    cache.store("example.com:1:1:0".to_string(), entry(300, 0));
    match cache.lookup("example.com:1:1:0", 1_000, false, false) {
        Lookup::Hit(e, rem) => {
            assert_eq!(e.response.answers.len(), 1);
            assert_eq!(rem, 299);
        }
        _ => panic!("expected a hit"),
    }
    assert_eq!(cache.stats.hits(), 1);
    assert_eq!(cache.stats.misses(), 0);
}

#[test]
fn test_cache_miss() {
    let mut cache = CachePlugin::new(100);
    assert!(matches!(cache.lookup("example.com:1:1:0", 0, false, false), Lookup::Miss));
    assert_eq!(cache.stats.misses(), 1);
    assert_eq!(cache.stats.hits(), 0);
}

#[test]
fn test_cache_expiration() {
    let mut cache = CachePlugin::new(100);
    let key = "example.com:1:1:0".to_string();
    cache.cache.push(key.clone(), entry(0, 0));
    assert!(matches!(cache.lookup(&key, 0, false, false), Lookup::Miss));
    assert_eq!(cache.stats.misses(), 1);
    assert_eq!(cache.stats.expirations(), 1);
    assert!(!cache.cache.contains(&key));
}

#[test]
fn test_cache_clear() {
    let mut cache = CachePlugin::new(100);
    cache.store("key1".to_string(), entry(300, 0));
    cache.store("key2".to_string(), entry(300, 0));
    assert_eq!(cache.size(), 2);
    cache.clear();
    assert_eq!(cache.size(), 0);
}

#[test]
fn test_lru_eviction() {
    let mut cache = CachePlugin::new(2);
    cache.cache.push("key1".to_string(), entry(300, 0));
    cache.cache.push("key2".to_string(), entry(300, 0));
    assert_eq!(cache.size(), 2);
    cache.store("key3".to_string(), entry(300, 0));
    assert_eq!(cache.size(), 2);
    assert_eq!(cache.stats.evictions(), 1);
    assert!(!cache.cache.contains("key1"));
}

#[test]
fn test_cleanup_expired() {
    let mut cache = CachePlugin::new(100);
    cache.cache.push("key1".to_string(), entry(0, 0));
    cache.cache.push("key2".to_string(), entry(0, 0));
    cache.cache.push("key3".to_string(), entry(300, 0));
    assert_eq!(cache.size(), 3);
    assert_eq!(cache.stats.expirations(), 0);
    let removed = cache.cleanup_expired(0);
    assert_eq!(removed, 2);
    assert_eq!(cache.size(), 1);
    assert_eq!(cache.stats.expirations(), 2);
}

#[test]
fn test_dump_and_restore() {
    let mut src = CachePlugin::new(100);
    src.store("example.com".to_string(), entry(300, 0));
    let items: Vec<PersistedEntry> = src
        .dump_entries()
        .into_iter()
        .map(|(key, e)| PersistedEntry { key, response: e.response, cached_at_unix: e.cached_at_unix, original_ttl: e.original_ttl })
        .collect();
    let mut restored = CachePlugin::new(100);
    let count = restored.restore_entries(items, 5_000, 1_700_000_010);
    assert_eq!(count, 1);
    let e = restored.cache.peek("example.com").expect("entry not restored");
    assert!(!e.is_cache_expired(5_000));
    assert!(e.remaining_ttl(5_000) > 0);
}

fn dump_record(key: &str, cached_at_unix: u64, ttl: u32) -> DumpRecord {
    DumpRecord { key: key.as_bytes().to_vec(), cached_at_unix, original_ttl: ttl, message: vec![1, 2, 3] }
}

#[test]
fn roundtrip() {
    let now = 1_700_000_000;
    let records = vec![dump_record("example.com:1:1:0", now, 300), dump_record("test.org:1:1:0", now, 600)];
    let bytes = encode_dump(&records);
    let loaded = decode_dump(&bytes, now + 10).unwrap();
    assert_eq!(loaded.len(), 2);
    assert!(loaded.iter().any(|e| e.key == b"example.com:1:1:0".to_vec()));
    assert!(loaded.iter().any(|e| e.key == b"test.org:1:1:0".to_vec()));
    assert_eq!(loaded[0].message, vec![1, 2, 3]);
}

#[test]
fn load_skips_expired() {
    let bytes = encode_dump(&vec![dump_record("expired.com:1:1:0", 1, 1)]);
    let loaded = decode_dump(&bytes, 1_700_000_000).unwrap();
    assert!(loaded.is_empty());
}

#[test]
fn dump_rejects_bad_magic() {
    assert!(decode_dump(&vec![0u8; 12], 0).is_err());
    assert!(decode_dump(&vec![], 0).unwrap().is_empty());
    assert_eq!(dump_threshold(), 1024);
}

fn hit(cache: &mut CachePlugin, key: &str, now_ms: u64) -> (CacheEntry, u32) {
    match cache.lookup(key, now_ms, false, false) {
        Lookup::Hit(e, rem) => (e, rem),
        _ => panic!("expected a hit"),
    }
}

#[test]
fn cache_stores_response_and_serves_it() {
    let mut cache = CachePlugin::new(100);
    let key = make_key(&create_test_message()).unwrap();
    let mut ctx = Context::new(create_test_message());
    ctx.response = Some(create_test_response());
    cache.try_store_response(&ctx, &key, false, 0, 1_700_000_000);
    assert_eq!(cache.size(), 1);
    assert_eq!(cache.changes_since_dump, 1);

    let (e, rem) = hit(&mut cache, &key, 10_000);
    assert_eq!(e.ttl, 300);
    assert_eq!(rem, 290);
    let mut query = Context::new(create_test_message());
    assert_eq!(cache.serve_hit(&mut query, &key, &e, rem, false), Served::Fresh);
    assert!(query.returned);
    let resp = query.response.expect("served response");
    assert_eq!(resp.answers.len(), 1);
    assert_eq!(resp.answers[0].ttl, 290);
}

#[test]
fn cache_skips_responses_it_must_not_store() {
    let mut cache = CachePlugin::new(100);
    let key = make_key(&create_test_message()).unwrap();
    let mut ctx = Context::new(create_test_message());
    ctx.response = Some(create_test_response());
    cache.try_store_response(&ctx, &key, true, 0, 0);
    assert_eq!(cache.size(), 0);

    let mut nx = create_test_message();
    nx.rcode = 3;
    ctx.response = Some(nx);
    cache.try_store_response(&ctx, &key, false, 0, 0);
    assert_eq!(cache.size(), 0);

    let mut negative = CachePlugin::new(100).with_negative_cache(60);
    negative.try_store_response(&ctx, &key, false, 0, 0);
    assert_eq!(negative.size(), 1);
    let (e, rem) = hit(&mut negative, &key, 0);
    assert_eq!(e.ttl, 60);
    assert_eq!(rem, 60);
}

#[test]
fn cache_ttl_serves_stale_response() {
    let mut cache = CachePlugin::new(100).with_cache_ttl(10);
    let mut response = create_test_response();
    response.answers[0].ttl = 1;
    let key = make_key(&create_test_message()).unwrap();
    let mut ctx = Context::new(create_test_message());
    ctx.response = Some(response);
    cache.try_store_response(&ctx, &key, false, 0, 0);

    let (e, rem) = hit(&mut cache, &key, 2_000);
    assert_eq!(rem, 0);
    let mut query = Context::new(create_test_message());
    assert_eq!(cache.serve_hit(&mut query, &key, &e, rem, false), Served::Stale);
    let resp = query.response.expect("stale response returned");
    assert!(resp.answers[0].ttl <= 5);
    assert_eq!(cache.size(), 1);
}

#[test]
fn cache_drops_entry_without_lifetime_left() {
    let mut cache = CachePlugin::new(100);
    let key = "example.com:1:1:0".to_string();
    cache.store(key.clone(), entry(300, 0));
    let (e, _) = hit(&mut cache, &key, 0);
    let mut query = Context::new(create_test_message());
    assert_eq!(cache.serve_hit(&mut query, &key, &e, 0, false), Served::Dropped);
    assert!(query.response.is_none());
    assert_eq!(cache.size(), 0);
    assert_eq!(cache.stats.expirations(), 1);
    assert_eq!(cache.stats.misses(), 1);
}

#[test]
fn lazycache_marks_entries_below_threshold_for_refresh() {
    let mut cache = CachePlugin::new(100).with_lazycache();
    let key = "example.com:1:1:0".to_string();
    cache.store(key.clone(), entry(300, 0));
    let (e, rem) = hit(&mut cache, &key, 0);
    let mut q1 = Context::new(create_test_message());
    assert_eq!(cache.serve_hit(&mut q1, &key, &e, rem, false), Served::Fresh);
    let mut q2 = Context::new(create_test_message());
    assert_eq!(cache.serve_hit(&mut q2, &key, &e, rem, true), Served::Refresh);
    assert!(q2.response.is_some());

    let mut plain = CachePlugin::new(100);
    plain.store(key.clone(), entry(300, 0));
    let mut q3 = Context::new(create_test_message());
    assert_eq!(plain.serve_hit(&mut q3, &key, &e, rem, true), Served::Fresh);
}

#[test]
fn background_refresh_bypasses_cache() {
    let mut cache = CachePlugin::new(100);
    cache.store("example.com:1:1:0".to_string(), entry(300, 0));
    assert!(matches!(cache.lookup("example.com:1:1:0", 0, false, true), Lookup::Bypass));
    assert_eq!(cache.stats.hits(), 0);
    assert_eq!(cache.stats.misses(), 0);
}

#[test]
fn cache_entry_cache_lifetime_and_cleanup_flag() {
    let e = CacheEntry::new(create_test_response(), 30, 120, 0, 0);
    assert_eq!(e.remaining_ttl(10_000), 20);
    assert_eq!(e.remaining_cache_ttl(10_000), 110);
    assert_eq!(e.remaining_cache_ttl(200_000), 0);
    assert!(CachePlugin::new(10).is_cleanup_enabled());
    assert!(!CachePlugin::new(10).with_cleanup(false, 60).is_cleanup_enabled());
}

#[test]
fn cache_stats_total_counts_hits_and_misses_only() {
    let mut s = CacheStats::new();
    for _ in 0..3 {
        s.record_hit();
    }
    for _ in 0..4 {
        s.record_eviction();
        s.record_expiration();
    }
    s.record_miss();
    s.record_miss();
    assert_eq!(s.total_requests(), 5);
    assert_eq!(s.hits(), 3);
    assert_eq!(s.misses(), 2);
    assert_eq!(s.evictions(), 4);
    assert_eq!(s.expirations(), 4);
}

#[test]
fn lazy_cache_stats_count_refreshes() {
    let mut l = LazyCacheStats::new();
    for _ in 0..3 {
        l.record_refresh();
    }
    assert_eq!(l.refreshes(), 3);
    assert!(l.successful_refreshes() + l.failed_refreshes() <= l.refreshes());
}
