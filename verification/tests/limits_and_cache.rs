use rpc_proxy::cache::ResponseCache;
use rpc_proxy::json::{serialize_value, JsonValue};
use rpc_proxy::ratelimit::parse_rate_limit;

fn policy(s: &str) -> Option<(u32, u64)> {
    parse_rate_limit(&s.to_string()).map(|p| (p.capacity, p.period_secs))
}

#[test]
fn rate_limit_simple_minutes() {
    assert_eq!(policy("10/5 m"), Some((10, 300)));
}

#[test]
fn rate_limit_trailing_k_and_hours() {
    assert_eq!(policy("2K/1 h"), Some((2000, 3600)));
}

#[test]
fn rate_limit_missing_unit_means_seconds() {
    assert_eq!(policy("5/7"), Some((5, 7)));
}

#[test]
fn rate_limit_unknown_unit_means_seconds() {
    assert_eq!(policy("3/4 x"), Some((3, 4)));
}

#[test]
fn rate_limit_tolerates_spaces() {
    assert_eq!(policy(" 10 / 2 m "), Some((10, 120)));
}

#[test]
fn rate_limit_rejects_garbage() {
    assert_eq!(policy("nope"), None);
    assert_eq!(policy(""), None);
    assert_eq!(policy("1/2/3"), None);
    assert_eq!(policy("K/1 s"), None);
    assert_eq!(policy("1/ s"), None);
}

#[test]
fn rate_limit_rejects_zero_count_and_period() {
    assert_eq!(policy("0/5 s"), None);
    assert_eq!(policy("5/0 s"), None);
}

#[test]
fn rate_limit_rejects_overflow() {
    assert_eq!(policy("99999999999/1 s"), None);
    assert_eq!(policy("4294967295K/1 s"), None);
}

fn val(s: &[u8]) -> JsonValue {
    JsonValue::Str(s.to_vec())
}

fn got(c: &ResponseCache, fp: &[u8], now: u64) -> Option<String> {
    c.get(&fp.to_vec(), now).map(|v| String::from_utf8(serialize_value(&v)).unwrap())
}

#[test]
fn cache_hit_and_miss() {
    let mut c = ResponseCache::new(100, 10);
    c.put(b"k1".to_vec(), val(b"X"), 5);
    assert_eq!(got(&c, b"k1", 6), Some("\"X\"".to_string()));
    assert_eq!(got(&c, b"k2", 6), None);
}

#[test]
fn cache_stale_entry_is_a_miss() {
    let mut c = ResponseCache::new(10, 10);
    c.put(b"k".to_vec(), val(b"X"), 0);
    assert_eq!(got(&c, b"k", 10), Some("\"X\"".to_string()));
    assert_eq!(got(&c, b"k", 11), None);
}

#[test]
fn cache_replaces_same_fingerprint() {
    let mut c = ResponseCache::new(100, 10);
    c.put(b"k".to_vec(), val(b"X"), 1);
    c.put(b"k".to_vec(), val(b"Y"), 2);
    assert_eq!(c.len(), 1);
    assert_eq!(got(&c, b"k", 3), Some("\"Y\"".to_string()));
}

#[test]
fn cache_sweeps_expired_on_insert() {
    let mut c = ResponseCache::new(10, 10);
    c.put(b"old".to_vec(), val(b"X"), 0);
    c.put(b"new".to_vec(), val(b"Y"), 20);
    assert_eq!(c.len(), 1);
    assert_eq!(got(&c, b"new", 21), Some("\"Y\"".to_string()));
}

#[test]
fn cache_evicts_oldest_when_full() {
    let mut c = ResponseCache::new(1000, 2);
    c.put(b"a".to_vec(), val(b"1"), 1);
    c.put(b"b".to_vec(), val(b"2"), 2);
    c.put(b"c".to_vec(), val(b"3"), 3);
    assert_eq!(c.len(), 2);
    assert_eq!(got(&c, b"a", 4), None);
    assert_eq!(got(&c, b"b", 4), Some("\"2\"".to_string()));
    assert_eq!(got(&c, b"c", 4), Some("\"3\"".to_string()));
}

#[test]
fn cache_eviction_ties_break_by_fingerprint() {
    let mut c = ResponseCache::new(1000, 1);
    c.put(b"b".to_vec(), val(b"1"), 5);
    c.put(b"a".to_vec(), val(b"2"), 5);
    assert_eq!(c.len(), 1);
    assert_eq!(got(&c, b"a", 6), None);
    assert_eq!(got(&c, b"b", 6), Some("\"1\"".to_string()));
}

#[test]
fn cache_never_exceeds_capacity() {
    let mut c = ResponseCache::new(1000, 3);
    for i in 0..20u64 {
        c.put(format!("k{}", i).into_bytes(), val(b"v"), i);
        assert!(c.len() <= c.capacity());
    }
}
