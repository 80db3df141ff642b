use qotd_core::cache::{CacheKey, CacheRead, QotdCache};
use qotd_core::languages::Language;

const EN: CacheKey = CacheKey::Qotd(Language::English);
const EN_RESET: CacheKey = CacheKey::Reset(Language::English);
const UR: CacheKey = CacheKey::Qotd(Language::RomanUrdu);

#[test]
fn put_then_get_hits_until_expiry() {
    let mut cache = QotdCache::new();
    assert!(cache.put(EN, "payload".to_string(), Some(1000)));
    assert_eq!(cache.get(EN, 999), CacheRead::Hit("payload".to_string()));
    assert_eq!(cache.get(EN, 1000), CacheRead::Miss);
    assert_eq!(cache.get(EN, 5000), CacheRead::Miss);
}

#[test]
fn get_unknown_key_misses() {
    let cache = QotdCache::new();
    assert_eq!(cache.get(EN, 0), CacheRead::Miss);
}

#[test]
fn no_expiry_entry_never_ages_out() {
    let mut cache = QotdCache::new();
    assert!(cache.put(EN_RESET, "001704150000".to_string(), None));
    assert_eq!(
        cache.get(EN_RESET, 9_999_999_999),
        CacheRead::Hit("001704150000".to_string())
    );
}

#[test]
fn put_replaces_earlier_entry() {
    let mut cache = QotdCache::new();
    assert!(cache.put(EN, "old".to_string(), Some(1000)));
    assert!(cache.put(EN, "new".to_string(), Some(2000)));
    assert_eq!(cache.get(EN, 1500), CacheRead::Hit("new".to_string()));
}

#[test]
fn keys_are_independent() {
    let mut cache = QotdCache::new();
    assert!(cache.put(EN, "english".to_string(), Some(1000)));
    assert!(cache.put(UR, "urdu".to_string(), Some(1000)));
    assert!(cache.put(EN_RESET, "marker".to_string(), None));
    assert_eq!(cache.get(EN, 0), CacheRead::Hit("english".to_string()));
    assert_eq!(cache.get(UR, 0), CacheRead::Hit("urdu".to_string()));
    assert_eq!(cache.get(EN_RESET, 0), CacheRead::Hit("marker".to_string()));
}

#[test]
fn unreachable_cache_reports_unavailable() {
    let mut cache = QotdCache::new();
    assert!(cache.put(EN, "payload".to_string(), Some(1000)));
    cache.set_available(false);
    assert_eq!(cache.get(EN, 0), CacheRead::Unavailable);
    assert!(!cache.put(EN, "other".to_string(), Some(1000)));
    // The entries survive the outage.
    cache.set_available(true);
    assert_eq!(cache.get(EN, 0), CacheRead::Hit("payload".to_string()));
}
