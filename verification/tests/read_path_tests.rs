use qotd_core::cache::{CacheKey, CacheRead, QotdCache};
use qotd_core::date::Date;
use qotd_core::errors::ResolveError;
use qotd_core::languages::Language;
use qotd_core::model::ResponseQuote;
use qotd_core::resolver::resolve;
use qotd_core::store::QuoteStore;

const T0: i64 = 1704067200; // 2024-01-01T00:00:00Z

fn quote(id: i32, language: &str, content: &str) -> ResponseQuote {
    ResponseQuote {
        id,
        content: content.to_string(),
        author: "Author".to_string(),
        reference: "Ref".to_string(),
        language: language.to_string(),
    }
}

fn store_with_today(id: i32, content: &str) -> QuoteStore {
    let mut store = QuoteStore::new();
    assert!(store.add_quote(quote(id, "en", content)));
    let day = Date { year: 2024, month: 1, day: 1 };
    store.upsert_quote_of_day("en", id, day).unwrap();
    store
}

#[test]
fn miss_reads_store_and_repairs_cache() {
    let store = store_with_today(5, "hello");
    let mut cache = QotdCache::new();
    let first = resolve(&mut cache, &store, Language::English, T0).unwrap();
    assert_eq!(first.id, 5);
    // The very next read is served by the cache alone: take the store away.
    let mut dark_store = store;
    dark_store.set_available(false);
    let second = resolve(&mut cache, &dark_store, Language::English, T0 + 60).unwrap();
    assert_eq!(second, first);
}

#[test]
fn repeated_reads_within_a_day_are_identical() {
    let store = store_with_today(5, "hello");
    let mut cache = QotdCache::new();
    let first = resolve(&mut cache, &store, Language::English, T0).unwrap();
    for offset in [1, 3600, 43200, 86399] {
        let again = resolve(&mut cache, &store, Language::English, T0 + offset).unwrap();
        assert_eq!(again, first);
    }
}

#[test]
fn corrupt_payload_is_not_an_error_and_is_repaired() {
    let store = store_with_today(5, "hello");
    let mut cache = QotdCache::new();
    assert!(cache.put(
        CacheKey::Qotd(Language::English),
        "truncated-junk".to_string(),
        Some(T0 + 86400),
    ));
    let served = resolve(&mut cache, &store, Language::English, T0).unwrap();
    assert_eq!(served.id, 5);
    // The junk has been replaced: the next read hits the cache.
    let mut dark_store = store;
    dark_store.set_available(false);
    let again = resolve(&mut cache, &dark_store, Language::English, T0 + 60).unwrap();
    assert_eq!(again, served);
}

#[test]
fn expired_payload_falls_back_to_store() {
    let store = store_with_today(5, "fresh");
    let mut cache = QotdCache::new();
    let stale = qotd_core::codec::encode_quote(&quote(9, "en", "stale"));
    assert!(cache.put(CacheKey::Qotd(Language::English), stale, Some(T0)));
    // At T0 the entry is already expired, so the store's answer wins.
    let served = resolve(&mut cache, &store, Language::English, T0).unwrap();
    assert_eq!(served.id, 5);
}

#[test]
fn no_record_resolves_to_not_found() {
    let mut store = QuoteStore::new();
    assert!(store.add_quote(quote(5, "en", "hello")));
    let mut cache = QotdCache::new();
    assert_eq!(
        resolve(&mut cache, &store, Language::English, T0),
        Err(ResolveError::NotFound)
    );
}

#[test]
fn miss_with_dark_store_is_service_unavailable() {
    let mut store = store_with_today(5, "hello");
    store.set_available(false);
    let mut cache = QotdCache::new();
    assert_eq!(
        resolve(&mut cache, &store, Language::English, T0),
        Err(ResolveError::ServiceUnavailable)
    );
}

#[test]
fn dark_cache_still_serves_from_store() {
    let store = store_with_today(5, "hello");
    let mut cache = QotdCache::new();
    cache.set_available(false);
    let served = resolve(&mut cache, &store, Language::English, T0).unwrap();
    assert_eq!(served.id, 5);
}

#[test]
fn repair_refreshes_reset_marker() {
    let store = store_with_today(5, "hello");
    let mut cache = QotdCache::new();
    resolve(&mut cache, &store, Language::English, T0).unwrap();
    // Midnight of 2024-01-02 in Berlin is 23:00 UTC on 2024-01-01.
    match cache.get(CacheKey::Reset(Language::English), T0) {
        CacheRead::Hit(marker) => {
            assert_eq!(qotd_core::codec::parse_reset_marker(&marker), Some(1704150000));
        },
        other => panic!("expected a marker, got {:?}", other),
    }
}
