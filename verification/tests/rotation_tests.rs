use qotd_core::cache::{CacheKey, CacheRead, QotdCache};
use qotd_core::clock::next_midnight_epoch;
use qotd_core::codec::parse_reset_marker;
use qotd_core::errors::RotationError;
use qotd_core::languages::Language;
use qotd_core::model::ResponseQuote;
use qotd_core::resolver::resolve;
use qotd_core::scheduler::{
    rotate_language, rotate_language_with_index, run_rotation_cycle, should_update_cache,
    trigger_rotation,
};
use qotd_core::store::QuoteStore;

const T0: i64 = 1704067200; // 2024-01-01T00:00:00Z

fn quote(id: i32, language: &str, content: &str) -> ResponseQuote {
    ResponseQuote {
        id,
        content: content.to_string(),
        author: "Author".to_string(),
        reference: "Ref".to_string(),
        language: language.to_string(),
    }
}

fn seeded_store() -> QuoteStore {
    let mut store = QuoteStore::new();
    assert!(store.add_quote(quote(5, "en", "first english")));
    assert!(store.add_quote(quote(3, "en", "second english")));
    assert!(store.add_quote(quote(7, "ur-Latn", "first urdu")));
    store
}

#[test]
fn rotation_example_new_year() {
    let mut store = seeded_store();
    let mut cache = QotdCache::new();
    // Rotate both languages at T0 on 2024-01-01; the draw for English
    // lands on the first listed id, which is 5.
    rotate_language_with_index(&mut store, &mut cache, Language::English, T0, 0).unwrap();
    rotate_language_with_index(&mut store, &mut cache, Language::RomanUrdu, T0, 0).unwrap();
    assert_eq!(store.row_count(), 2);
    let served = resolve(&mut cache, &store, Language::English, T0 + 1).unwrap();
    assert_eq!(served.id, 5);
    match cache.get(CacheKey::Reset(Language::English), T0) {
        CacheRead::Hit(marker) => {
            // Midnight of 2024-01-02 Berlin time (CET, +01:00).
            assert_eq!(parse_reset_marker(&marker), Some(1704150000));
        },
        other => panic!("expected a marker, got {:?}", other),
    }
    // A second trigger the same day, whatever it draws, changes neither
    // the record count nor the served quote.
    rotate_language_with_index(&mut store, &mut cache, Language::English, T0 + 3600, 1).unwrap();
    assert_eq!(store.row_count(), 2);
    let again = resolve(&mut cache, &store, Language::English, T0 + 3601).unwrap();
    assert_eq!(again.id, 5);
}

#[test]
fn rotation_marker_is_strictly_future() {
    let mut store = seeded_store();
    let mut cache = QotdCache::new();
    // 23:59:59 Berlin time on 2024-01-01: one second before rotation.
    let now = 1704149999;
    rotate_language_with_index(&mut store, &mut cache, Language::English, now, 0).unwrap();
    match cache.get(CacheKey::Reset(Language::English), now) {
        CacheRead::Hit(marker) => {
            let m = parse_reset_marker(&marker).unwrap();
            assert!(m > now);
            assert_eq!(m, 1704150000);
        },
        other => panic!("expected a marker, got {:?}", other),
    }
}

#[test]
fn rotation_across_daylight_saving_start() {
    // Berlin turns its clocks forward on 2024-03-31, so that local day
    // lasts 23 hours: the two consecutive reset markers must be 82800
    // seconds apart, not 86400.
    let mut store = seeded_store();
    let mut cache = QotdCache::new();
    let march30_noon = 1711800000; // 2024-03-30T12:00:00Z
    rotate_language_with_index(&mut store, &mut cache, Language::English, march30_noon, 0)
        .unwrap();
    let first = match cache.get(CacheKey::Reset(Language::English), march30_noon) {
        CacheRead::Hit(marker) => parse_reset_marker(&marker).unwrap(),
        other => panic!("expected a marker, got {:?}", other),
    };
    assert_eq!(first, 1711839600); // 2024-03-31T00:00 Berlin == 23:00Z on the 30th
    let march31_noon = 1711886400; // 2024-03-31T12:00:00Z
    rotate_language_with_index(&mut store, &mut cache, Language::English, march31_noon, 0)
        .unwrap();
    let second = match cache.get(CacheKey::Reset(Language::English), march31_noon) {
        CacheRead::Hit(marker) => parse_reset_marker(&marker).unwrap(),
        other => panic!("expected a marker, got {:?}", other),
    };
    assert_eq!(second, 1711922400); // 2024-04-01T00:00 Berlin == 22:00Z on the 31st
    assert_eq!(second - first, 82800);
    assert!(second > march31_noon);
}

#[test]
fn next_midnight_is_always_ahead() {
    for now in [0, T0, 1704149999, 1711800000, 1711886400, 4102444799] {
        let m = next_midnight_epoch(now).unwrap();
        assert!(m > now, "midnight {} not after {}", m, now);
    }
}

#[test]
fn cycle_isolates_a_failing_language() {
    // Only English has catalog entries: the Roman-Urdu rotation fails,
    // and the English one still goes through in the same cycle.
    let mut store = QuoteStore::new();
    assert!(store.add_quote(quote(5, "en", "only english")));
    let mut cache = QotdCache::new();
    let results = run_rotation_cycle(&mut store, &mut cache, T0);
    assert_eq!(results.len(), 2);
    assert_eq!(results[0].0, Language::English);
    assert_eq!(results[0].1, Ok(()));
    assert_eq!(results[1].0, Language::RomanUrdu);
    assert_eq!(results[1].1, Err(RotationError::NotFound));
    assert_eq!(store.row_count(), 1);
    assert_eq!(
        resolve(&mut cache, &store, Language::English, T0 + 1).unwrap().id,
        5
    );
}

#[test]
fn rotation_against_dark_store_changes_nothing() {
    let mut store = seeded_store();
    store.set_available(false);
    let mut cache = QotdCache::new();
    let r = rotate_language(&mut store, &mut cache, Language::English, T0);
    assert_eq!(r, Err(RotationError::StoreUnavailable));
    assert_eq!(store.row_count(), 0);
    assert_eq!(cache.get(CacheKey::Qotd(Language::English), T0), CacheRead::Miss);
}

#[test]
fn rotation_against_dark_cache_persists_the_record() {
    let mut store = seeded_store();
    let mut cache = QotdCache::new();
    cache.set_available(false);
    let r = rotate_language_with_index(&mut store, &mut cache, Language::English, T0, 0);
    assert_eq!(r, Err(RotationError::CacheUnavailable));
    // The record went through; the cache write did not.
    assert_eq!(store.row_count(), 1);
    assert_eq!(store.get_quote_of_day("en").unwrap().id, 5);
    cache.set_available(true);
    assert_eq!(cache.get(CacheKey::Qotd(Language::English), T0), CacheRead::Miss);
}

#[test]
fn rotation_with_random_draw_serves_a_catalog_quote() {
    let mut store = seeded_store();
    let mut cache = QotdCache::new();
    rotate_language(&mut store, &mut cache, Language::English, T0).unwrap();
    let served = resolve(&mut cache, &store, Language::English, T0 + 1).unwrap();
    assert!(served.id == 5 || served.id == 3);
    assert_eq!(served.language, "en");
}

#[test]
fn trigger_runs_a_whole_pass_at_the_clock_instant() {
    let mut store = seeded_store();
    let mut cache = QotdCache::new();
    let (instant, results) = trigger_rotation(&mut store, &mut cache).unwrap();
    assert!(instant > 0);
    assert_eq!(results.len(), 2);
    assert_eq!(results[0], (Language::English, Ok(())));
    assert_eq!(results[1], (Language::RomanUrdu, Ok(())));
    assert_eq!(store.row_count(), 2);
    // The marker really is in the future of the drawn instant.
    match cache.get(CacheKey::Reset(Language::English), instant) {
        CacheRead::Hit(marker) => {
            assert!(parse_reset_marker(&marker).unwrap() > instant);
        },
        other => panic!("expected a marker, got {:?}", other),
    }
}

#[test]
fn staleness_check_compares_against_marker() {
    assert!(should_update_cache(1704150000, 1704150000));
    assert!(should_update_cache(1704150000, 1704150001));
    assert!(!should_update_cache(1704150000, 1704149999));
}
