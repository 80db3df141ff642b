use qotd_core::date::{next_day, Date};
use qotd_core::errors::StoreError;
use qotd_core::model::ResponseQuote;
use qotd_core::selector::{pick_quote, pick_quote_at};
use qotd_core::store::QuoteStore;

fn quote(id: i32, language: &str, content: &str) -> ResponseQuote {
    ResponseQuote {
        id,
        content: content.to_string(),
        author: "Author".to_string(),
        reference: "Ref".to_string(),
        language: language.to_string(),
    }
}

fn seeded_store() -> QuoteStore {
    let mut store = QuoteStore::new();
    assert!(store.add_quote(quote(5, "en", "first english")));
    assert!(store.add_quote(quote(3, "en", "second english")));
    assert!(store.add_quote(quote(7, "ur-Latn", "first urdu")));
    store
}

#[test]
fn pick_at_ordinal_is_deterministic() {
    let store = seeded_store();
    assert_eq!(pick_quote_at(&store, "en", 0).unwrap().id, 5);
    assert_eq!(pick_quote_at(&store, "en", 1).unwrap().id, 3);
    assert_eq!(pick_quote_at(&store, "ur-Latn", 0).unwrap().id, 7);
}

#[test]
fn pick_from_empty_catalog_is_not_found() {
    let store = seeded_store();
    assert_eq!(pick_quote(&store, "ar"), Err(StoreError::NotFound));
}

#[test]
fn pick_from_dark_store_is_unavailable() {
    let mut store = seeded_store();
    store.set_available(false);
    assert_eq!(pick_quote(&store, "en"), Err(StoreError::Unavailable));
}

#[test]
fn pick_draws_only_from_the_language() {
    let store = seeded_store();
    for _ in 0..20 {
        let q = pick_quote(&store, "en").unwrap();
        assert_eq!(q.language, "en");
        assert!(q.id == 5 || q.id == 3);
    }
}

#[test]
fn next_day_handles_month_and_year_ends() {
    let d = |y: u16, m: u8, dd: u8| Date { year: y, month: m, day: dd };
    assert_eq!(next_day(&d(2024, 1, 15)), d(2024, 1, 16));
    assert_eq!(next_day(&d(2024, 1, 31)), d(2024, 2, 1));
    assert_eq!(next_day(&d(2024, 2, 28)), d(2024, 2, 29));
    assert_eq!(next_day(&d(2024, 2, 29)), d(2024, 3, 1));
    assert_eq!(next_day(&d(2023, 2, 28)), d(2023, 3, 1));
    assert_eq!(next_day(&d(2024, 12, 31)), d(2025, 1, 1));
    assert_eq!(next_day(&d(1900, 2, 28)), d(1900, 3, 1));
    assert_eq!(next_day(&d(2000, 2, 29)), d(2000, 3, 1));
}
