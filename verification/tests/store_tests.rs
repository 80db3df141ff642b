use qotd_core::date::Date;
use qotd_core::errors::StoreError;
use qotd_core::model::ResponseQuote;
use qotd_core::store::QuoteStore;

fn quote(id: i32, language: &str, content: &str) -> ResponseQuote {
    ResponseQuote {
        id,
        content: content.to_string(),
        author: "Author".to_string(),
        reference: "Ref".to_string(),
        language: language.to_string(),
    }
}

fn seeded_store() -> QuoteStore {
    let mut store = QuoteStore::new();
    assert!(store.add_quote(quote(5, "en", "first english")));
    assert!(store.add_quote(quote(3, "en", "second english")));
    assert!(store.add_quote(quote(7, "ur-Latn", "first urdu")));
    store
}

#[test]
fn add_quote_rejects_duplicate_id() {
    let mut store = seeded_store();
    assert!(!store.add_quote(quote(5, "en", "again")));
}

#[test]
fn list_ids_filters_by_language() {
    let store = seeded_store();
    assert_eq!(store.list_ids("en").unwrap(), vec![5, 3]);
    assert_eq!(store.list_ids("ur-Latn").unwrap(), vec![7]);
    assert_eq!(store.list_ids("ar").unwrap(), Vec::<i32>::new());
}

#[test]
fn get_by_id_finds_and_misses() {
    let store = seeded_store();
    assert_eq!(store.get_by_id(3).unwrap().content, "second english");
    assert_eq!(store.get_by_id(42), Err(StoreError::NotFound));
}

#[test]
fn upsert_same_key_is_ignored() {
    let mut store = seeded_store();
    let day = Date { year: 2024, month: 1, day: 1 };
    let first = store.upsert_quote_of_day("en", 5, day).unwrap();
    assert_eq!(store.row_count(), 1);
    // A concurrent second attempt with a different pick changes nothing.
    let second = store.upsert_quote_of_day("en", 3, day).unwrap();
    assert_eq!(store.row_count(), 1);
    assert_eq!(second, first);
    assert_eq!(second.quote_id, 5);
}

#[test]
fn upsert_new_day_adds_a_row() {
    let mut store = seeded_store();
    let jan1 = Date { year: 2024, month: 1, day: 1 };
    let jan2 = Date { year: 2024, month: 1, day: 2 };
    store.upsert_quote_of_day("en", 5, jan1).unwrap();
    store.upsert_quote_of_day("en", 3, jan2).unwrap();
    assert_eq!(store.row_count(), 2);
}

#[test]
fn upsert_other_language_is_independent() {
    let mut store = seeded_store();
    let day = Date { year: 2024, month: 1, day: 1 };
    store.upsert_quote_of_day("en", 5, day).unwrap();
    store.upsert_quote_of_day("ur-Latn", 7, day).unwrap();
    assert_eq!(store.row_count(), 2);
}

#[test]
fn quote_of_day_joins_most_recent_row() {
    let mut store = seeded_store();
    let jan1 = Date { year: 2024, month: 1, day: 1 };
    let jan2 = Date { year: 2024, month: 1, day: 2 };
    store.upsert_quote_of_day("en", 5, jan1).unwrap();
    store.upsert_quote_of_day("en", 3, jan2).unwrap();
    let served = store.get_quote_of_day("en").unwrap();
    assert_eq!(served.id, 3);
}

#[test]
fn quote_of_day_without_rows_is_not_found() {
    let store = seeded_store();
    assert_eq!(store.get_quote_of_day("en"), Err(StoreError::NotFound));
}

#[test]
fn quote_of_day_with_dangling_row_is_not_found() {
    let mut store = seeded_store();
    let day = Date { year: 2024, month: 1, day: 1 };
    store.upsert_quote_of_day("en", 99, day).unwrap();
    assert_eq!(store.get_quote_of_day("en"), Err(StoreError::NotFound));
}

#[test]
fn unreachable_store_surfaces_unavailable() {
    let mut store = seeded_store();
    store.set_available(false);
    assert_eq!(store.list_ids("en"), Err(StoreError::Unavailable));
    assert_eq!(store.get_by_id(5), Err(StoreError::Unavailable));
    assert_eq!(store.get_quote_of_day("en"), Err(StoreError::Unavailable));
    let day = Date { year: 2024, month: 1, day: 1 };
    assert_eq!(
        store.upsert_quote_of_day("en", 5, day),
        Err(StoreError::Unavailable)
    );
    assert_eq!(store.row_count(), 0);
}
