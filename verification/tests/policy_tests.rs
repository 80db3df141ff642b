use qotd_core::date::Date;
use qotd_core::languages::{APILimit, Language, RequestLimit};
use qotd_core::model::{default_category, LastUpdate, Quote};
use qotd_core::monitor::{format_last_update, is_update_needed, parse_last_update};
use qotd_core::roles::{calculate_expiration, Claims, Role};

#[test]
fn language_tags() {
    assert_eq!(Language::English.as_str(), "en");
    assert_eq!(Language::RomanUrdu.as_str(), "ur-Latn");
    assert_eq!(Language::Arabic.as_str(), "ar");
}

#[test]
fn rotation_serves_two_languages() {
    assert_eq!(
        Language::variants(),
        vec![Language::English, Language::RomanUrdu]
    );
}

#[test]
fn api_limit_figures() {
    assert_eq!(APILimit::TotalRequest.as_usize(), 4);
    assert_eq!(APILimit::RefillRate.as_usize(), 4);
    assert_eq!(APILimit::RefillInterval.as_usize(), 86400000);
}

#[test]
fn request_limit_figures() {
    assert_eq!(RequestLimit::RPS.as_u64(), 2);
    assert_eq!(RequestLimit::BurstSize.as_u64(), 3);
}

#[test]
fn default_category_is_uncategorized() {
    assert_eq!(default_category(), Some("Uncategorized".to_string()));
}

#[test]
fn submitted_quote_takes_default_category() {
    let submitted = Quote {
        content: "Well begun is half done.".to_string(),
        author: "Aristotle".to_string(),
        category: default_category(),
        reference: "collected".to_string(),
    };
    assert_eq!(submitted.category.as_deref(), Some("Uncategorized"));
}

#[test]
fn role_lifetimes() {
    assert_eq!(Role::Admin.default_expiration(), usize::MAX);
    assert_eq!(Role::Premium.default_expiration(), 31_536_000);
    assert_eq!(Role::Regular.default_expiration(), 2_592_000);
    assert_eq!(Role::Free.default_expiration(), 3_600);
}

#[test]
fn expiration_adds_lifetime_except_for_admin() {
    assert_eq!(calculate_expiration(&Role::Admin, 1_000_000), usize::MAX);
    assert_eq!(calculate_expiration(&Role::Free, 1_000_000), 1_003_600);
    assert_eq!(calculate_expiration(&Role::Regular, 0), 2_592_000);
}

#[test]
fn claims_role_check() {
    let admin = Claims { exp: 10, role: Role::Admin };
    let free = Claims { exp: 10, role: Role::Free };
    assert!(admin.is_admin());
    assert!(!free.is_admin());
}

fn last(text: &str) -> LastUpdate {
    LastUpdate { last_update: text.to_string() }
}

#[test]
fn parse_last_update_accepts_real_dates() {
    assert_eq!(
        parse_last_update(&last("2024-01-01")),
        Some(Date { year: 2024, month: 1, day: 1 })
    );
    assert_eq!(
        parse_last_update(&last("2024-02-29")),
        Some(Date { year: 2024, month: 2, day: 29 })
    );
}

#[test]
fn parse_last_update_rejects_malformed_text() {
    assert_eq!(parse_last_update(&last("2023-02-29")), None);
    assert_eq!(parse_last_update(&last("2024-13-01")), None);
    assert_eq!(parse_last_update(&last("2024-00-10")), None);
    assert_eq!(parse_last_update(&last("2024-01-00")), None);
    assert_eq!(parse_last_update(&last("2024/01/01")), None);
    assert_eq!(parse_last_update(&last("24-01-01")), None);
    assert_eq!(parse_last_update(&last("")), None);
}

#[test]
fn format_then_parse_round_trips() {
    let d = Date { year: 2024, month: 3, day: 31 };
    let recorded = format_last_update(&d);
    assert_eq!(recorded.last_update, "2024-03-31");
    assert_eq!(parse_last_update(&recorded), Some(d));
}

#[test]
fn update_is_needed_only_for_past_days() {
    let today = Date { year: 2024, month: 1, day: 2 };
    assert_eq!(is_update_needed(&last("2024-01-01"), &today), Some(true));
    assert_eq!(is_update_needed(&last("2024-01-02"), &today), Some(false));
    assert_eq!(is_update_needed(&last("2024-01-03"), &today), Some(false));
    assert_eq!(is_update_needed(&last("not a date"), &today), None);
}
