use qotd_core::codec::{decode_quote, encode_quote, parse_reset_marker};
use qotd_core::model::ResponseQuote;

fn sample_quote() -> ResponseQuote {
    ResponseQuote {
        id: 5,
        content: "Hi".to_string(),
        author: "A".to_string(),
        reference: "R".to_string(),
        language: "en".to_string(),
    }
}

#[test]
fn encode_layout_is_fixed_width() {
    let payload = encode_quote(&sample_quote());
    assert_eq!(
        payload,
        "000000000500000002000000010000000100000002HiARen"
    );
}

#[test]
fn round_trip_returns_identical_quote() {
    let q = sample_quote();
    let payload = encode_quote(&q);
    let back = decode_quote(&payload).expect("a fresh encoding must decode");
    assert_eq!(back, q);
}

#[test]
fn round_trip_with_unicode_fields() {
    let q = ResponseQuote {
        id: 2147483647,
        content: "Grüße – ☀ and «text»".to_string(),
        author: "Ñandú".to_string(),
        reference: "".to_string(),
        language: "ur-Latn".to_string(),
    };
    let payload = encode_quote(&q);
    let back = decode_quote(&payload).expect("unicode encoding must decode");
    assert_eq!(back, q);
}

#[test]
fn decode_truncated_payload_is_none() {
    let payload = encode_quote(&sample_quote());
    let truncated: String = payload.chars().take(payload.chars().count() - 1).collect();
    assert_eq!(decode_quote(&truncated), None);
}

#[test]
fn decode_garbage_is_none() {
    assert_eq!(decode_quote("not a payload at all"), None);
    assert_eq!(decode_quote(""), None);
    assert_eq!(decode_quote("00000000050000000200000001000000010000000"), None);
}

#[test]
fn decode_tampered_length_is_none() {
    let payload = encode_quote(&sample_quote());
    let mut chars: Vec<char> = payload.chars().collect();
    // Inflate the content length so that the totals no longer add up.
    chars[17] = '9';
    let tampered: String = chars.into_iter().collect();
    assert_eq!(decode_quote(&tampered), None);
}

#[test]
fn decode_nondigit_header_is_none() {
    let payload = encode_quote(&sample_quote());
    let mut chars: Vec<char> = payload.chars().collect();
    chars[0] = 'x';
    let tampered: String = chars.into_iter().collect();
    assert_eq!(decode_quote(&tampered), None);
}

#[test]
fn reset_marker_round_trip() {
    assert_eq!(parse_reset_marker("001704150000"), Some(1704150000));
    assert_eq!(parse_reset_marker("000000000000"), Some(0));
}

#[test]
fn reset_marker_rejects_malformed_text() {
    assert_eq!(parse_reset_marker("1704150000"), None);
    assert_eq!(parse_reset_marker("00170415000a"), None);
    assert_eq!(parse_reset_marker(""), None);
    assert_eq!(parse_reset_marker("0017041500001"), None);
}
