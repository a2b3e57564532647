use csv2json::admission::{is_accepted, parse_length, screen, DEFAULT_LIMIT};
use csv2json::budget::charge;
use csv2json::{CsvExtractError, CsvExtractFut};

const CSV: &str = "text/csv; charset=utf-8";

#[test]
fn default_limit_is_two_mebibytes() {
    assert_eq!(DEFAULT_LIMIT, 2_097_152);
    assert_eq!(DEFAULT_LIMIT, 2 * 1024 * 1024);
}

#[test]
fn the_accepted_content_type_is_exact() {
    assert!(is_accepted("text/csv; charset=utf-8"));
    for other in [
        "",
        "text/csv",
        "text/csv; charset=utf8",
        "text/csv;charset=utf-8",
        "text/csv; charset=UTF-8",
        "Text/CSV; charset=utf-8",
        "text/csv; charset=utf-8 ",
        " text/csv; charset=utf-8",
        "text/csv; charset=utf-8; header=absent",
        "text/plain; charset=utf-8",
        "application/json",
        "text/csv; charset=utf-\u{38}\u{301}",
    ] {
        assert!(!is_accepted(other), "{:?}", other);
    }
}

#[test]
fn missing_content_type_is_rejected() {
    let verdict = screen(None, None, DEFAULT_LIMIT);
    assert!(matches!(verdict, Err(CsvExtractError::ContentType)), "{:?}", verdict);
    let state = CsvExtractFut::new(None, Some("3"));
    assert!(matches!(state, CsvExtractFut::Rejected(CsvExtractError::ContentType)), "{:?}", state);
}

#[test]
fn mismatched_content_type_is_rejected() {
    let verdict = screen(Some("application/json"), Some(3), DEFAULT_LIMIT);
    assert!(matches!(verdict, Err(CsvExtractError::ContentType)), "{:?}", verdict);
    let state = CsvExtractFut::new(Some("text/csv; charset=utf8"), None);
    assert!(matches!(state, CsvExtractFut::Rejected(CsvExtractError::ContentType)), "{:?}", state);
}

#[test]
fn content_type_is_looked_at_before_the_length() {
    let verdict = screen(Some("text/plain"), Some(DEFAULT_LIMIT + 1), DEFAULT_LIMIT);
    assert!(matches!(verdict, Err(CsvExtractError::ContentType)), "{:?}", verdict);
}

#[test]
fn declared_length_above_the_limit_is_too_long() {
    let verdict = screen(Some(CSV), Some(11), 10);
    assert!(
        matches!(verdict, Err(CsvExtractError::TooLong { length: 11, limit: 10 })),
        "{:?}",
        verdict
    );
    let state = CsvExtractFut::new(Some(CSV), Some("2097153"));
    assert!(
        matches!(
            state,
            CsvExtractFut::Rejected(CsvExtractError::TooLong {
                length: 2_097_153,
                limit: 2_097_152
            })
        ),
        "{:?}",
        state
    );
}

#[test]
fn declared_length_at_the_limit_is_accepted() {
    assert!(screen(Some(CSV), Some(10), 10).is_ok());
    assert!(screen(Some(CSV), Some(0), 10).is_ok());
    assert!(screen(Some(CSV), None, 10).is_ok());
    let state = CsvExtractFut::new(Some(CSV), Some("2097152"));
    assert!(
        matches!(
            state,
            CsvExtractFut::Accumulating {
                limit: 2_097_152,
                length: Some(2_097_152),
                bytes_read: 0,
                ..
            }
        ),
        "{:?}",
        state
    );
}

#[test]
fn accepted_request_starts_empty() {
    match CsvExtractFut::new(Some(CSV), None) {
        CsvExtractFut::Accumulating { limit, length, bytes_read, buf, records } => {
            assert_eq!(limit, DEFAULT_LIMIT);
            assert_eq!(length, None);
            assert_eq!(bytes_read, 0);
            assert!(buf.is_empty());
            assert!(records.is_empty());
        }
        other => panic!("{:?}", other),
    }
}

#[test]
fn unreadable_length_counts_as_not_declared() {
    for text in ["", "abc", "12a", " 12", "12 ", "-1", "+", "1_000", "0x10", "1.5"] {
        let state = CsvExtractFut::new(Some(CSV), Some(text));
        assert!(
            matches!(state, CsvExtractFut::Accumulating { length: None, .. }),
            "{:?} -> {:?}",
            text,
            state
        );
    }
}

#[test]
fn lengths_read_as_decimal_numbers() {
    assert_eq!(parse_length(b"0"), Some(0));
    assert_eq!(parse_length(b"7"), Some(7));
    assert_eq!(parse_length(b"42"), Some(42));
    assert_eq!(parse_length(b"007"), Some(7));
    assert_eq!(parse_length(b"+15"), Some(15));
    assert_eq!(parse_length(b"2097152"), Some(2_097_152));
    assert_eq!(parse_length(b""), None);
    assert_eq!(parse_length(b"+"), None);
    assert_eq!(parse_length(b"++1"), None);
    assert_eq!(parse_length(b"-1"), None);
    assert_eq!(parse_length(b"1 "), None);
    assert_eq!(parse_length(b"1a"), None);
    assert_eq!(parse_length(b"\xff"), None);
}

#[test]
fn lengths_read_as_the_standard_parser_reads_them() {
    let max = usize::MAX.to_string();
    let over = format!("{}0", usize::MAX);
    let next = format!("{}", usize::MAX as u128 + 1);
    for text in [
        "0", "1", "10", "0000", "+0", "+12", "-0", "+-1", "", "+", " 1", "1\n", "٣", "18446744073709551615",
        "18446744073709551616", "99999999999999999999999999", max.as_str(), over.as_str(),
        next.as_str(),
    ] {
        assert_eq!(parse_length(text.as_bytes()), text.parse::<usize>().ok(), "{:?}", text);
    }
}

#[test]
fn charge_adds_within_the_budget() {
    assert!(matches!(charge(10, None, 0, 0), Ok(0)));
    assert!(matches!(charge(10, None, 3, 4), Ok(7)));
    assert!(matches!(charge(10, None, 3, 7), Ok(10)));
    assert!(matches!(charge(10, Some(8), 3, 5), Ok(8)));
    assert!(matches!(charge(10, Some(10), 10, 0), Ok(10)));
}

#[test]
fn charge_refuses_beyond_the_limit() {
    let verdict = charge(10, None, 3, 8);
    assert!(matches!(verdict, Err(CsvExtractError::Overflow { limit: 10 })), "{:?}", verdict);
    let verdict = charge(10, None, usize::MAX, 1);
    assert!(matches!(verdict, Err(CsvExtractError::Overflow { limit: 10 })), "{:?}", verdict);
    let verdict = charge(10, Some(20), 3, 8);
    assert!(matches!(verdict, Err(CsvExtractError::Overflow { limit: 10 })), "{:?}", verdict);
}

#[test]
fn charge_refuses_beyond_the_declared_length_first() {
    let verdict = charge(10, Some(8), 3, 6);
    assert!(
        matches!(verdict, Err(CsvExtractError::OverflowKnownLength { length: 8 })),
        "{:?}",
        verdict
    );
    let verdict = charge(10, Some(8), 3, 100);
    assert!(
        matches!(verdict, Err(CsvExtractError::OverflowKnownLength { length: 8 })),
        "{:?}",
        verdict
    );
    let verdict = charge(10, Some(8), usize::MAX, usize::MAX);
    assert!(
        matches!(verdict, Err(CsvExtractError::OverflowKnownLength { length: 8 })),
        "{:?}",
        verdict
    );
}
