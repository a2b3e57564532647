use csv2json::decode::collect;
use csv2json::lines::{ends_line, find_terminator, width_at, CR, LF};
use csv2json::{CsvExtractError, CsvExtractFut, Decoded, Event, Step};

#[test]
fn terminators_are_line_feed_and_carriage_return() {
    assert_eq!(LF, b'\n');
    assert_eq!(CR, b'\r');
    for byte in 0..=255u8 {
        assert_eq!(ends_line(byte), byte == b'\n' || byte == b'\r', "{}", byte);
    }
}

#[test]
fn find_terminator_gives_the_first_one() {
    assert_eq!(find_terminator(b"", 0), 0);
    assert_eq!(find_terminator(b"abc", 0), 3);
    assert_eq!(find_terminator(b"abc\n", 0), 3);
    assert_eq!(find_terminator(b"a\rb\nc", 0), 1);
    assert_eq!(find_terminator(b"a\rb\nc", 1), 1);
    assert_eq!(find_terminator(b"a\rb\nc", 2), 3);
    assert_eq!(find_terminator(b"a\rb\nc", 4), 5);
    assert_eq!(find_terminator(b"a\rb\nc", 5), 5);
    assert_eq!(find_terminator(b"\n", 0), 0);
}

#[test]
fn find_terminator_beyond_the_end_gives_the_length() {
    assert_eq!(find_terminator(b"a\nb", 7), 3);
    assert_eq!(find_terminator(b"", 1), 0);
}

#[test]
fn width_is_two_for_crlf_within_the_chunk() {
    assert_eq!(width_at(b"a\r\nb", 1), 2);
    assert_eq!(width_at(b"\r\n", 0), 2);
}

#[test]
fn width_is_one_otherwise() {
    assert_eq!(width_at(b"a\nb", 1), 1);
    assert_eq!(width_at(b"a\rb", 1), 1);
    assert_eq!(width_at(b"a\r", 1), 1);
    assert_eq!(width_at(b"a\n\r", 1), 1);
    assert_eq!(width_at(b"a\n\n", 1), 1);
    assert_eq!(width_at(b"\r\r\n", 0), 1);
    assert_eq!(width_at(b"a\r\nb", 2), 1);
    assert_eq!(width_at(b"ab", 5), 1);
}

#[test]
fn collect_appends_a_row() {
    let mut records = vec![vec!["a".to_string()]];
    let kept = collect(&mut records, Decoded::Row(vec!["b".to_string(), "c".to_string()]));
    assert!(kept.is_ok());
    assert_eq!(records, vec![vec!["a".to_string()], vec!["b".to_string(), "c".to_string()]]);
}

#[test]
fn collect_skips_a_blank_line() {
    let mut records = vec![vec!["a".to_string()]];
    assert!(collect(&mut records, Decoded::Blank).is_ok());
    assert_eq!(records, vec![vec!["a".to_string()]]);
}

#[test]
fn collect_turns_a_malformed_line_into_the_error() {
    let failure = match CsvExtractFut::new(Some("text/csv; charset=utf-8"), None)
        .advance(Event::Chunk(b"\xff\n"))
    {
        Step::Ready(Err(CsvExtractError::Deserialize(err))) => err,
        other => panic!("{:?}", other),
    };
    let shown = format!("{:?}", failure);
    let mut records = vec![vec!["a".to_string()]];
    let kept = collect(&mut records, Decoded::Malformed(failure));
    match kept {
        Err(CsvExtractError::Deserialize(err)) => assert_eq!(format!("{:?}", err), shown),
        other => panic!("{:?}", other),
    }
    assert_eq!(records, vec![vec!["a".to_string()]]);
}
