use hmmcli::config::Config;
use hmmcli::entry::{Entry, Timestamp};
use hmmcli::error::{from_str, Error};

fn from_str_parts(s: &str) -> (String, String) {
    let entry = Entry::try_from_str(s).unwrap();
    (entry.datetime().to_rfc3339().unwrap(), entry.message().to_owned())
}

#[test]
fn test_from_str_basic_entry() {
    assert_eq!(
        from_str_parts("2012-01-01T00:00:00+00:00,\"\"\"hello world\"\"\""),
        ("2012-01-01T00:00:00+00:00".to_owned(), "hello world".to_owned())
    );
}

#[test]
fn test_from_str_entry_with_newline() {
    assert_eq!(
        from_str_parts("2012-01-01T00:00:00+00:00,\"\"\"hello\\nworld\"\"\""),
        ("2012-01-01T00:00:00+00:00".to_owned(), "hello\nworld".to_owned())
    );
}

#[test]
fn test_from_str_entry_with_non_utc_timezone() {
    assert_eq!(
        from_str_parts("2012-01-01T01:00:00+01:00,\"\"\"hello world\"\"\""),
        ("2012-01-01T01:00:00+01:00".to_owned(), "hello world".to_owned())
    );
}

#[test]
fn test_from_str_empty_entry() {
    assert_eq!(
        from_str_parts("2012-01-01T00:00:00+00:00,\"\"\"\"\"\""),
        ("2012-01-01T00:00:00+00:00".to_owned(), "".to_owned())
    );
}

#[test]
fn timestamp_holds_the_instant_and_the_offset() {
    let t = Timestamp::from_rfc3339("2012-01-01T01:00:00.5+01:00").unwrap();
    assert_eq!(t, Timestamp { secs: 1325376000, nanos: 500_000_000, offset: 3600 });
    let u = Timestamp::from_rfc3339("1970-01-01T00:00:00Z").unwrap();
    assert_eq!(u, Timestamp { secs: 0, nanos: 0, offset: 0 });
}

#[test]
fn timestamp_order_is_by_instant() {
    let a = Timestamp { secs: 10, nanos: 5, offset: 3600 };
    let b = Timestamp { secs: 10, nanos: 6, offset: -3600 };
    let c = Timestamp { secs: 11, nanos: 0, offset: 0 };
    assert!(a.is_before(&b));
    assert!(b.is_before(&c));
    assert!(a.is_before(&c));
    assert!(!b.is_before(&a));
    assert!(!a.is_before(&a));
    let same = Timestamp { secs: 10, nanos: 5, offset: 0 };
    assert!(!a.is_before(&same) && !same.is_before(&a));
}

#[test]
fn timestamp_text_round_trip() {
    for text in ["2020-06-13T10:12:53.353050231+00:00", "1999-12-31T23:59:59-08:00", "2012-01-01T01:00:00+01:00"] {
        assert_eq!(Timestamp::from_rfc3339(text).unwrap().to_rfc3339().unwrap(), text);
    }
}

#[test]
fn timestamp_out_of_range_has_no_text() {
    assert_eq!(Timestamp { secs: i64::MAX, nanos: 0, offset: 0 }.to_rfc3339(), None);
    assert_eq!(Timestamp { secs: 0, nanos: 0, offset: 86_400 }.to_rfc3339(), None);
    assert_eq!(Timestamp { secs: 0, nanos: 2_000_000_000, offset: 0 }.to_rfc3339(), None);
}

#[test]
fn timestamp_that_is_no_timestamp() {
    assert!(matches!(Timestamp::from_rfc3339("yesterday"), Err(Error::ChronoParse(_))));
    assert!(matches!(Timestamp::from_rfc3339(""), Err(Error::ChronoParse(_))));
}

#[test]
fn entry_to_csv_row_is_one_line() {
    let t = Timestamp::from_rfc3339("2020-01-02T03:04:05+00:00").unwrap();
    let entry = Entry::new(t, "hello world".to_owned());
    assert_eq!(entry.to_csv_row().unwrap(), "2020-01-02T03:04:05+00:00,\"\"\"hello world\"\"\"\n");
}

#[test]
fn entry_round_trip_through_its_line() {
    for message in ["", "plain", "two\nlines", "quote \" comma , backslash \\", "caf\u{e9} \u{1f600}"] {
        let t = Timestamp::from_rfc3339("2021-07-08T09:10:11.000000012+02:00").unwrap();
        let entry = Entry::new(t, message.to_owned());
        let row = entry.to_csv_row().unwrap();
        assert!(row.ends_with('\n'));
        assert_eq!(row.matches('\n').count(), 1);
        let back = Entry::try_from_str(&row).unwrap();
        assert_eq!(back.message(), message);
        assert_eq!(*back.datetime(), t);
        let bare = Entry::from_line(row.trim_end().as_bytes()).unwrap();
        assert_eq!(bare.message(), message);
    }
}

#[test]
fn entry_to_csv_row_fails_on_a_timestamp_out_of_range() {
    let entry = Entry::new(Timestamp { secs: 0, nanos: 0, offset: 100_000 }, "x".to_owned());
    match entry.to_csv_row() {
        Err(Error::String(m)) => assert_eq!(m, "timestamp out of range"),
        _ => panic!("an error was due"),
    }
}

#[test]
fn entry_from_fields_takes_the_first_two() {
    let fields = vec![
        b"2012-01-01T00:00:00+00:00".to_vec(),
        b"\"hi\"".to_vec(),
        b"ignored".to_vec(),
    ];
    let entry = Entry::from_fields(&fields).unwrap();
    assert_eq!(entry.message(), "hi");
    assert_eq!(entry.datetime().secs, 1325376000);
}

#[test]
fn entry_with_fewer_than_two_fields_is_malformed() {
    for fields in [vec![], vec![b"2012-01-01T00:00:00+00:00".to_vec()]] {
        match Entry::from_fields(&fields) {
            Err(Error::String(m)) => assert_eq!(m, "malformed CSV"),
            _ => panic!("an error was due"),
        }
    }
    assert!(matches!(Entry::try_from_str(""), Err(Error::String(_))));
    assert!(matches!(Entry::try_from_str("no comma here"), Err(Error::String(_))));
}

#[test]
fn entry_with_a_field_that_is_not_text() {
    let fields = vec![vec![0xff, 0xfe], b"\"hi\"".to_vec()];
    assert!(matches!(Entry::from_fields(&fields), Err(Error::Utf8(_))));
    let fields = vec![b"2012-01-01T00:00:00+00:00".to_vec(), vec![0xc3]];
    assert!(matches!(Entry::from_fields(&fields), Err(Error::Utf8(_))));
}

#[test]
fn entry_with_a_bad_timestamp() {
    assert!(matches!(Entry::try_from_str("soon,\"\"\"hi\"\"\""), Err(Error::ChronoParse(_))));
}

#[test]
fn entry_with_a_bad_message() {
    assert!(matches!(
        Entry::try_from_str("2012-01-01T00:00:00+00:00,not json"),
        Err(Error::SerdeJson(_))
    ));
    assert!(matches!(
        Entry::try_from_str("2012-01-01T00:00:00+00:00,12"),
        Err(Error::SerdeJson(_))
    ));
}

#[test]
fn entry_with_a_line_that_cannot_be_split() {
    assert!(matches!(
        Entry::try_from_str("2012-01-01T00:00:00+00:00,ab\"cd\"\n"),
        Err(Error::QuickCsv(_))
    ));
}

#[test]
fn entry_with_an_unclosed_quote_does_not_panic() {
    for line in ["\"", "a,\"", "a,\"\r", "\"abc", "2012-01-01T00:00:00+00:00,\"caf\u{e9}"] {
        assert!(Entry::try_from_str(line).is_err());
    }
}

#[test]
fn entry_contains_looks_for_a_substring() {
    let t = Timestamp { secs: 0, nanos: 0, offset: 0 };
    let entry = Entry::new(t, "hello world".to_owned());
    assert!(entry.contains("lo wo"));
    assert!(entry.contains(""));
    assert!(entry.contains("hello world"));
    assert!(!entry.contains("world hello"));
    assert!(!entry.contains("hello world!"));
}

#[test]
fn entry_with_message_trims_and_stamps_in_utc() {
    let before = Timestamp::from_rfc3339("2020-01-01T00:00:00+00:00").unwrap();
    let entry = Entry::with_message("  hello \n");
    assert_eq!(entry.message(), "hello");
    assert_eq!(entry.datetime().offset, 0);
    assert!(before.is_before(entry.datetime()));
}

#[test]
fn error_from_str_carries_the_text() {
    let e = from_str("malformed CSV");
    assert!(matches!(e, Error::String(_)));
    assert_eq!(e.message(), "malformed CSV");
    assert_eq!(Error::Utf8("bad".to_owned()).message(), "bad");
}

#[test]
fn config_date_format_defaults() {
    let config = Config::default();
    assert_eq!(config.date_format(), "%Y-%m-%d %H:%M");
    let config = Config { path: None, date_format: Some("%H".to_owned()), editor: None };
    assert_eq!(config.date_format(), "%H");
}

#[test]
fn config_editor_prefers_the_setting() {
    let config = Config { path: None, date_format: None, editor: Some("nano".to_owned()) };
    assert_eq!(config.editor(Some("vi".to_owned())), Some("nano".to_owned()));
    assert_eq!(Config::default().editor(Some("vi".to_owned())), Some("vi".to_owned()));
    assert_eq!(Config::default().editor(None), None);
}
