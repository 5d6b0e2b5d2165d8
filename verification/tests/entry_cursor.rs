use hmmcli::entries::{Cursor, Entries};
use hmmcli::entry::Timestamp;
use hmmcli::error::Error;
use hmmcli::stream::ByteStream;

// Each TESTDATA line is 43 characters long, 44 with its line feed.
const TESTDATA: &str = "2020-01-01T00:01:00.899849209+00:00,\"\"\"1\"\"\"
2020-02-12T23:08:40.987613062+00:00,\"\"\"2\"\"\"
2020-03-12T00:00:00.000000000+00:00,\"\"\"3\"\"\"
2020-04-12T23:28:45.726598931+00:00,\"\"\"4\"\"\"
2020-05-12T23:28:48.495151445+00:00,\"\"\"5\"\"\"
2020-06-13T10:12:53.353050231+00:00,\"\"\"6\"\"\"
";

fn entries_over(text: &str) -> Entries {
    Entries::new(ByteStream::new(text.as_bytes().to_vec()))
}

fn entry_at(pos: u64) -> Option<String> {
    entries_over(TESTDATA).at(pos).unwrap().map(|e| e.message().to_owned())
}

fn seek_to_first(date_str: &str) -> Option<String> {
    let date = Timestamp::from_rfc3339(date_str).unwrap();
    let mut entries = entries_over(TESTDATA);
    entries.seek_to_first(&date).unwrap();
    entries.next_entry().unwrap().map(|e| e.message().to_owned())
}

#[test]
fn test_entry_at_line_1_offset_0() {
    assert_eq!(entry_at(44 * 0 + 0), Some("1".to_owned()));
}

#[test]
fn test_entry_at_line_1_offset_10() {
    assert_eq!(entry_at(44 * 0 + 10), Some("1".to_owned()));
}

#[test]
fn test_entry_at_line_1_offset_43() {
    assert_eq!(entry_at(44 * 0 + 43), Some("1".to_owned()));
}

#[test]
fn test_entry_at_line_2_offset_0() {
    assert_eq!(entry_at(44 * 1 + 0), Some("2".to_owned()));
}

#[test]
fn test_entry_at_line_2_offset_10() {
    assert_eq!(entry_at(44 * 1 + 10), Some("2".to_owned()));
}

#[test]
fn test_entry_at_line_2_offset_43() {
    assert_eq!(entry_at(44 * 1 + 43), Some("2".to_owned()));
}

#[test]
fn test_entry_at_line_3_offset_0() {
    assert_eq!(entry_at(44 * 2 + 0), Some("3".to_owned()));
}

#[test]
fn test_entry_at_line_3_offset_10() {
    assert_eq!(entry_at(44 * 2 + 10), Some("3".to_owned()));
}

#[test]
fn test_entry_at_line_3_offset_43() {
    assert_eq!(entry_at(44 * 2 + 43), Some("3".to_owned()));
}

#[test]
fn test_entry_at_line_4_offset_0() {
    assert_eq!(entry_at(44 * 3 + 0), Some("4".to_owned()));
}

#[test]
fn test_entry_at_line_4_offset_10() {
    assert_eq!(entry_at(44 * 3 + 10), Some("4".to_owned()));
}

#[test]
fn test_entry_at_line_4_offset_43() {
    assert_eq!(entry_at(44 * 3 + 43), Some("4".to_owned()));
}

#[test]
fn test_entry_at_line_5_offset_0() {
    assert_eq!(entry_at(44 * 4 + 0), Some("5".to_owned()));
}

#[test]
fn test_entry_at_line_5_offset_10() {
    assert_eq!(entry_at(44 * 4 + 10), Some("5".to_owned()));
}

#[test]
fn test_entry_at_line_5_offset_43() {
    assert_eq!(entry_at(44 * 4 + 43), Some("5".to_owned()));
}

#[test]
fn test_entry_at_line_6_offset_0() {
    assert_eq!(entry_at(44 * 5 + 0), Some("6".to_owned()));
}

#[test]
fn test_entry_at_line_6_offset_10() {
    assert_eq!(entry_at(44 * 5 + 10), Some("6".to_owned()));
}

#[test]
fn test_entry_at_line_6_offset_43() {
    assert_eq!(entry_at(44 * 5 + 43), Some("6".to_owned()));
}

#[test]
fn test_entry_at_line_7_offset_0() {
    assert_eq!(entry_at(44 * 6 + 0), None);
}

#[test]
fn test_entry_at_line_8_offset_0() {
    assert_eq!(entry_at(44 * 7 + 0), None);
}

#[test]
fn test_entry_at_line_9_offset_0() {
    assert_eq!(entry_at(44 * 8 + 0), None);
}

#[test]
fn test_seek_to_first_exact_1() {
    assert_eq!(seek_to_first("2020-01-01T00:01:00.899849209+00:00"), Some("1".to_owned()));
}

#[test]
fn test_seek_to_first_exact_2() {
    assert_eq!(seek_to_first("2020-02-12T23:08:40.987613062+00:00"), Some("2".to_owned()));
}

#[test]
fn test_seek_to_first_exact_3() {
    assert_eq!(seek_to_first("2020-03-12T00:00:00.000000000+00:00"), Some("3".to_owned()));
}

#[test]
fn test_seek_to_first_exact_4() {
    assert_eq!(seek_to_first("2020-04-12T23:28:45.726598931+00:00"), Some("4".to_owned()));
}

#[test]
fn test_seek_to_first_exact_5() {
    assert_eq!(seek_to_first("2020-05-12T23:28:48.495151445+00:00"), Some("5".to_owned()));
}

#[test]
fn test_seek_to_first_exact_6() {
    assert_eq!(seek_to_first("2020-06-13T10:12:53.353050231+00:00"), Some("6".to_owned()));
}

#[test]
fn test_seek_to_first_before_all() {
    assert_eq!(seek_to_first("2000-01-01T00:01:00.000000000+00:00"), Some("1".to_owned()));
}

#[test]
fn test_seek_to_first_after_all() {
    assert_eq!(seek_to_first("2021-01-01T00:00:00.000000000+00:00"), None);
}

#[test]
fn test_seek_to_first_just_before_2() {
    assert_eq!(seek_to_first("2020-02-12T23:08:00+00:00"), Some("2".to_owned()));
}

#[test]
fn test_seek_to_first_just_after_2() {
    assert_eq!(seek_to_first("2020-02-12T23:59:00+00:00"), Some("3".to_owned()));
}

#[test]
fn test_seek_to_first_just_before_4() {
    assert_eq!(seek_to_first("2020-04-12T23:27:00+00:00"), Some("4".to_owned()));
}

#[test]
fn test_seek_to_first_just_before_5() {
    assert_eq!(seek_to_first("2020-05-12T23:27:00+00:00"), Some("5".to_owned()));
}

#[test]
fn test_seek_to_first_just_before_6() {
    assert_eq!(seek_to_first("2020-06-13T10:00:00+00:00"), Some("6".to_owned()));
}

#[test]
fn test_navigating_entries() -> Result<(), Error> {
    let mut entries = entries_over(TESTDATA);

    assert_eq!(entries.next_entry()?.unwrap().message(), "1");
    assert_eq!(entries.next_entry()?.unwrap().message(), "2");
    assert_eq!(entries.next_entry()?.unwrap().message(), "3");
    assert_eq!(entries.next_entry()?.unwrap().message(), "4");
    assert_eq!(entries.next_entry()?.unwrap().message(), "5");
    assert_eq!(entries.next_entry()?.unwrap().message(), "6");
    assert_eq!(entries.next_entry()?.is_none(), true);
    assert_eq!(entries.prev_entry()?.unwrap().message(), "6");
    assert_eq!(entries.prev_entry()?.unwrap().message(), "5");
    assert_eq!(entries.prev_entry()?.unwrap().message(), "4");
    assert_eq!(entries.prev_entry()?.unwrap().message(), "3");
    assert_eq!(entries.prev_entry()?.unwrap().message(), "2");
    assert_eq!(entries.prev_entry()?.unwrap().message(), "1");
    assert_eq!(entries.prev_entry()?.is_none(), true);
    assert_eq!(entries.prev_entry()?.is_none(), true);
    assert_eq!(entries.prev_entry()?.is_none(), true);
    assert_eq!(entries.next_entry()?.unwrap().message(), "1");
    assert_eq!(entries.next_entry()?.unwrap().message(), "2");
    assert_eq!(entries.next_entry()?.unwrap().message(), "3");
    assert_eq!(entries.next_entry()?.unwrap().message(), "4");
    assert_eq!(entries.next_entry()?.unwrap().message(), "5");
    assert_eq!(entries.next_entry()?.unwrap().message(), "6");
    assert_eq!(entries.next_entry()?.is_none(), true);
    Ok(())
}

#[test]
fn test_seek_to_end() -> Result<(), Error> {
    let mut entries = entries_over(TESTDATA);

    entries.seek_to_end()?;
    assert_eq!(entries.prev_entry()?.unwrap().message(), "6");
    Ok(())
}

#[test]
fn test_iterator() -> Result<(), Error> {
    let mut entries = entries_over(TESTDATA);

    assert_eq!(entries.next().unwrap().unwrap().message(), "1");
    assert_eq!(entries.next().unwrap().unwrap().message(), "2");
    assert_eq!(entries.next().unwrap().unwrap().message(), "3");
    assert_eq!(entries.next().unwrap().unwrap().message(), "4");
    assert_eq!(entries.next().unwrap().unwrap().message(), "5");
    assert_eq!(entries.next().unwrap().unwrap().message(), "6");
    assert_eq!(entries.next().is_none(), true);
    Ok(())
}

#[test]
fn six_months_fixture_seeks_to_april_and_past_the_end() {
    assert_eq!(seek_to_first("2020-04-12T23:27:00+00:00"), Some("4".to_owned()));
    assert_eq!(seek_to_first("2021-01-01T00:00:00+00:00"), None);
    // the same instants written in another zone
    assert_eq!(seek_to_first("2020-04-13T01:27:00+02:00"), Some("4".to_owned()));
    assert_eq!(seek_to_first("2020-04-13T01:29:00+02:00"), Some("5".to_owned()));
}

#[test]
fn seek_to_first_leaves_the_cursor_on_the_record() {
    let mut entries = entries_over(TESTDATA);
    let date = Timestamp::from_rfc3339("2020-03-01T00:00:00+00:00").unwrap();
    entries.seek_to_first(&date).unwrap();
    assert_eq!(entries.position(), 88);
    let late = Timestamp::from_rfc3339("2030-01-01T00:00:00+00:00").unwrap();
    entries.seek_to_first(&late).unwrap();
    assert_eq!(entries.position(), 264);
    assert!(entries.next_entry().unwrap().is_none());
    assert_eq!(entries.prev_entry().unwrap().unwrap().message(), "6");
}

#[test]
fn seek_to_first_lands_on_the_first_of_equal_timestamps() {
    let mut text = String::new();
    for (stamp, message) in [
        ("2020-01-01T00:00:00+00:00", "a"),
        ("2020-01-02T00:00:00+00:00", "b1"),
        ("2020-01-02T00:00:00+00:00", "b2"),
        ("2020-01-02T00:00:00+00:00", "b3"),
        ("2020-01-03T00:00:00+00:00", "c"),
    ] {
        text.push_str(&format!("{},\"\"\"{}\"\"\"\n", stamp, message));
    }
    let mut entries = entries_over(&text);
    let date = Timestamp::from_rfc3339("2020-01-02T00:00:00+00:00").unwrap();
    entries.seek_to_first(&date).unwrap();
    assert_eq!(entries.next_entry().unwrap().unwrap().message(), "b1");
}

#[test]
fn seek_to_first_fails_on_a_line_that_does_not_decode() {
    let mut entries = entries_over("not a record\n");
    let date = Timestamp::from_rfc3339("2020-01-02T00:00:00+00:00").unwrap();
    assert!(matches!(entries.seek_to_first(&date), Err(Error::String(_))));
}

#[test]
fn empty_stream() {
    let mut entries = entries_over("");
    assert_eq!(entries.len(), 0);
    assert!(entries.is_empty());
    assert!(entries.next_entry().unwrap().is_none());
    assert!(entries.prev_entry().unwrap().is_none());
    assert_eq!(entries.position(), 0);
    entries.seek_to_end().unwrap();
    assert_eq!(entries.position(), 0);
    assert!(entries.next().is_none());
    assert!(entries.rand_entry().unwrap().is_none());
    assert!(entries.at(0).unwrap().is_none());
    assert!(entries.at(5).unwrap().is_none());
    let date = Timestamp::from_rfc3339("2020-01-02T00:00:00+00:00").unwrap();
    entries.seek_to_first(&date).unwrap();
    assert_eq!(entries.position(), 0);
}

#[test]
fn single_line_without_line_feed() {
    let text = "2020-01-01T00:01:00.899849209+00:00,\"\"\"only\"\"\"";
    let mut entries = entries_over(text);
    assert_eq!(entries.len(), text.len() as u64);
    assert!(!entries.is_empty());
    assert_eq!(entries.next_entry().unwrap().unwrap().message(), "only");
    assert!(entries.next_entry().unwrap().is_none());
    assert!(entries.next_entry().unwrap().is_none());
    for pos in 0..(text.len() as u64) {
        let mut again = entries_over(text);
        assert_eq!(again.at(pos).unwrap().unwrap().message(), "only");
        assert_eq!(again.position(), text.len() as u64);
    }
}

#[test]
fn reading_at_the_end_parks_one_byte_behind_it() {
    let mut entries = entries_over(TESTDATA);
    assert!(entries.at(264).unwrap().is_none());
    assert_eq!(entries.position(), 265);
    assert!(entries.next_entry().unwrap().is_none());
    assert_eq!(entries.position(), 265);
}

#[test]
fn reading_beyond_the_end_moves_nothing() {
    let mut entries = entries_over(TESTDATA);
    entries.next_entry().unwrap();
    assert!(entries.at(265).unwrap().is_none());
    assert_eq!(entries.position(), 44);
}

#[test]
fn stepping_back_after_a_read_yields_the_record_before() {
    let mut entries = entries_over(TESTDATA);
    assert_eq!(entries.at(100).unwrap().unwrap().message(), "3");
    assert_eq!(entries.position(), 132);
    assert_eq!(entries.prev_entry().unwrap().unwrap().message(), "2");
    assert_eq!(entries.position(), 88);
    assert_eq!(entries.next_entry().unwrap().unwrap().message(), "3");
}

#[test]
fn backward_is_the_reverse_of_forward() {
    for n in 0..8usize {
        let mut text = String::new();
        for i in 0..n {
            text.push_str(&format!("2020-01-{:02}T00:00:00+00:00,\"\"\"{}\"\"\"\n", i + 1, "m".repeat(i)));
        }
        let mut entries = entries_over(&text);
        let mut forward = Vec::new();
        while let Some(e) = entries.next_entry().unwrap() {
            forward.push(e.message().to_owned());
        }
        let mut backward = Vec::new();
        while let Some(e) = entries.prev_entry().unwrap() {
            backward.push(e.message().to_owned());
        }
        assert_eq!(forward.len(), n);
        backward.reverse();
        assert_eq!(forward, backward);
    }
}

#[test]
fn at_agrees_with_a_forward_scan() {
    let mut scan = entries_over(TESTDATA);
    let mut start = scan.position();
    while let Some(e) = scan.next_entry().unwrap() {
        let end = scan.position();
        for pos in start..end {
            let mut direct = entries_over(TESTDATA);
            assert_eq!(direct.at(pos).unwrap().unwrap().message(), e.message());
        }
        start = end;
    }
    assert_eq!(start, 264);
}

#[test]
fn seek_to_next_and_prev_move_by_lines() {
    let mut entries = entries_over(TESTDATA);
    assert_eq!(entries.seek_to_next(), Some(44));
    assert_eq!(entries.seek_to_next(), Some(88));
    assert_eq!(entries.seek_to_prev(), Some(44));
    assert_eq!(entries.seek_to_prev(), Some(0));
    assert_eq!(entries.seek_to_prev(), None);
    assert_eq!(entries.position(), 0);
}

#[test]
fn seek_to_end_over_an_unterminated_last_line() {
    let text = "2020-01-01T00:00:00+00:00,\"\"\"a\"\"\"\n2020-01-02T00:00:00+00:00,\"\"\"b\"\"\"";
    let mut entries = entries_over(text);
    entries.seek_to_end().unwrap();
    assert_eq!(entries.position(), text.len() as u64);
    let mut broken = entries_over("2020-01-01T00:00:00+00:00,\"\"\"a\"\"\"\nrubbish");
    assert!(broken.seek_to_end().is_err());
}

#[test]
fn random_entry_is_one_of_the_records() {
    let mut entries = entries_over(TESTDATA);
    for _ in 0..50 {
        let e = entries.rand_entry().unwrap().unwrap();
        assert!(["1", "2", "3", "4", "5", "6"].contains(&e.message()));
        assert_eq!(entries.position() % 44, 0);
    }
}

#[test]
fn a_line_that_does_not_decode_is_an_error() {
    let mut entries = entries_over("2020-01-01T00:00:00+00:00,\"\"\"a\"\"\"\nonly one field\n");
    assert_eq!(entries.next_entry().unwrap().unwrap().message(), "a");
    assert!(matches!(entries.next_entry(), Err(Error::String(_))));
    assert_eq!(entries.position(), 49);
    assert!(matches!(entries.next(), None));
}

#[test]
fn into_inner_gives_the_stream_back() {
    let mut entries = entries_over(TESTDATA);
    entries.next_entry().unwrap();
    let f = entries.into_inner();
    assert_eq!(f.position(), 44);
    assert_eq!(f.len(), 264);
}

#[test]
fn cursor_tells_the_parked_position_apart() {
    let mut entries = entries_over(TESTDATA);
    assert_eq!(entries.cursor(), Cursor::Offset(0));
    entries.next_entry().unwrap();
    assert_eq!(entries.cursor(), Cursor::Offset(44));
    entries.at(250).unwrap();
    assert_eq!(entries.cursor(), Cursor::Offset(264));
    assert!(entries.next_entry().unwrap().is_none());
    assert_eq!(entries.cursor(), Cursor::PastEnd);
    assert_eq!(entries.prev_entry().unwrap().unwrap().message(), "6");
    assert_eq!(entries.cursor(), Cursor::Offset(264));
    assert_eq!(entries.prev_entry().unwrap().unwrap().message(), "5");
}

#[test]
fn every_operation_leaves_the_cursor_between_lines() {
    let starts: Vec<u64> = (0..=6).map(|i| 44 * i).collect();
    let between = |p: u64| starts.contains(&p) || p >= 264;
    for pos in 0..270u64 {
        let mut e = entries_over(TESTDATA);
        e.at(pos).unwrap();
        assert!(between(e.position()));
        e.prev_entry().unwrap();
        assert!(between(e.position()));
        e.seek_to_next();
        assert!(between(e.position()));
        e.seek_to_prev();
        assert!(between(e.position()));
        e.next_entry().unwrap();
        assert!(between(e.position()));
    }
}
