use double_riichi_server::time::{civil_from_days, unix_seconds_rfc3339};
use double_riichi_server::writer::{LimitedJsonWriter, WriteRefusal};

#[test]
fn civil_dates_of_day_counts() {
    assert_eq!(civil_from_days(0), (1970, 1, 1));
    assert_eq!(civil_from_days(-1), (1969, 12, 31));
    assert_eq!(civil_from_days(19723), (2024, 1, 1));
    assert_eq!(civil_from_days(11016), (2000, 2, 29));
    assert_eq!(civil_from_days(-719468), (0, 3, 1));
}

#[test]
fn rfc3339_text_of_instants() {
    assert_eq!(unix_seconds_rfc3339(0), "1970-01-01T00:00:00Z");
    assert_eq!(unix_seconds_rfc3339(-5), "1970-01-01T00:00:00Z");
    assert_eq!(unix_seconds_rfc3339(1_700_000_000), "2023-11-14T22:13:20Z");
    assert_eq!(unix_seconds_rfc3339(951_782_399), "2000-02-28T23:59:59Z");
}

#[test]
fn the_writer_refuses_what_passes_its_limit() {
    let mut writer = LimitedJsonWriter::new(5);
    assert_eq!(writer.write(b"abc"), Ok(3));
    assert!(!writer.overflowed());
    assert_eq!(writer.write(b"def"), Err(WriteRefusal::LimitExceeded));
    assert!(writer.overflowed());
    assert_eq!(writer.write(b"de"), Ok(2));
    assert_eq!(writer.into_inner(), b"abcde".to_vec());
}
