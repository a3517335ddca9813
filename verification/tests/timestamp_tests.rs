use usb_hive::timestamp::{
    extract_timestamp, rawvalue_to_timestamp, split_iso_timestamp, Timestamp, MAX_SECONDS,
};

// 2019-01-01 00:00:00 UTC as a count of 100 ns intervals since 1601.
const NEW_YEAR_2019: [u8; 8] = [0, 64, 62, 240, 100, 161, 212, 1];

fn at(seconds: i64) -> Timestamp {
    Timestamp::from_seconds(seconds).unwrap()
}

#[test]
fn raw_value_to_seconds() {
    assert_eq!(rawvalue_to_timestamp(NEW_YEAR_2019.to_vec()).seconds(), 13_190_774_400);
    assert_eq!(rawvalue_to_timestamp(vec![0; 8]).seconds(), 0);
    // 10_000_000 intervals of 100 ns are one second.
    assert_eq!(rawvalue_to_timestamp(vec![0x80, 0x96, 0x98, 0, 0, 0, 0, 0]).seconds(), 1);
    // The largest raw value whose nanoseconds fit in 64 bits.
    let largest = (u64::MAX / 100).to_le_bytes().to_vec();
    assert_eq!(rawvalue_to_timestamp(largest).seconds(), MAX_SECONDS);
}

#[test]
fn moments_stay_in_range() {
    assert!(Timestamp::from_seconds(-1).is_none());
    assert!(Timestamp::from_seconds(MAX_SECONDS + 1).is_none());
    assert_eq!(at(MAX_SECONDS).seconds(), MAX_SECONDS);
    assert_eq!(at(0).seconds(), 0);
}

#[test]
fn iso_text_splits_into_date_and_time() {
    assert_eq!(split_iso_timestamp(at(13_190_774_400)), vec!["2019-01-01", "00:00:00.000"]);
    assert_eq!(split_iso_timestamp(at(0)), vec!["1601-01-01", "00:00:00.000"]);
    assert_eq!(split_iso_timestamp(at(86_400 + 3_661)), vec!["1601-01-02", "01:01:01.000"]);
    assert_eq!(split_iso_timestamp(at(MAX_SECONDS)).len(), 2);
}

#[test]
fn timestamp_text() {
    assert_eq!(extract_timestamp(NEW_YEAR_2019.to_vec()), Some("2019-01-01 00:00:00.000".to_string()));
    assert_eq!(extract_timestamp(vec![0; 7]), None);
    assert_eq!(extract_timestamp(vec![0xff; 8]), None);
}

#[test]
fn split_parts_join_back_to_iso_text() {
    assert_eq!(split_iso_timestamp(at(13_190_774_400)).join("T"), "2019-01-01T00:00:00.000");
    assert_eq!(split_iso_timestamp(at(86_400 + 3_661)).join("T"), "1601-01-02T01:01:01.000");
}
