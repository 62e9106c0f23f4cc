use logcollector::config::{CollectorConfig, COLLECTOR_PORT, IDLE_TIMEOUT_SECS};
use logcollector::record::LogRecord;
use logcollector::timestamp::UtcDateTime;

fn at(y: i32, mo: u32, d: u32, h: u32, mi: u32, s: u32, n: u32) -> UtcDateTime {
    UtcDateTime::new(y, mo, d, h, mi, s, n).expect("valid date and time")
}

fn rfc3339(t: UtcDateTime) -> String {
    LogRecord::begin("127.0.0.1".to_string(), t).received_at
}

#[test]
fn default_config_uses_documented_port_and_timeout() {
    let c = CollectorConfig::default();
    assert_eq!(c.port, 4329);
    assert_eq!(c.idle_timeout_secs, 5);
    assert_eq!(COLLECTOR_PORT, 4329);
    assert_eq!(IDLE_TIMEOUT_SECS, 5);
}

#[test]
fn new_accepts_leap_day_only_in_leap_years() {
    assert!(UtcDateTime::new(2024, 2, 29, 0, 0, 0, 0).is_some());
    assert!(UtcDateTime::new(2000, 2, 29, 0, 0, 0, 0).is_some());
    assert!(UtcDateTime::new(1900, 2, 29, 0, 0, 0, 0).is_none());
    assert!(UtcDateTime::new(2023, 2, 29, 0, 0, 0, 0).is_none());
    assert!(UtcDateTime::new(-4, 2, 29, 0, 0, 0, 0).is_some());
}

#[test]
fn new_rejects_out_of_range_fields() {
    assert!(UtcDateTime::new(2024, 0, 1, 0, 0, 0, 0).is_none());
    assert!(UtcDateTime::new(2024, 13, 1, 0, 0, 0, 0).is_none());
    assert!(UtcDateTime::new(2024, 4, 31, 0, 0, 0, 0).is_none());
    assert!(UtcDateTime::new(2024, 4, 0, 0, 0, 0, 0).is_none());
    assert!(UtcDateTime::new(2024, 4, 30, 24, 0, 0, 0).is_none());
    assert!(UtcDateTime::new(2024, 4, 30, 0, 60, 0, 0).is_none());
    assert!(UtcDateTime::new(2024, 4, 30, 0, 0, 60, 0).is_none());
    assert!(UtcDateTime::new(2024, 4, 30, 0, 0, 59, 2_000_000_000).is_none());
    assert!(UtcDateTime::new(2024, 4, 30, 0, 0, 58, 1_000_000_000).is_none());
    assert!(UtcDateTime::new(2024, 4, 30, 0, 0, 59, 1_000_000_000).is_some());
    assert!(UtcDateTime::new(262142, 12, 31, 0, 0, 0, 0).is_some());
    assert!(UtcDateTime::new(262143, 1, 1, 0, 0, 0, 0).is_none());
    assert!(UtcDateTime::new(-262143, 1, 1, 0, 0, 0, 0).is_some());
    assert!(UtcDateTime::new(-262144, 1, 1, 0, 0, 0, 0).is_none());
}

#[test]
fn new_keeps_fields() {
    let t = at(2024, 5, 6, 7, 8, 9, 10);
    assert_eq!(
        (t.year, t.month, t.day, t.hour, t.minute, t.second, t.nanosecond),
        (2024, 5, 6, 7, 8, 9, 10)
    );
}

#[test]
fn rfc3339_whole_seconds() {
    assert_eq!(rfc3339(at(2024, 1, 2, 3, 4, 5, 0)), "2024-01-02T03:04:05+00:00");
}

#[test]
fn rfc3339_fraction_precision() {
    assert_eq!(rfc3339(at(2024, 1, 2, 3, 4, 5, 120_000_000)), "2024-01-02T03:04:05.120+00:00");
    assert_eq!(rfc3339(at(2024, 1, 2, 3, 4, 5, 123_456_000)), "2024-01-02T03:04:05.123456+00:00");
    assert_eq!(rfc3339(at(2024, 1, 2, 3, 4, 5, 123_456_789)), "2024-01-02T03:04:05.123456789+00:00");
    assert_eq!(rfc3339(at(2024, 1, 2, 3, 4, 5, 7)), "2024-01-02T03:04:05.000000007+00:00");
}

#[test]
fn rfc3339_leap_second_is_second_sixty() {
    assert_eq!(
        rfc3339(at(2016, 12, 31, 23, 59, 59, 1_500_000_000)),
        "2016-12-31T23:59:60.500+00:00"
    );
}

#[test]
fn rfc3339_years_outside_four_digits() {
    assert_eq!(rfc3339(at(5, 3, 4, 0, 0, 0, 0)), "0005-03-04T00:00:00+00:00");
    assert_eq!(rfc3339(at(-1, 3, 4, 0, 0, 0, 0)), "-0001-03-04T00:00:00+00:00");
    assert_eq!(rfc3339(at(10000, 3, 4, 0, 0, 0, 0)), "+10000-03-04T00:00:00+00:00");
}

#[test]
fn rfc3339_matches_chrono_directly() {
    let t = at(1999, 12, 31, 23, 59, 58, 999_000_000);
    let expected = chrono::NaiveDate::from_ymd_opt(1999, 12, 31)
        .unwrap()
        .and_hms_nano_opt(23, 59, 58, 999_000_000)
        .unwrap()
        .and_utc()
        .to_rfc3339();
    assert_eq!(rfc3339(t), expected);
}

#[test]
fn begin_starts_with_empty_payload() {
    let t = at(2024, 1, 2, 3, 4, 5, 0);
    let r = LogRecord::begin("10.0.0.7".to_string(), t);
    assert_eq!(r.peer_address, "10.0.0.7");
    assert_eq!(r.received, t);
    assert!(r.payload.is_empty());
}

#[test]
fn header_names_peer_and_time() {
    let r = LogRecord::begin("127.0.0.1".to_string(), at(2024, 1, 2, 3, 4, 5, 0));
    assert_eq!(r.header(), "Received from 127.0.0.1 at 2024-01-02T03:04:05+00:00\n");
}

#[test]
fn file_name_is_timestamp_with_log_suffix() {
    let r = LogRecord::begin("127.0.0.1".to_string(), at(2024, 1, 2, 3, 4, 5, 250_000_000));
    assert_eq!(r.file_name(), "2024-01-02T03:04:05.250+00:00.log");
}

#[test]
fn hello_world_record() {
    let mut r = LogRecord::begin("127.0.0.1".to_string(), at(2024, 1, 2, 3, 4, 5, 0));
    r.extend_payload(b"hello world");
    let ts = r.received_at.clone();
    assert_eq!(r.file_name(), format!("{}.log", ts));
    let expected = format!("Received from 127.0.0.1 at {}\n\nhello world\n", ts);
    assert_eq!(r.contents(), expected.into_bytes());
}

#[test]
fn empty_payload_record_is_header_blank_line_and_newline() {
    let r = LogRecord::begin("192.168.1.20".to_string(), at(2024, 6, 7, 8, 9, 10, 0));
    assert_eq!(
        r.contents(),
        b"Received from 192.168.1.20 at 2024-06-07T08:09:10+00:00\n\n\n".to_vec()
    );
}

#[test]
fn payload_bytes_are_stored_unchanged() {
    let mut r = LogRecord::begin("::1".to_string(), at(2024, 6, 7, 8, 9, 10, 0));
    let payload: Vec<u8> = vec![0, 255, 10, 13, 0xc3, 0x28, b'x'];
    r.extend_payload(&payload[..3]);
    r.extend_payload(&payload[3..]);
    assert_eq!(r.payload, payload);
    let header = r.header().into_bytes();
    let c = r.contents();
    assert_eq!(c.len(), header.len() + payload.len() + 2);
    assert_eq!(&c[..header.len()], &header[..]);
    assert_eq!(c[header.len()], b'\n');
    assert_eq!(&c[header.len() + 1..c.len() - 1], &payload[..]);
    assert_eq!(c[c.len() - 1], b'\n');
}

#[test]
fn connections_a_second_apart_get_distinct_files() {
    let a = LogRecord::begin("127.0.0.1".to_string(), at(2024, 12, 31, 23, 59, 59, 0));
    let b = LogRecord::begin("127.0.0.1".to_string(), at(2025, 1, 1, 0, 0, 0, 0));
    assert_ne!(a.file_name(), b.file_name());
}

#[test]
fn connections_in_one_instant_share_a_file_name() {
    let a = LogRecord::begin("10.0.0.1".to_string(), at(2024, 3, 3, 3, 3, 3, 0));
    let b = LogRecord::begin("10.0.0.2".to_string(), at(2024, 3, 3, 3, 3, 3, 0));
    assert_eq!(a.file_name(), b.file_name());
}

#[test]
fn now_is_a_valid_current_time() {
    let before = chrono::Utc::now();
    let t = UtcDateTime::now().expect("clock after 1970");
    let after = chrono::Utc::now();
    assert!(UtcDateTime::new(t.year, t.month, t.day, t.hour, t.minute, t.second, t.nanosecond).is_some());
    assert!(t.year >= before.format("%Y").to_string().parse::<i32>().unwrap());
    assert!(t.year <= after.format("%Y").to_string().parse::<i32>().unwrap());
}

#[test]
fn accept_stamps_the_current_time() {
    let before = chrono::Utc::now();
    let r = LogRecord::accept("127.0.0.1".to_string()).expect("clock after 1970");
    let after = chrono::Utc::now();
    let parsed = chrono::DateTime::parse_from_rfc3339(&r.received_at).expect("RFC 3339 text");
    assert!(parsed >= before && parsed <= after);
    assert!(r.received_at.ends_with("+00:00"));
    assert_eq!(r.peer_address, "127.0.0.1");
    assert!(r.payload.is_empty());
}

#[test]
fn from_unix_time_epoch_is_first_of_january_1970() {
    assert_eq!(UtcDateTime::from_unix_time(0, 0), Some(at(1970, 1, 1, 0, 0, 0, 0)));
}

#[test]
fn from_unix_time_known_instants() {
    assert_eq!(UtcDateTime::from_unix_time(1431648000, 0), Some(at(2015, 5, 15, 0, 0, 0, 0)));
    assert_eq!(
        UtcDateTime::from_unix_time(951_782_400 + 86_399, 250_000_000),
        Some(at(2000, 2, 29, 23, 59, 59, 250_000_000))
    );
    assert_eq!(
        rfc3339(UtcDateTime::from_unix_time(1_700_000_000, 5_000).unwrap()),
        "2023-11-14T22:13:20.000005+00:00"
    );
}

#[test]
fn from_unix_time_beyond_last_year_is_none() {
    // 262142-12-31T23:59:59 is the last second a calendar date can carry.
    let last: u64 = 8_210_266_876_799;
    assert_eq!(UtcDateTime::from_unix_time(last, 0), Some(at(262142, 12, 31, 23, 59, 59, 0)));
    assert_eq!(UtcDateTime::from_unix_time(last + 1, 0), None);
    assert_eq!(UtcDateTime::from_unix_time(u64::MAX, 0), None);
}
