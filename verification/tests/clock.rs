//! Points in time, held against `chrono`.
use chrono::{DateTime, Utc};
use laba_core::clock::{parse_ts, Instant};

fn chrono_of(secs: i64, nanos: u32) -> Option<DateTime<Utc>> {
    DateTime::from_timestamp(secs, nanos)
}

const SECS: [i64; 14] = [
    0,
    59,
    60,
    -1,
    -60,
    -61,
    86_399,
    86_400,
    1_783_000_019,
    1_782_950_399,
    -8_334_601_228_800,
    -8_334_601_228_801,
    8_210_266_876_799,
    8_210_266_876_800,
];

const NANOS: [u32; 6] = [0, 1, 999_999_999, 1_000_000_000, 1_999_999_999, 2_000_000_000];

#[test]
fn instants_are_those_that_chrono_represents() {
    for secs in SECS {
        for nanos in NANOS {
            assert_eq!(
                Instant::new(secs, nanos).is_some(),
                chrono_of(secs, nanos).is_some(),
                "{} {}",
                secs,
                nanos
            );
        }
    }
}

#[test]
fn differences_and_order_are_those_of_chrono() {
    let mut all: Vec<(Instant, DateTime<Utc>)> = Vec::new();
    for secs in SECS {
        for nanos in NANOS {
            if let Some(t) = Instant::new(secs, nanos) {
                all.push((t, chrono_of(secs, nanos).unwrap()));
            }
        }
    }
    for (a, x) in &all {
        for (b, y) in &all {
            assert_eq!(a.seconds_since(b), (*x - *y).num_seconds(), "{} {}", x, y);
            let whole = (*x - *y).num_seconds() as i128;
            let left = (*x - *y).subsec_nanos() as i128;
            assert_eq!(a.nanos_since(b), whole * 1_000_000_000 + left, "{} {}", x, y);
            assert_eq!(a.is_no_later_than(b), x <= y, "{} {}", x, y);
        }
    }
}

#[test]
fn parts_of_a_second_are_dropped_towards_zero() {
    let at = |secs: i64, nanos: u32| Instant::new(secs, nanos).unwrap();
    assert_eq!(at(10, 0).seconds_since(&at(8, 500_000_000)), 1);
    assert_eq!(at(8, 500_000_000).seconds_since(&at(10, 0)), -1);
    assert_eq!(at(8, 0).seconds_since(&at(8, 999_999_999)), 0);
    assert_eq!(at(8, 500_000_000).nanos_since(&at(10, 0)), -1_500_000_000);
    assert_eq!(at(8, 0).nanos_since(&at(8, 999_999_999)), -999_999_999);
}

#[test]
fn timestamps_are_read_with_their_offset_and_fraction() {
    let epoch = Instant::new(0, 0).unwrap();
    let since = |s: &str| parse_ts(s).unwrap().seconds_since(&epoch);
    assert_eq!(since("1970-01-01T00:00:00Z"), 0);
    assert_eq!(since("2026-07-15T12:00:00Z"), 1_784_116_800);
    assert_eq!(since("2026-07-15T14:00:00+02:00"), 1_784_116_800);
    assert_eq!(since("1969-12-31T23:59:50Z"), -10);
    assert_eq!(since("1970-01-01T00:00:01.999Z"), 1);
    let whole = parse_ts("2026-07-15T12:00:00Z").unwrap();
    let more = parse_ts("2026-07-15T12:00:00.5Z").unwrap();
    assert!(whole.is_no_later_than(&more));
    assert!(!more.is_no_later_than(&whole));
    assert!(whole.is_no_later_than(&whole));
}

#[test]
fn a_leap_second_is_read() {
    let before = parse_ts("2016-12-31T23:59:59.5Z").unwrap();
    let leap = parse_ts("2016-12-31T23:59:60.5Z").unwrap();
    let shifted = parse_ts("2017-01-01T05:29:60.5+05:30").unwrap();
    let after = parse_ts("2017-01-01T00:00:00.5Z").unwrap();
    assert_eq!(leap.seconds_since(&before), 1);
    assert_eq!(shifted.seconds_since(&leap), 0);
    assert!(before.is_no_later_than(&leap));
    assert!(!leap.is_no_later_than(&before));
    assert!(leap.is_no_later_than(&shifted) && shifted.is_no_later_than(&leap));
    assert!(leap.is_no_later_than(&after));
    assert!(!after.is_no_later_than(&leap));
}

#[test]
fn other_texts_are_no_timestamps() {
    for s in ["", "not a date", "2026-07-15", "2026-07-15T12:00:00", "2026-13-01T00:00:00Z"] {
        assert!(parse_ts(s).is_none(), "{}", s);
    }
}

#[test]
fn the_present_is_after_this_was_written() {
    let written = parse_ts("2020-01-01T00:00:00Z").unwrap();
    let now = Instant::now();
    assert!(written.is_no_later_than(&now));
    let by_chrono = Utc::now();
    let same = Instant::new(by_chrono.timestamp(), by_chrono.timestamp_subsec_nanos()).unwrap();
    assert!(same.seconds_since(&now).abs() < 60);
}

#[test]
fn a_leap_second_can_make_an_age_fall_back() {
    let at = |secs: i64, nanos: u32| Instant::new(secs, nanos).unwrap();
    let fetched = at(0, 0);
    let now = at(59, 1_500_000_000);
    let later = at(60, 0);
    assert!(now.is_no_later_than(&later));
    assert_eq!(now.seconds_since(&fetched), 60);
    assert_eq!(later.seconds_since(&fetched), 60);
    // Read within a leap second, with midnight in between.
    let fetched = at(59, 1_500_000_000);
    let now = at(86_399, 1_900_000_000);
    let later = at(86_400, 0);
    assert!(now.is_no_later_than(&later));
    assert_eq!(now.seconds_since(&fetched), 86_341);
    assert_eq!(later.seconds_since(&fetched), 86_339);
}
