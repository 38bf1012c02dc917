use image_sequencer::{
    classify, decimal_text, format_stamp, parse_i64, parse_stamp, sequence, utc_capture_time,
    Action, Config,
    Entry, ImageFields, Observation, Outcome, SequenceError, Stamp,
};

fn cfg(cutoff_secs: i64, max_sequence_length: u64) -> Config {
    Config { cutoff_secs, max_sequence_length }
}

fn obs(group: i64, secs: i64, near: bool) -> Option<Observation> {
    Some(Observation { group, instant: secs * 1000, near })
}

fn image(uuid: &str, near: bool, time: &str) -> Entry {
    Entry::Image(ImageFields {
        sequence_uuid: Some(uuid.to_string()),
        near_anchor: Some(near),
        capture_time: Some(time.to_string()),
    })
}

fn rewrite(time: &str, uuid: &str) -> Action {
    Action::Rewrite { capture_time: time.to_string(), sequence_uuid: uuid.to_string() }
}

#[test]
fn near_record_is_dropped() {
    let es = vec![obs(1, 0, false), obs(1, 1, true)];
    let (s, out) = classify(&cfg(10, 200), &es);
    assert_eq!(out, vec![Outcome::Untouched, Outcome::Duplicate]);
    assert_eq!(s.skipped, 1);
    assert_eq!(s.processed, 2);
}

#[test]
fn three_records_five_seconds_apart_share_sequence_zero() {
    let entries = vec![
        image("7", false, "2023_05_01_10_00_00_000"),
        image("7", false, "2023_05_01_10_00_05_000"),
        image("7", false, "2023_05_01_10_00_10_000"),
    ];
    let rep = sequence("UTC", &cfg(10, 200), &entries).unwrap();
    assert_eq!(
        rep.actions,
        vec![
            Action::Keep,
            rewrite("2023_05_01_10_00_05_000", "0"),
            rewrite("2023_05_01_10_00_10_000", "0"),
        ]
    );
    assert_eq!(rep.processed, 3);
    assert_eq!(rep.skipped, 0);
    assert_eq!(rep.sequence_count, 1);
}

#[test]
fn fifteen_second_gap_starts_new_sequence() {
    let es = vec![obs(3, 0, false), obs(3, 15, false), obs(3, 30, false)];
    let (s, out) = classify(&cfg(10, 200), &es);
    assert_eq!(out, vec![Outcome::Untouched, Outcome::Member(1), Outcome::Member(2)]);
    assert_eq!(s.sequence_count(), 3);
    let two = vec![obs(3, 0, false), obs(3, 5, false), obs(3, 20, false)];
    let (_, out) = classify(&cfg(10, 200), &two);
    assert_eq!(out, vec![Outcome::Untouched, Outcome::Member(0), Outcome::Member(1)]);
}

#[test]
fn length_limit_splits_after_max_relabelled_records() {
    // The first record is the anchor and is not relabelled; the 200 after it
    // fill sequence 0 and the next one opens sequence 1.
    let es: Vec<Option<Observation>> = (0..202).map(|i| obs(4, i, false)).collect();
    let (s, out) = classify(&cfg(10, 200), &es);
    assert_eq!(out[0], Outcome::Untouched);
    for o in &out[1..201] {
        assert_eq!(*o, Outcome::Member(0));
    }
    assert_eq!(out[201], Outcome::Member(1));
    assert_eq!(s.sequence_len, 1);
    let es201: Vec<Option<Observation>> = (0..201).map(|i| obs(4, i, false)).collect();
    let (s, out) = classify(&cfg(10, 200), &es201);
    assert_eq!(out[200], Outcome::Member(0));
    assert_eq!(s.sequence_len, 200);
}

#[test]
fn small_length_limit_forces_split() {
    let es = vec![obs(1, 0, false), obs(1, 1, false), obs(1, 2, false), obs(1, 3, false)];
    let (_, out) = classify(&cfg(10, 2), &es);
    assert_eq!(
        out,
        vec![Outcome::Untouched, Outcome::Member(0), Outcome::Member(0), Outcome::Member(1)]
    );
}

#[test]
fn malformed_time_on_third_record_aborts() {
    let entries = vec![
        image("1", false, "2023_05_01_10_00_00_000"),
        image("1", false, "2023_05_01_10_00_01_000"),
        image("1", false, "2023-05-01 10:00:02"),
    ];
    let r = sequence("UTC", &cfg(10, 200), &entries);
    assert_eq!(r.err(), Some(SequenceError::BadCaptureTime(2)));
}

#[test]
fn cutoff_is_inclusive() {
    let es = vec![obs(1, 0, false), obs(1, 10, false), obs(1, 20, false)];
    let (_, out) = classify(&cfg(10, 200), &es);
    assert_eq!(out, vec![Outcome::Untouched, Outcome::Member(0), Outcome::Member(0)]);
    let es = vec![
        obs(1, 0, false),
        Some(Observation { group: 1, instant: 10_001, near: false }),
    ];
    let (_, out) = classify(&cfg(10, 200), &es);
    assert_eq!(out[1], Outcome::Member(1));
}

#[test]
fn group_change_starts_new_sequence() {
    let es = vec![obs(1, 0, false), obs(1, 1, false), obs(2, 2, false), obs(2, 3, false)];
    let (_, out) = classify(&cfg(10, 200), &es);
    assert_eq!(
        out,
        vec![Outcome::Untouched, Outcome::Member(0), Outcome::Member(1), Outcome::Member(1)]
    );
}

#[test]
fn duplicate_becomes_the_anchor() {
    // The third record is compared with the duplicate, 8 s before it, not
    // with the first record, 16 s before it.
    let es = vec![obs(1, 0, false), obs(1, 8, true), obs(1, 16, false)];
    let (s, out) = classify(&cfg(10, 200), &es);
    assert_eq!(out, vec![Outcome::Untouched, Outcome::Duplicate, Outcome::Member(0)]);
    assert_eq!(s.sequence_len, 1);
}

#[test]
fn flagged_records_are_not_counted() {
    let es = vec![None, obs(1, 0, false), None, obs(1, 1, true), obs(1, 2, false), None];
    let (s, out) = classify(&cfg(10, 200), &es);
    assert_eq!(s.processed, 3);
    assert_eq!(s.skipped, 1);
    let survivors = es
        .iter()
        .zip(out.iter())
        .filter(|(e, o)| e.is_some() && **o != Outcome::Duplicate)
        .count() as u64;
    assert_eq!(s.skipped + survivors, s.processed);
    assert_eq!(out[0], Outcome::Untouched);
    assert_eq!(out[2], Outcome::Untouched);
}

#[test]
fn ids_grow_by_at_most_one() {
    let es = vec![
        obs(1, 0, false),
        obs(1, 1, false),
        obs(1, 30, false),
        obs(1, 31, true),
        obs(2, 32, false),
        obs(2, 33, false),
        obs(2, 90, false),
    ];
    let (_, out) = classify(&cfg(10, 200), &es);
    let ids: Vec<u64> = out
        .iter()
        .filter_map(|o| match o {
            Outcome::Member(id) => Some(*id),
            _ => None,
        })
        .collect();
    assert_eq!(ids, vec![0, 1, 2, 2, 3]);
    for w in ids.windows(2) {
        assert!(w[1] == w[0] || w[1] == w[0] + 1);
    }
}

#[test]
fn rerun_over_output_changes_nothing() {
    let c = cfg(10, 2);
    let es = vec![obs(0, 0, false), obs(0, 1, false), obs(0, 2, false), obs(5, 3, false), obs(5, 40, false)];
    let (_, first) = classify(&c, &es);
    let again: Vec<Option<Observation>> = es
        .iter()
        .zip(first.iter())
        .map(|(e, o)| {
            let e = e.unwrap();
            let group = match o {
                Outcome::Member(id) => *id as i64,
                _ => e.group,
            };
            Some(Observation { group, instant: e.instant, near: false })
        })
        .collect();
    let (_, second) = classify(&c, &again);
    assert_eq!(first, second);
}

#[test]
fn empty_input_gives_one_sequence_and_no_actions() {
    let rep = sequence("UTC", &cfg(10, 200), &vec![]).unwrap();
    assert!(rep.actions.is_empty());
    assert_eq!(rep.processed, 0);
    assert_eq!(rep.sequence_count, 1);
}

#[test]
fn zone_times_are_rewritten_in_utc() {
    let entries = vec![
        image("12", false, "2023_01_01_08_00_00_000"),
        Entry::Flagged,
        image("12", false, "2023_01_01_08_00_03_250"),
        image("12", true, "2023_01_01_08_00_04_000"),
    ];
    let rep = sequence("Asia/Taipei", &cfg(10, 200), &entries).unwrap();
    assert_eq!(
        rep.actions,
        vec![Action::Keep, Action::Keep, rewrite("2023_01_01_00_00_03_250", "0"), Action::Drop]
    );
    assert_eq!(rep.processed, 3);
    assert_eq!(rep.skipped, 1);
}

#[test]
fn local_time_in_a_gap_is_refused() {
    let entries = vec![
        image("1", false, "2023_03_12_01_59_00_000"),
        image("1", false, "2023_03_12_02_30_00_000"),
    ];
    let r = sequence("America/New_York", &cfg(10, 200), &entries);
    assert_eq!(r.err(), Some(SequenceError::NoSuchLocalTime(1)));
}

#[test]
fn utc_year_past_four_digits_is_refused() {
    let entries = vec![
        image("1", false, "9999_12_31_22_59_59_000"),
        image("1", false, "9999_12_31_23_00_00_000"),
    ];
    let r = sequence("America/New_York", &cfg(10, 200), &entries);
    assert_eq!(r.err(), Some(SequenceError::TimeOutOfRange(1)));
}

#[test]
fn each_read_error_names_its_entry() {
    let c = cfg(10, 200);
    let good = image("1", false, "2023_05_01_10_00_00_000");
    let r = sequence("UTC", &c, &vec![good.clone(), Entry::NotObject]);
    assert_eq!(r.err(), Some(SequenceError::NotObject(1)));
    let r = sequence("UTC", &c, &vec![good.clone(), image("x1", false, "2023_05_01_10_00_00_000")]);
    assert_eq!(r.err(), Some(SequenceError::BadSequenceId(1)));
    let no_coords = Entry::Image(ImageFields {
        sequence_uuid: Some("1".to_string()),
        near_anchor: None,
        capture_time: Some("2023_05_01_10_00_00_000".to_string()),
    });
    let r = sequence("UTC", &c, &vec![Entry::Flagged, no_coords]);
    assert_eq!(r.err(), Some(SequenceError::BadCoordinates(1)));
    let no_time = Entry::Image(ImageFields {
        sequence_uuid: Some("1".to_string()),
        near_anchor: Some(false),
        capture_time: None,
    });
    let r = sequence("UTC", &c, &vec![no_time]);
    assert_eq!(r.err(), Some(SequenceError::BadCaptureTime(0)));
}

#[test]
fn signed_integers_are_read() {
    assert_eq!(parse_i64("42"), Some(42));
    assert_eq!(parse_i64("+7"), Some(7));
    assert_eq!(parse_i64("-0"), Some(0));
    assert_eq!(parse_i64("-9223372036854775808"), Some(i64::MIN));
    assert_eq!(parse_i64("9223372036854775807"), Some(i64::MAX));
    assert_eq!(parse_i64("9223372036854775808"), None);
    assert_eq!(parse_i64("123456789012345678901234567890"), None);
    assert_eq!(parse_i64(""), None);
    assert_eq!(parse_i64("-"), None);
    assert_eq!(parse_i64("1a"), None);
    assert_eq!(parse_i64(" 1"), None);
}

#[test]
fn decimal_text_has_no_leading_zeros() {
    assert_eq!(decimal_text(0), "0");
    assert_eq!(decimal_text(1203), "1203");
    assert_eq!(decimal_text(u64::MAX), "18446744073709551615");
}

#[test]
fn capture_times_are_read_and_written() {
    let t = parse_stamp("2024_02_29_23_59_58_007").unwrap();
    assert_eq!(
        t,
        Stamp { year: 2024, month: 2, day: 29, hour: 23, minute: 59, second: 58, milli: 7 }
    );
    assert_eq!(format_stamp(&t), "2024_02_29_23_59_58_007");
    assert_eq!(parse_stamp("2023_02_29_00_00_00_000"), None);
    assert_eq!(parse_stamp("2023_13_01_00_00_00_000"), None);
    assert_eq!(parse_stamp("2023_01_01_24_00_00_000"), None);
    assert_eq!(parse_stamp("2023_01_01_00_00_00_00"), None);
    assert_eq!(parse_stamp("2023-01-01_00_00_00_000"), None);
    assert_eq!(parse_stamp("1900_02_29_00_00_00_000"), None);
    assert!(parse_stamp("2000_02_29_00_00_00_000").is_some());
}

#[test]
fn instants_are_written_as_utc_text() {
    assert_eq!(utc_capture_time(0).as_deref(), Some("1970_01_01_00_00_00_000"));
    assert_eq!(utc_capture_time(-1).as_deref(), Some("1969_12_31_23_59_59_999"));
    assert_eq!(utc_capture_time(1_700_000_000_123).as_deref(), Some("2023_11_14_22_13_20_123"));
    assert_eq!(utc_capture_time(253_402_300_799_999).as_deref(), Some("9999_12_31_23_59_59_999"));
    assert_eq!(utc_capture_time(253_402_300_800_000), None);
    assert_eq!(utc_capture_time(i64::MAX), None);
}

#[test]
fn written_stamp_reads_back() {
    let t = Stamp { year: 1, month: 12, day: 31, hour: 0, minute: 5, second: 9, milli: 999 };
    let text = format_stamp(&t);
    assert_eq!(text, "0001_12_31_00_05_09_999");
    assert_eq!(parse_stamp(&text), Some(t));
}

#[test]
fn unknown_zone_name_finds_no_local_time() {
    let entries = vec![Entry::Flagged, image("1", false, "2023_05_01_10_00_00_000")];
    let r = sequence("Mars/Olympus_Mons", &cfg(10, 200), &entries);
    assert_eq!(r.err(), Some(SequenceError::NoSuchLocalTime(1)));
}

#[test]
fn first_failing_entry_decides_the_error() {
    let entries = vec![
        image("1", false, "2023_03_12_02_30_00_000"),
        image("x", false, "2023_03_12_03_30_00_000"),
    ];
    let r = sequence("America/New_York", &cfg(10, 200), &entries);
    assert_eq!(r.err(), Some(SequenceError::NoSuchLocalTime(0)));
    let r = sequence("UTC", &cfg(10, 200), &entries);
    assert_eq!(r.err(), Some(SequenceError::BadSequenceId(1)));
}
