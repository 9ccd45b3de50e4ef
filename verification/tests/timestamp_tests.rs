use recorder_core::timestamp::{
    parse_timestamp_from_stem_pub, session_dir_timestamp, session_dir_timestamp_from_stem,
};

#[test]
fn stem_key_of_session_name() {
    assert_eq!(session_dir_timestamp_from_stem("alice_20240131_235959"), "20240131_235959");
}

#[test]
fn stem_key_with_underscores_in_name() {
    assert_eq!(session_dir_timestamp_from_stem("a_b_c_20230101_000102"), "20230101_000102");
}

#[test]
fn stem_key_of_name_without_separator() {
    assert_eq!(session_dir_timestamp_from_stem("alice"), "alice");
}

#[test]
fn stem_key_with_short_date() {
    assert_eq!(session_dir_timestamp_from_stem("alice_2024013_235959"), "alice_2024013_235959");
}

#[test]
fn stem_key_with_letters() {
    assert_eq!(session_dir_timestamp_from_stem("alice_2024013a_235959"), "alice_2024013a_235959");
}

#[test]
fn stem_key_with_single_separator() {
    assert_eq!(session_dir_timestamp_from_stem("20240131_235959"), "20240131_235959");
}

#[test]
fn stem_key_of_empty_name() {
    assert_eq!(session_dir_timestamp_from_stem(""), "");
}

#[test]
fn dir_key_uses_file_name() {
    assert_eq!(session_dir_timestamp("/rec/alice/alice_20240131_235959"), "20240131_235959");
    assert_eq!(session_dir_timestamp("/rec/alice/notes"), "notes");
}

#[test]
fn dir_key_of_root_is_empty() {
    assert_eq!(session_dir_timestamp("/"), "");
}

#[test]
fn start_time_of_session_stem() {
    let s = parse_timestamp_from_stem_pub("alice_20240131_120000").expect("a local time");
    assert!(s.starts_with("2024-01-31T12:00:00"), "{}", s);
}

#[test]
fn start_time_needs_separator() {
    assert_eq!(parse_timestamp_from_stem_pub("alice"), None);
}

#[test]
fn start_time_rejects_bad_month() {
    assert_eq!(parse_timestamp_from_stem_pub("alice_20241301_120000"), None);
}

#[test]
fn start_time_rejects_wrong_lengths() {
    assert_eq!(parse_timestamp_from_stem_pub("alice_2024_01"), None);
    assert_eq!(parse_timestamp_from_stem_pub("alice_20240131_1200"), None);
}

#[test]
fn start_time_rejects_missing_day() {
    assert_eq!(parse_timestamp_from_stem_pub("alice_20230229_120000"), None);
    assert_eq!(parse_timestamp_from_stem_pub("alice_20240431_120000"), None);
    assert_eq!(parse_timestamp_from_stem_pub("alice_20240115_240000"), None);
}

#[test]
fn start_time_on_leap_day() {
    let s = parse_timestamp_from_stem_pub("bob_20240229_093000").expect("a local time");
    assert!(s.starts_with("2024-02-29T09:30:00"), "{}", s);
}

#[test]
fn start_time_with_underscores_in_name() {
    let s = parse_timestamp_from_stem_pub("a_b_20240115_093000").expect("a local time");
    assert!(s.starts_with("2024-01-15T09:30:00"), "{}", s);
}

#[test]
fn start_time_rejects_letters_in_date_or_time() {
    assert_eq!(parse_timestamp_from_stem_pub("alice_2024O115_093000"), None);
    assert_eq!(parse_timestamp_from_stem_pub("alice_20240115_0930a0"), None);
}
