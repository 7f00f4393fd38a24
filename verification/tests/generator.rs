use auto_number::generator::{
    current_stamp, increment_date_id, next_candidate, push_padded, Timestamp,
};

fn moment(year: i32, month: u8, day: u8, hour: u8, minute: u8) -> Timestamp {
    Timestamp { year, month, day, hour, minute }
}

#[test]
fn increment_adds_one_minute() {
    assert_eq!(increment_date_id("2501011200"), "2501011201");
    assert_eq!(increment_date_id("2501011209"), "2501011210");
    assert_eq!(increment_date_id("2501011258"), "2501011259");
    assert_eq!(increment_date_id("0000000000"), "0000000001");
}

#[test]
fn increment_rolls_minute_into_hour() {
    assert_eq!(increment_date_id("2501011259"), "2501011300");
    assert_eq!(increment_date_id("2501010959"), "2501011000");
}

#[test]
fn increment_does_not_roll_hour_into_day() {
    assert_eq!(increment_date_id("2501012359"), "2501012400");
    assert_eq!(increment_date_id("2501012400"), "2501012401");
    assert_eq!(increment_date_id("2512319859"), "2512319900");
}

#[test]
fn increment_keeps_the_date_digits() {
    assert_eq!(increment_date_id("9912312359"), "9912312400");
    assert_eq!(increment_date_id("0013990005"), "0013990006");
}

#[test]
fn increment_lets_hour_and_minute_pass_99() {
    assert_eq!(increment_date_id("2501019959"), "25010110000");
    assert_eq!(increment_date_id("2501011299"), "25010112100");
    assert_eq!(increment_date_id("2501011260"), "2501011261");
}

#[test]
fn increment_leaves_other_shapes_unchanged() {
    assert_eq!(increment_date_id(""), "");
    assert_eq!(increment_date_id("abc"), "abc");
    assert_eq!(increment_date_id("250101"), "250101");
    assert_eq!(increment_date_id("abcdefghij"), "abcdefghij");
    assert_eq!(increment_date_id("250101125x"), "250101125x");
    assert_eq!(increment_date_id("25010110000"), "25010110000");
    assert_eq!(increment_date_id("\u{661}\u{662}\u{663}\u{664}\u{665}"), "\u{661}\u{662}\u{663}\u{664}\u{665}");
    assert_eq!(increment_date_id("25010112\u{e9}"), "25010112\u{e9}");
}

#[test]
fn stamp_has_two_digits_per_field() {
    assert_eq!(current_stamp(&moment(2025, 6, 1, 14, 30)), "2506011430");
    assert_eq!(current_stamp(&moment(2025, 12, 31, 23, 59)), "2512312359");
    assert_eq!(current_stamp(&moment(2003, 1, 2, 3, 4)), "0301020304");
    assert_eq!(current_stamp(&moment(2000, 1, 1, 0, 0)), "0001010000");
}

#[test]
fn stamp_takes_the_year_modulo_100() {
    assert_eq!(current_stamp(&moment(1999, 12, 31, 0, 0)), "9912310000");
    assert_eq!(current_stamp(&moment(2100, 1, 1, 0, 0)), "0001010000");
    assert_eq!(current_stamp(&moment(7, 1, 1, 0, 0)), "0701010000");
    assert_eq!(current_stamp(&moment(0, 1, 1, 0, 0)), "0001010000");
    assert_eq!(current_stamp(&moment(-1, 1, 1, 0, 0)), "9901010000");
    assert_eq!(current_stamp(&moment(-100, 1, 1, 0, 0)), "0001010000");
    assert_eq!(current_stamp(&moment(-101, 1, 1, 0, 0)), "9901010000");
    assert_eq!(current_stamp(&moment(i32::MIN, 1, 1, 0, 0)), "5201010000");
    assert_eq!(current_stamp(&moment(i32::MAX, 1, 1, 0, 0)), "4701010000");
}

#[test]
fn padded_number_is_at_least_two_digits_wide() {
    let mut out = String::from("x");
    push_padded(&mut out, 0);
    push_padded(&mut out, 7);
    push_padded(&mut out, 42);
    push_padded(&mut out, 99);
    push_padded(&mut out, 100);
    push_padded(&mut out, 255);
    assert_eq!(out, "x00074299100255");
}

#[test]
fn candidate_follows_a_resolved_previous() {
    let now = moment(2025, 6, 1, 14, 30);
    assert_eq!(next_candidate("2401010000", &now), "2401010001");
    assert_eq!(next_candidate("2506011430", &now), "2506011431");
    assert_eq!(next_candidate("2501012359", &now), "2501012400");
}

#[test]
fn candidate_falls_back_to_the_stamp() {
    let now = moment(2025, 6, 1, 14, 30);
    assert_eq!(next_candidate("", &now), "2506011430");
    assert_eq!(next_candidate("abc", &now), "2506011430");
    assert_eq!(next_candidate("250601", &now), "2506011430");
    assert_eq!(next_candidate("25010110000", &now), "2506011430");
    assert_eq!(next_candidate("250101125x", &now), "2506011430");
}
