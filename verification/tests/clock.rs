use auto_number::classifier::has_digits;
use auto_number::clock::{now, run_auto_number, ClockError};
use auto_number::engine::Record;

#[test]
fn moment_read_from_the_clock_is_well_formed() {
    match now() {
        Ok(t) => {
            assert!(1 <= t.month && t.month <= 12);
            assert!(1 <= t.day && t.day <= 31);
            assert!(t.hour <= 23);
            assert!(t.minute <= 59);
            assert!(t.year >= 2019);
        }
        Err(e) => assert_eq!(e, ClockError::IndeterminateOffset),
    }
}

#[test]
fn pass_at_the_present_moment_numbers_or_leaves_everything() {
    let document = "id: \"\" A\nid: \"250601\" B\n";
    let mut records = vec![
        Record { identifier: "".to_string(), deck: "d".to_string(), is_empty: false },
        Record { identifier: "250601".to_string(), deck: "d".to_string(), is_empty: false },
    ];
    let before = records.clone();
    match run_auto_number(document, &mut records) {
        Ok(text) => {
            assert!(has_digits(&records[0].identifier, 10));
            assert_eq!(
                records[1].identifier,
                auto_number::generator::increment_date_id(&records[0].identifier)
            );
            assert_eq!(
                text,
                format!(
                    "id: \"{}\" A\nid: \"{}\" B\n",
                    records[0].identifier, records[1].identifier
                )
            );
        }
        Err(e) => {
            assert_eq!(e, ClockError::IndeterminateOffset);
            assert_eq!(records, before);
        }
    }
}

#[test]
fn clock_without_an_offset_gives_the_error() {
    match auto_number::clock::reading(Err(time::error::IndeterminateOffset)) {
        Ok(_) => panic!("no moment was given"),
        Err(e) => assert_eq!(e, ClockError::IndeterminateOffset),
    }
}

#[test]
fn moment_from_the_clock_is_handed_on() {
    let t = auto_number::generator::Timestamp { year: 2025, month: 6, day: 1, hour: 14, minute: 30 };
    match auto_number::clock::reading(Ok(t)) {
        Ok(got) => {
            assert_eq!(got.year, 2025);
            assert_eq!(got.month, 6);
            assert_eq!(got.day, 1);
            assert_eq!(got.hour, 14);
            assert_eq!(got.minute, 30);
        }
        Err(_) => panic!("a moment was given"),
    }
}

#[test]
fn pass_at_a_given_moment_numbers_the_records() {
    let document = "id: \"\" A\nid: \"250601\" B\n";
    let mut records = vec![
        Record { identifier: "".to_string(), deck: "d".to_string(), is_empty: false },
        Record { identifier: "250601".to_string(), deck: "d".to_string(), is_empty: false },
    ];
    let t = auto_number::generator::Timestamp { year: 2025, month: 6, day: 1, hour: 14, minute: 30 };
    let text = auto_number::clock::number_at(document, &mut records, Ok(t));
    assert_eq!(text, Ok("id: \"2506011430\" A\nid: \"2506011431\" B\n".to_string()));
    assert_eq!(records[0].identifier, "2506011430");
    assert_eq!(records[1].identifier, "2506011431");
}

#[test]
fn pass_without_a_moment_changes_nothing() {
    let document = "id: \"\" A\nid: \"250601\" B\n";
    let mut records = vec![
        Record { identifier: "".to_string(), deck: "d".to_string(), is_empty: false },
        Record { identifier: "250601".to_string(), deck: "d".to_string(), is_empty: false },
    ];
    let before = records.clone();
    let r = auto_number::clock::number_at(
        document,
        &mut records,
        Err(ClockError::IndeterminateOffset),
    );
    assert_eq!(r, Err(ClockError::IndeterminateOffset));
    assert_eq!(records, before);
}
