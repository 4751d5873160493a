use time_tracker::clock::{format_day, format_stamp, now_stamp, today_key};
use time_tracker::duration::{add_durations, format_fields, format_seconds, read_hms};

#[test]
fn add_carries_seconds() {
    assert_eq!(add_durations("00:00:45", "00:00:30"), "00:01:15");
}

#[test]
fn add_carries_into_hours() {
    assert_eq!(add_durations("00:59:59", "00:00:01"), "01:00:00");
}

#[test]
fn add_has_no_hour_wraparound() {
    assert_eq!(add_durations("23:59:59", "00:00:01"), "24:00:00");
    assert_eq!(add_durations("59:00:00", "01:00:00"), "60:00:00");
}

#[test]
fn add_widens_hours_past_two_digits() {
    assert_eq!(add_durations("99:59:59", "00:00:01"), "100:00:00");
}

#[test]
fn add_is_commutative_on_examples() {
    assert_eq!(add_durations("01:20:50", "02:45:30"), add_durations("02:45:30", "01:20:50"));
    assert_eq!(add_durations("01:20:50", "02:45:30"), "04:06:20");
}

#[test]
fn add_is_associative_on_examples() {
    let a = "00:40:50";
    let b = "03:30:30";
    let c = "00:49:45";
    let left = add_durations(&add_durations(a, b), c);
    let right = add_durations(a, &add_durations(b, c));
    assert_eq!(left, right);
    assert_eq!(left, "05:01:05");
}

#[test]
fn add_zero_normalizes() {
    assert_eq!(add_durations("01:02:03", "00:00:00"), "01:02:03");
    assert_eq!(add_durations("1:2:3", "00:00:00"), "01:02:03");
    assert_eq!(add_durations("00:00:75", "00:00:00"), "00:01:15");
}

#[test]
fn malformed_fields_read_as_zero() {
    assert_eq!(add_durations("ab:00:10", "00:00:05"), "00:00:15");
    assert_eq!(add_durations("01:-5:10", "00:00:05"), "01:00:15");
    assert_eq!(add_durations("", ""), "00:00:00");
    assert_eq!(add_durations("99999999999999999999:00:00", "00:00:01"), "00:00:01");
}

#[test]
fn short_texts_read_from_the_right() {
    assert_eq!(read_hms("05"), (0, 0, 5));
    assert_eq!(read_hms("07:05"), (0, 7, 5));
    assert_eq!(read_hms("1:2:3:4"), (2, 3, 4));
}

#[test]
fn seconds_format_exactly() {
    assert_eq!(format_seconds(0), "00:00:00");
    assert_eq!(format_seconds(3), "00:00:03");
    assert_eq!(format_seconds(3725), "01:02:05");
    assert_eq!(format_seconds(360000), "100:00:00");
    assert_eq!(format_fields(7, 8, 9), "07:08:09");
}

#[test]
fn day_keys_format_exactly() {
    assert_eq!(format_day(2026, 10, 18), "10/18/26");
    assert_eq!(format_day(2001, 1, 2), "01/02/01");
    assert_eq!(format_day(-1, 12, 31), "12/31/99");
    assert_eq!(format_stamp(2024, 3, 7, 9, 5, 0), "03/07/24 09:05:00");
}

#[test]
fn local_clock_texts_have_their_shape() {
    let d = today_key();
    let b: Vec<char> = d.chars().collect();
    assert_eq!(b.len(), 8);
    assert_eq!(b[2], '/');
    assert_eq!(b[5], '/');
    let s = now_stamp();
    let c: Vec<char> = s.chars().collect();
    assert_eq!(c.len(), 17);
    assert_eq!(c[8], ' ');
    assert_eq!(c[11], ':');
}
