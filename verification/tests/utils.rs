use valvonta::utils::format_time;
use valvonta::utils::start_str_to_number;

#[test]
fn start_to_number() {
    assert_eq!(start_str_to_number("8:45"), 525);
}

#[test]
fn number_to_start() {
    assert_eq!(format_time(525), "8:45");
    assert_eq!(format_time(540), "9:00");
}

#[test]
fn round_trip_all_break_starts() {
    for start in [525u32, 585, 645, 660, 705, 720] {
        let text = format_time(start);
        assert_eq!(start_str_to_number(&text), start);
    }
}

#[test]
fn formats_each_break_start() {
    assert_eq!(format_time(585), "9:45");
    assert_eq!(format_time(645), "10:45");
    assert_eq!(format_time(660), "11:00");
    assert_eq!(format_time(705), "11:45");
    assert_eq!(format_time(720), "12:00");
}

#[test]
fn parses_double_digit_hours() {
    assert_eq!(start_str_to_number("11:45"), 705);
    assert_eq!(start_str_to_number("12:00"), 720);
}

#[test]
fn round_trip_at_the_largest_count() {
    let text = format_time(u32::MAX);
    assert_eq!(text, "71582788:15");
    assert_eq!(start_str_to_number(&text), u32::MAX);
}

#[test]
fn minutes_are_zero_padded() {
    assert_eq!(format_time(0), "0:00");
    assert_eq!(format_time(61), "1:01");
}
