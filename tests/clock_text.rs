use work_timer::clock_text::{get_time_units, get_timer_string, TimeUnits};

#[test]
fn time_units_split_seconds() {
    assert_eq!(get_time_units(3725), TimeUnits { h: 1, m: 2, s: 5 });
    assert_eq!(get_time_units(0), TimeUnits { h: 0, m: 0, s: 0 });
    assert_eq!(get_time_units(359_999), TimeUnits { h: 99, m: 59, s: 59 });
}

#[test]
fn timer_string_is_zero_padded() {
    assert_eq!(get_timer_string(0), "00:00:00");
    assert_eq!(get_timer_string(3661), "01:01:01");
    assert_eq!(get_timer_string(45_296), "12:34:56");
}

#[test]
fn timer_string_hours_grow_past_two_digits() {
    assert_eq!(get_timer_string(360_000), "100:00:00");
    assert_eq!(get_timer_string(u64::MAX), "5124095576030431:00:15");
}
