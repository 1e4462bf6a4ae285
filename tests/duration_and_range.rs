use rustsnippetsutils::duration::generate_duration;
use rustsnippetsutils::timerange::{special_time_diff, TimeRangeError};

#[test]
fn duration_hours() {
    assert_eq!(generate_duration("3"), "3:00:00");
    assert_eq!(generate_duration("1"), "1:00:00");
    assert_eq!(generate_duration("4"), "4:00:00");
}

#[test]
fn duration_minutes() {
    assert_eq!(generate_duration("45"), "45:00");
    assert_eq!(generate_duration("8"), "8:00");
    assert_eq!(generate_duration("59"), "59:00");
}

#[test]
fn duration_packed() {
    assert_eq!(generate_duration("930"), "9:30:00");
    assert_eq!(generate_duration("101"), "1:01:00");
    assert_eq!(generate_duration("65535"), "655:35:00");
    assert_eq!(generate_duration("+930"), "9:30:00");
    assert_eq!(generate_duration("0930"), "9:30:00");
}

#[test]
fn duration_dead_zones_are_unknown() {
    assert_eq!(generate_duration("6"), "UNKNOWN");
    assert_eq!(generate_duration("5"), "UNKNOWN");
    assert_eq!(generate_duration("7"), "UNKNOWN");
    assert_eq!(generate_duration("0"), "UNKNOWN");
    assert_eq!(generate_duration("60"), "UNKNOWN");
    assert_eq!(generate_duration("100"), "UNKNOWN");
}

#[test]
fn duration_not_a_number_is_unknown() {
    assert_eq!(generate_duration("abc"), "UNKNOWN");
    assert_eq!(generate_duration(""), "UNKNOWN");
    assert_eq!(generate_duration("+"), "UNKNOWN");
    assert_eq!(generate_duration("-3"), "UNKNOWN");
    assert_eq!(generate_duration(" 3"), "UNKNOWN");
    assert_eq!(generate_duration("65536"), "UNKNOWN");
}

#[test]
fn range_same_day() {
    assert_eq!(special_time_diff("900 1730"), Ok("9:00-17:30=8:30".to_string()));
}

#[test]
fn range_past_midnight() {
    assert_eq!(special_time_diff("2300 100"), Ok("23:00-1:00=2:00".to_string()));
}

#[test]
fn range_equal_ends_is_full_day() {
    assert_eq!(special_time_diff("1200 1200"), Ok("12:00-12:00=24:00".to_string()));
}

#[test]
fn range_surrounding_white_space_is_cut() {
    assert_eq!(special_time_diff("  905 910\n"), Ok("9:05-9:10=0:05".to_string()));
}

#[test]
fn range_minutes_of_sixty_are_refused() {
    assert_eq!(special_time_diff("960 1000"), Err(TimeRangeError::InvalidTimeToken));
    assert_eq!(special_time_diff("900 1075"), Err(TimeRangeError::InvalidTimeToken));
    assert_eq!(special_time_diff("959 1059"), Ok("9:59-10:59=1:00".to_string()));
}

#[test]
fn range_token_count() {
    assert_eq!(special_time_diff("900"), Err(TimeRangeError::TokenCount));
    assert_eq!(special_time_diff(""), Err(TimeRangeError::TokenCount));
    assert_eq!(special_time_diff("900 1000 1100"), Err(TimeRangeError::TokenCount));
}

#[test]
fn range_any_white_space_separates() {
    assert_eq!(special_time_diff("900  1730"), Ok("9:00-17:30=8:30".to_string()));
    assert_eq!(special_time_diff("900\t1730"), Ok("9:00-17:30=8:30".to_string()));
}

#[test]
fn range_invalid_number() {
    assert_eq!(special_time_diff("9h00 1000"), Err(TimeRangeError::InvalidNumber));
    assert_eq!(special_time_diff("900 x"), Err(TimeRangeError::InvalidNumber));
}

#[test]
fn range_overflow() {
    assert_eq!(special_time_diff("2500 100"), Err(TimeRangeError::Overflow));
    assert_eq!(special_time_diff("2400 2500"), Ok("24:00-25:00=1:00".to_string()));
}
