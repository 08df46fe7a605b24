use streamrr::timestamps::format_timestamp;

#[test]
fn the_epoch() {
    assert_eq!(format_timestamp(0), Some("19700101T000000".to_string()));
}

#[test]
fn a_time_of_this_century() {
    assert_eq!(format_timestamp(1_700_000_000_000), Some("20231114T221320".to_string()));
    assert_eq!(format_timestamp(1_431_648_000_000), Some("20150515T000000".to_string()));
}

#[test]
fn milliseconds_are_cut_off() {
    assert_eq!(format_timestamp(1_700_000_000_999), Some("20231114T221320".to_string()));
    assert_eq!(format_timestamp(-1), Some("19691231T235959".to_string()));
}

#[test]
fn the_last_second_of_a_four_digit_year() {
    assert_eq!(format_timestamp(253_402_300_799_000), Some("99991231T235959".to_string()));
}

#[test]
fn a_time_that_the_calendar_cannot_hold() {
    assert_eq!(format_timestamp(i64::MAX), None);
    assert_eq!(format_timestamp(i64::MIN), None);
}

#[test]
fn the_first_and_the_last_time_of_the_calendar() {
    assert_eq!(
        format_timestamp(-8_334_601_228_800_000),
        Some("-2621430101T000000".to_string())
    );
    assert_eq!(format_timestamp(-8_334_601_228_800_001), None);
    assert_eq!(
        format_timestamp(8_210_266_876_799_999),
        Some("+2621421231T235959".to_string())
    );
    assert_eq!(format_timestamp(8_210_266_876_800_000), None);
}
