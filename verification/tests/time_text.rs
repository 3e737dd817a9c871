use rustamp::time::Duration;
use rustamp::ui::widgets::{format_khz, format_time};

#[test]
fn format_time_minutes_and_hours() {
    assert_eq!(format_time(Duration::from_secs(0)), "0:00");
    assert_eq!(format_time(Duration::from_secs(225)), "3:45");
    assert_eq!(format_time(Duration::new(59, 999_999_999)), "0:59");
    assert_eq!(format_time(Duration::from_secs(3599)), "59:59");
    assert_eq!(format_time(Duration::from_secs(3600)), "1:00:00");
    assert_eq!(format_time(Duration::from_secs(37_509)), "10:25:09");
}

#[test]
fn format_khz_rounds_like_two_decimal_float_formatting() {
    assert_eq!(format_khz(22_125), "22.12kHz"); // exact tie, rounds to even
    assert_eq!(format_khz(375), "0.38kHz"); // exact tie, rounds to even
    assert_eq!(format_khz(22_055), "22.05kHz"); // nearest f64 lies below
    assert_eq!(format_khz(11_025), "11.03kHz");
    assert_eq!(format_khz(44_999), "45kHz");
    assert_eq!(format_khz(1), "0kHz");
    assert_eq!(format_khz(5), "0.01kHz");
    assert_eq!(format_khz(88_200), "88.2kHz");
    assert_eq!(format_khz(192_000), "192kHz");
}
