use ytdlp_gui::num::{clock_string, hundredths_string, mb_hundredths, percent_hundredths, Decimal};
use ytdlp_gui::text::{u64_string, u64_string_pad2};

#[test]
fn percent_guards_zero_denominator() {
    assert_eq!(percent_hundredths(5, 0), None);
}

#[test]
fn percent_plain_values() {
    assert_eq!(percent_hundredths(50, 100), Some(5000));
    assert_eq!(percent_hundredths(1, 3), Some(3333));
    assert_eq!(percent_hundredths(0, 7), Some(0));
}

#[test]
fn percent_clamps_at_hundred() {
    assert_eq!(percent_hundredths(300, 100), Some(10000));
}

#[test]
fn clock_minutes_and_seconds() {
    assert_eq!(clock_string(12), "00:12");
    assert_eq!(clock_string(75), "01:15");
    assert_eq!(clock_string(0), "00:00");
    assert_eq!(clock_string(3600), "60:00");
    assert_eq!(clock_string(7265), "121:05");
}

#[test]
fn decimal_truncates_toward_zero() {
    // 12.3685 truncated is 12, not the rounded 13
    let d = Decimal::new(12, "3685");
    assert_eq!(d.trunc(), 12);
    assert_eq!(clock_string(d.trunc()), "00:12");
}

#[test]
fn mebibyte_hundredths() {
    assert_eq!(mb_hundredths(1048576), 100);
    assert_eq!(mb_hundredths(62444041), 5955);
    assert_eq!(mb_hundredths(0), 0);
}

#[test]
fn hundredths_formatting() {
    assert_eq!(hundredths_string(5955), "59.55");
    assert_eq!(hundredths_string(100), "1.00");
    assert_eq!(hundredths_string(7), "0.07");
}

#[test]
fn digit_strings() {
    assert_eq!(u64_string(0), "0");
    assert_eq!(u64_string(907), "907");
    assert_eq!(u64_string_pad2(7), "07");
    assert_eq!(u64_string_pad2(42), "42");
    assert_eq!(u64_string_pad2(123), "123");
}
