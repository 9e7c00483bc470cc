use sem::date::{chrono_lite_format, is_leap};

#[test]
fn formats_epoch_and_known_days() {
    assert_eq!(chrono_lite_format(0), "1970-01-01");
    assert_eq!(chrono_lite_format(86399), "1970-01-01");
    assert_eq!(chrono_lite_format(86400), "1970-01-02");
    assert_eq!(chrono_lite_format(946684800), "2000-01-01");
    assert_eq!(chrono_lite_format(951782400), "2000-02-29");
    assert_eq!(chrono_lite_format(1700000000), "2023-11-14");
    assert_eq!(chrono_lite_format(4102444800), "2100-01-01");
}

#[test]
fn formats_times_before_the_epoch_day_by_day() {
    assert_eq!(chrono_lite_format(-1), "1970-01-01");
    assert_eq!(chrono_lite_format(-86400), "1970-01-00");
    assert_eq!(chrono_lite_format(-86400 * 20), "1970-01--19");
}

#[test]
fn leap_years_follow_the_gregorian_rule() {
    assert!(is_leap(2000));
    assert!(is_leap(2024));
    assert!(!is_leap(1900));
    assert!(!is_leap(2023));
    assert!(is_leap(0));
    assert!(is_leap(-4));
}
