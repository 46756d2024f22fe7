use eastmoney::date::{civil_from_days, date_str_at, date_str_from_secs, fmt_hms, today_str};

#[test]
fn civil_dates_from_day_numbers() {
    assert_eq!(civil_from_days(0), (1970, 1, 1));
    assert_eq!(civil_from_days(1), (1970, 1, 2));
    assert_eq!(civil_from_days(-1), (1969, 12, 31));
    assert_eq!(civil_from_days(59), (1970, 3, 1));
    assert_eq!(civil_from_days(11016), (2000, 2, 29));
    assert_eq!(civil_from_days(19782), (2024, 2, 29));
    assert_eq!(civil_from_days(19783), (2024, 3, 1));
    assert_eq!(civil_from_days(-719468), (0, 3, 1));
    assert_eq!(civil_from_days(2932896), (9999, 12, 31));
}

#[test]
fn consecutive_day_numbers_are_consecutive_dates() {
    let mut prev = civil_from_days(-800);
    for z in -799..800 {
        let d = civil_from_days(z);
        let expected_next = if prev.2 < days_in(prev.0, prev.1) {
            (prev.0, prev.1, prev.2 + 1)
        } else if prev.1 < 12 {
            (prev.0, prev.1 + 1, 1)
        } else {
            (prev.0 + 1, 1, 1)
        };
        assert_eq!(d, expected_next, "day {}", z);
        prev = d;
    }
}

fn days_in(y: i64, m: u32) -> u32 {
    let leap = (y % 4 == 0 && y % 100 != 0) || y % 400 == 0;
    match m {
        2 => if leap { 29 } else { 28 },
        4 | 6 | 9 | 11 => 30,
        _ => 31,
    }
}

#[test]
fn beijing_date_strings() {
    assert_eq!(date_str_at(0, 0), "19700101");
    assert_eq!(date_str_at(1709164800, 0), "20240229");
    assert_eq!(date_str_at(1709164800, 1), "20240228");
    assert_eq!(date_str_at(1709164800, -1), "20240301");
    // 16:00 UTC is midnight in Beijing
    assert_eq!(date_str_at(1709136000, 0), "20240229");
    assert_eq!(date_str_at(1709135999, 0), "20240228");
    assert_eq!(date_str_at(0, 1), "19691231");
}

#[test]
fn today_is_an_eight_digit_date() {
    let t = today_str(0).unwrap();
    assert_eq!(t.len(), 8);
    assert!(t.chars().all(|c| c.is_ascii_digit()));
    let y = today_str(1).unwrap();
    assert!(y < t);
}

#[test]
fn hms_from_integer_times() {
    assert_eq!(fmt_hms(93015), "09:30:15");
    assert_eq!(fmt_hms(150000), "15:00:00");
    assert_eq!(fmt_hms(0), "00:00:00");
    assert_eq!(fmt_hms(1234567), "12:34:56");
    assert_eq!(fmt_hms(-5), "-0:00:05");
}

#[test]
fn dates_from_seconds_within_range() {
    assert_eq!(date_str_from_secs(1709164800, 0).as_deref(), Some("20240229"));
    assert_eq!(date_str_from_secs(1709164800, 11).as_deref(), Some("20240218"));
    assert_eq!(date_str_from_secs(0, 0).as_deref(), Some("19700101"));
    assert_eq!(date_str_from_secs(u64::MAX, 0), None);
    assert_eq!(date_str_from_secs((i64::MAX - 8 * 3600) as u64 + 1, 0), None);
    assert_eq!(date_str_from_secs(0, i64::MIN), None);
    assert_eq!(date_str_from_secs(0, -(i64::MAX - 719468)).is_some(), true);
    assert_eq!(date_str_from_secs(0, -(i64::MAX - 719467)), None);
}
