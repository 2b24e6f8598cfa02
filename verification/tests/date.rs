use mensa_menu::date::{scan_date, Date, DayOfWeek};

#[test]
fn scans_embedded_date() {
    let d = scan_date("Speiseplan vom 13.10.2025");
    assert_eq!(d, Date::new(2025, 10, 13));
    assert!(d.is_some());
}

#[test]
fn scans_first_date_only() {
    let d = scan_date("01.02.2003 und 04.05.2006");
    assert_eq!(d, Date::new(2003, 2, 1));
}

#[test]
fn rejects_invalid_calendar_day() {
    assert_eq!(scan_date("Speiseplan vom 31.02.2024"), None);
    assert_eq!(scan_date("kein Datum hier"), None);
    assert_eq!(scan_date(""), None);
}

#[test]
fn leap_year_validity() {
    assert!(Date::new(2024, 2, 29).is_some());
    assert!(Date::new(2023, 2, 29).is_none());
    assert!(Date::new(1900, 2, 29).is_none());
    assert!(Date::new(2000, 2, 29).is_some());
    assert!(Date::new(2024, 4, 31).is_none());
}

#[test]
fn relative_day_offsets() {
    assert_eq!(DayOfWeek::Today.days_ahead(3), 0);
    assert_eq!(DayOfWeek::Tomorrow.days_ahead(6), 1);
    // Friday seen from a Friday is today, not next week.
    assert_eq!(DayOfWeek::Friday.days_ahead(4), 0);
    // Monday seen from a Wednesday is five days ahead.
    assert_eq!(DayOfWeek::Monday.days_ahead(2), 5);
}

#[test]
fn date_addition_crosses_month() {
    let d = Date::new(2024, 2, 28).unwrap();
    assert_eq!(d.add_days(2), Date::new(2024, 3, 1).unwrap());
    let e = Date::new(2025, 12, 30).unwrap();
    assert_eq!(e.add_days(3), Date::new(2026, 1, 2).unwrap());
}
