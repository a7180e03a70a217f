use mps_orders::timestamp::Timestamp;
use mps_orders::timestamp::current_timestamp;
use mps_orders::timestamp::days_in_month;

fn ts(year: u32, month: u32, day: u32, hour: u32, minute: u32, second: u32) -> Timestamp {
    Timestamp { year, month, day, hour, minute, second }
}

#[test]
fn format_is_fixed_offset_and_millis() {
    let t = ts(2024, 1, 2, 3, 4, 5);
    assert_eq!(t.format(), "2024-01-02T03:04:05.000-04:00");
}

#[test]
fn format_pads_every_field() {
    let t = ts(987, 12, 31, 23, 59, 58);
    assert_eq!(t.format(), "0987-12-31T23:59:58.000-04:00");
}

#[test]
fn plus_one_hour_plain() {
    let t = ts(2024, 6, 15, 10, 30, 0).plus_one_hour();
    assert_eq!(t, ts(2024, 6, 15, 11, 30, 0));
}

#[test]
fn plus_one_hour_rolls_day() {
    let t = ts(2024, 6, 15, 23, 59, 59).plus_one_hour();
    assert_eq!(t, ts(2024, 6, 16, 0, 59, 59));
}

#[test]
fn plus_one_hour_rolls_month() {
    let t = ts(2024, 4, 30, 23, 0, 0).plus_one_hour();
    assert_eq!(t, ts(2024, 5, 1, 0, 0, 0));
}

#[test]
fn plus_one_hour_rolls_year() {
    let t = ts(2023, 12, 31, 23, 5, 6).plus_one_hour();
    assert_eq!(t, ts(2024, 1, 1, 0, 5, 6));
}

#[test]
fn plus_one_hour_respects_leap_years() {
    let leap = ts(2024, 2, 28, 23, 0, 0).plus_one_hour();
    assert_eq!(leap, ts(2024, 2, 29, 0, 0, 0));
    let common = ts(2023, 2, 28, 23, 0, 0).plus_one_hour();
    assert_eq!(common, ts(2023, 3, 1, 0, 0, 0));
    let century = ts(1900, 2, 28, 23, 0, 0).plus_one_hour();
    assert_eq!(century, ts(1900, 3, 1, 0, 0, 0));
    let quadricentennial = ts(2000, 2, 28, 23, 0, 0).plus_one_hour();
    assert_eq!(quadricentennial, ts(2000, 2, 29, 0, 0, 0));
}

#[test]
fn month_lengths() {
    assert_eq!(days_in_month(2023, 1), 31);
    assert_eq!(days_in_month(2023, 2), 28);
    assert_eq!(days_in_month(2024, 2), 29);
    assert_eq!(days_in_month(2023, 4), 30);
    assert_eq!(days_in_month(2023, 12), 31);
}

#[test]
fn clock_yields_a_well_formed_instant() {
    let t = current_timestamp().expect("system clock in range");
    assert!(1 <= t.month && t.month <= 12);
    assert!(1 <= t.day && t.day <= days_in_month(t.year, t.month));
    assert!(t.hour < 24 && t.minute < 60 && t.second < 60);
}
