use bondpricer::calendar::{Date, MAX_EPOCH_DAY, MIN_EPOCH_DAY};

#[test]
fn ymd_day_numbers() {
    assert_eq!(Date::from_ymd(1970, 1, 1).unwrap().epoch_days(), 0);
    assert_eq!(Date::from_ymd(2020, 1, 1).unwrap().epoch_days(), 18262);
    assert_eq!(Date::from_ymd(1900, 1, 1).unwrap().epoch_days(), -25567);
}

#[test]
fn ymd_validity() {
    assert!(Date::from_ymd(2020, 2, 29).is_some());
    assert!(Date::from_ymd(2021, 2, 29).is_none());
    assert!(Date::from_ymd(1900, 2, 29).is_none());
    assert!(Date::from_ymd(2000, 2, 29).is_some());
    assert!(Date::from_ymd(2020, 13, 1).is_none());
    assert!(Date::from_ymd(2020, 4, 31).is_none());
    assert!(Date::from_ymd(2020, 1, 0).is_none());
    assert!(Date::from_ymd(262_143, 1, 1).is_none());
    assert!(Date::from_ymd(-262_144, 12, 31).is_none());
}

#[test]
fn calendar_bounds_match_chrono() {
    assert_eq!(Date::from_ymd(-262_143, 1, 1).unwrap().epoch_days(), MIN_EPOCH_DAY);
    assert_eq!(Date::from_ymd(262_142, 12, 31).unwrap().epoch_days(), MAX_EPOCH_DAY);
    assert!(Date::from_epoch_days(MIN_EPOCH_DAY - 1).is_none());
    assert!(Date::from_epoch_days(MAX_EPOCH_DAY + 1).is_none());
    let last = Date::from_epoch_days(MAX_EPOCH_DAY).unwrap();
    assert!(last.checked_add_days(1).is_none());
    assert_eq!(last.checked_add_days(0), Some(last));
    let first = Date::from_epoch_days(MIN_EPOCH_DAY).unwrap();
    assert!(first.checked_sub_days(1).is_none());
    assert!(first.checked_add_days(-1).is_none());
}

#[test]
fn day_arithmetic() {
    let d = Date::from_ymd(2015, 9, 5).unwrap();
    assert_eq!(d.checked_add_days(40), Date::from_ymd(2015, 10, 15));
    assert_eq!(d.checked_add_days(-40), Date::from_ymd(2015, 7, 27));
    assert_eq!(d.checked_sub_days(40), Date::from_ymd(2015, 7, 27));
    assert_eq!(d.checked_sub_days(-40), Date::from_ymd(2015, 10, 15));
    assert!(d.checked_add_days(1_000_000_000).is_none());
    let e = Date::from_ymd(2014, 1, 1).unwrap();
    assert_eq!(e.days_since(&Date::from_ymd(2010, 1, 1).unwrap()), 365 * 4 + 1);
    assert_eq!(Date::from_ymd(2010, 1, 1).unwrap().days_since(&e), -(365 * 4 + 1));
    assert!(Date::from_ymd(2010, 1, 1).unwrap().before(&e));
    assert!(!e.before(&e));
    assert!(e.on_or_before(&e));
}
