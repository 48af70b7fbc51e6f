use bondpricer::calendar::Date;
use bondpricer::dates::{calc_payment_dates, days_accrued, offset_date_or_keep, payment_dates_fit, settle_date_from_days};

fn ymd(year: i32, month: u32, day: u32) -> Date {
    Date::from_ymd(year, month, day).unwrap()
}

#[test]
fn it_works() {
    assert_eq!(2 + 2, 4);
}

#[test]
fn date_vec_flows() {
    let val_dt = ymd(2021, 3, 1);
    let last_cpn_dt = ymd(2020, 2, 1);
    let mat_dt = ymd(2024, 2, 1);
    let freq = 1;

    let res = calc_payment_dates(val_dt, Some(last_cpn_dt), mat_dt, freq);
    println!("Res is {:?}", res);
}

#[test]
fn date_accrued_days_broken_dates() {
    let val_dt = ymd(2021, 3, 1);
    let last_cpn_dt = ymd(2022, 2, 1);
    let mat_dt = ymd(2024, 2, 1);
    let freq = 1;
    let pay_dates = calc_payment_dates(val_dt, Some(last_cpn_dt), mat_dt, freq);
    let res = days_accrued(val_dt, &pay_dates);

    assert_eq!(0, res);

    let val_dt = ymd(2022, 3, 1);
    let res = days_accrued(val_dt, &pay_dates);

    assert_eq!(28, res);
}

#[test]
fn date_from_1st_jan_2020() {
    let val_dt = ymd(2020, 1, 1);
    let settle_dt = ymd(2020, 1, 4);
    let res = settle_date_from_days(val_dt, 3);
    assert_eq!(Some(settle_dt), res);

    let calc_settle_dt = res.unwrap();
    assert!(calc_settle_dt > val_dt);
}

#[test]
fn payment_dates_from_last_coupon() {
    let res = calc_payment_dates(ymd(2021, 3, 1), Some(ymd(2020, 2, 1)), ymd(2024, 2, 1), 1);
    let expected = vec![
        ymd(2020, 2, 1),
        ymd(2021, 1, 31),
        ymd(2022, 1, 31),
        ymd(2023, 1, 31),
        ymd(2024, 1, 31),
    ];
    assert_eq!(expected, res);
}

#[test]
fn payment_dates_without_coupon_skip_valuation_date() {
    let val = ymd(2021, 1, 1);
    let res = calc_payment_dates(val, None, ymd(2022, 1, 1), 2);
    let expected = vec![
        val.checked_add_days(180).unwrap(),
        val.checked_add_days(360).unwrap(),
    ];
    assert_eq!(expected, res);
}

#[test]
fn payment_dates_quarterly_and_other_frequencies() {
    let start = ymd(2021, 1, 1);
    let mat = start.checked_add_days(270).unwrap();
    let q = calc_payment_dates(start, Some(start), mat, 4);
    assert_eq!(q.len(), 4);
    assert_eq!(q[3], mat);
    let other = calc_payment_dates(start, Some(start), start.checked_add_days(730).unwrap(), 7);
    assert_eq!(other.len(), 3);
    assert_eq!(other[1].days_since(&other[0]), 365);
}

#[test]
fn payment_dates_empty_after_maturity() {
    let res = calc_payment_dates(ymd(2025, 1, 1), None, ymd(2024, 1, 1), 1);
    assert!(res.is_empty());
    let res = calc_payment_dates(ymd(2023, 6, 1), None, ymd(2024, 1, 1), 1);
    assert!(res.is_empty());
}

#[test]
fn payment_dates_fit_near_end_of_calendar() {
    let last = Date::from_epoch_days(bondpricer::calendar::MAX_EPOCH_DAY).unwrap();
    let early = last.checked_sub_days(300).unwrap();
    assert!(!payment_dates_fit(early, None, early, 1));
    assert!(payment_dates_fit(early, None, early, 2));
    assert!(payment_dates_fit(ymd(2020, 1, 1), None, ymd(2030, 1, 1), 1));
    let res = calc_payment_dates(early, None, early, 2);
    assert!(res.is_empty());
}

#[test]
fn accrued_days_stay_within_a_period() {
    let start = ymd(2020, 1, 1);
    let mat = ymd(2025, 1, 1);
    let dates = calc_payment_dates(start, Some(start), mat, 2);
    let mut day = start.checked_add_days(1).unwrap();
    while day.on_or_before(&mat) {
        let a = days_accrued(day, &dates);
        assert!(a > 0 && a <= 180);
        day = day.checked_add_days(17).unwrap();
    }
    assert_eq!(days_accrued(start, &dates), 0);
    assert_eq!(days_accrued(ymd(2019, 6, 1), &dates), 0);
    assert_eq!(days_accrued(ymd(2020, 1, 2), &Vec::new()), 0);
}

#[test]
fn settle_round_trip_and_direction() {
    let val = ymd(2020, 1, 1);
    let later = settle_date_from_days(val, 45).unwrap();
    assert!(later > val);
    assert_eq!(settle_date_from_days(later, -45), Some(val));
    assert_eq!(settle_date_from_days(val, 0), Some(val));
    assert_eq!(settle_date_from_days(val, -1), Some(ymd(2019, 12, 31)));
    assert_eq!(settle_date_from_days(val, 100_000_000), None);
}

#[test]
fn offset_keeps_date_beyond_calendar() {
    let val = ymd(2021, 2, 1);
    assert_eq!(offset_date_or_keep(val, 365), ymd(2022, 2, 1));
    assert_eq!(offset_date_or_keep(val, 1_000_000_000), val);
    assert_eq!(offset_date_or_keep(val, -1_000_000_000), val);
}
