use bondpricer::calendar::Date;
use bondpricer::rates::{InterpolationType, RateLookup, YieldCurve, YieldCurveFactory};

fn ymd(year: i32, month: u32, day: u32) -> Date {
    Date::from_ymd(year, month, day).unwrap()
}

fn curve() -> YieldCurve {
    YieldCurve::new(vec![ymd(2020, 3, 1), ymd(2020, 6, 1), ymd(2020, 12, 1)])
}

#[test]
fn lookup_between_pillars() {
    let c = curve();
    assert_eq!(c.interp_type(), InterpolationType::LinearDiscountFactor);
    assert_eq!(
        c.rate_lookup(ymd(2020, 9, 1)),
        RateLookup::Interpolate { lower: Some(1), upper: Some(2), start: Some(ymd(2020, 3, 1)) }
    );
}

#[test]
fn lookup_on_a_pillar() {
    let c = curve();
    assert_eq!(
        c.rate_lookup(ymd(2020, 6, 1)),
        RateLookup::Interpolate { lower: Some(1), upper: Some(1), start: Some(ymd(2020, 3, 1)) }
    );
}

#[test]
fn lookup_outside_pillars() {
    let c = curve();
    assert_eq!(
        c.rate_lookup(ymd(2019, 1, 1)),
        RateLookup::Interpolate { lower: None, upper: Some(0), start: Some(ymd(2020, 3, 1)) }
    );
    assert_eq!(
        c.rate_lookup(ymd(2021, 1, 1)),
        RateLookup::Interpolate { lower: Some(2), upper: None, start: Some(ymd(2020, 3, 1)) }
    );
    let empty = YieldCurve::new(Vec::new());
    assert_eq!(
        empty.rate_lookup(ymd(2021, 1, 1)),
        RateLookup::Interpolate { lower: None, upper: None, start: None }
    );
}

#[test]
fn standard_pillars() {
    let tenors = YieldCurveFactory::standard_tenor_days();
    assert_eq!(tenors, vec![0, 1, 30, 90, 180, 270, 365, 730, 1095, 1460, 2190, 2920, 3650]);
    let today = ymd(2021, 2, 1);
    let c = YieldCurveFactory::standard_curve(today);
    assert_eq!(c.len(), 13);
    assert_eq!(c.pillar_date(0), today);
    assert_eq!(c.pillar_date(6), ymd(2022, 2, 1));
    assert_eq!(c.pillar_date(12), today.checked_add_days(3650).unwrap());
    let one_year = today.checked_add_days(365).unwrap();
    assert_eq!(
        c.rate_lookup(one_year),
        RateLookup::Interpolate { lower: Some(6), upper: Some(6), start: Some(today) }
    );
    assert_eq!(
        c.rate_lookup(today),
        RateLookup::Interpolate { lower: Some(0), upper: Some(0), start: Some(today) }
    );
}

#[test]
fn pillar_dates_from_tenors() {
    let today = ymd(2021, 2, 1);
    let dates = YieldCurveFactory::pillar_dates(today, &vec![1, 30, 365]);
    assert_eq!(dates, vec![ymd(2021, 2, 2), ymd(2021, 3, 3), ymd(2022, 2, 1)]);
}
