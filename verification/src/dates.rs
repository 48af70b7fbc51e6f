//! Coupon schedules, accrued days and settlement dates.

use crate::calendar::{in_calendar, valid_delta, Date, MAX_EPOCH_DAY};
use vstd::arithmetic::div_mod::{lemma_basic_div_specific_divisor, lemma_div_minus_one};
use vstd::prelude::*;

verus! {

/// Length in days of one coupon period for a payment frequency per year:
/// 180 days for semi-annual, 90 for quarterly, a year of 365 days otherwise.
pub open spec fn period_days(frequency: u32) -> int {
    if frequency == 2 {
        180
    } else if frequency == 4 {
        90
    } else {
        365
    }
}

/// Period starts from `start`, one `step` apart, that do not fall after `maturity`.
pub open spec fn periods(start: int, maturity: int, step: int) -> Seq<int>
    decreases maturity - start + step when step > 0
{
    if start > maturity {
        Seq::empty()
    } else {
        seq![start] + periods(start + step, maturity, step)
    }
}

/// The first period start after `maturity` when stepping from `start`.
pub open spec fn schedule_end(start: int, maturity: int, step: int) -> int
    decreases maturity - start + step when step > 0
{
    if start > maturity {
        start
    } else {
        schedule_end(start + step, maturity, step)
    }
}

/// The day number of a date, as an optional value.
pub open spec fn day_of(date: Option<Date>) -> Option<int> {
    match date {
        Some(d) => Some(d@),
        None => None,
    }
}

/// The day numbers of a list of dates.
pub open spec fn days_of(dates: Seq<Date>) -> Seq<int> {
    dates.map_values(|d: Date| d@)
}

/// Where the schedule starts stepping: the last coupon date, or the valuation
/// date when no coupon has been paid yet.
pub open spec fn schedule_start(valuation: int, last_coupon: Option<int>) -> int {
    match last_coupon {
        Some(c) => c,
        None => valuation,
    }
}

/// The payment dates of a bond: from the last coupon date on (included), or from
/// one period after the valuation date when no coupon was paid yet, one period
/// apart, up to and including the maturity date.
pub open spec fn payment_schedule(
    valuation: int,
    last_coupon: Option<int>,
    maturity: int,
    frequency: u32,
) -> Seq<int> {
    let step = period_days(frequency);
    match last_coupon {
        Some(c) => periods(c, maturity, step),
        None => periods(valuation + step, maturity, step),
    }
}

/// Every date that building the schedule steps through, up to the first one after
/// maturity, exists in chrono's calendar.
pub open spec fn schedule_fits(
    valuation: int,
    last_coupon: Option<int>,
    maturity: int,
    frequency: u32,
) -> bool {
    schedule_end(schedule_start(valuation, last_coupon), maturity, period_days(frequency))
        <= MAX_EPOCH_DAY
}

/// The last schedule date strictly before the valuation date, if any.
pub open spec fn accrual_start(valuation: int, schedule: Seq<int>) -> Option<int>
    decreases schedule.len(),
{
    if schedule.len() == 0 {
        None
    } else if schedule.last() < valuation {
        Some(schedule.last())
    } else {
        accrual_start(valuation, schedule.drop_last())
    }
}

/// Days from the last schedule date before the valuation date to the valuation
/// date; zero when no schedule date lies before it.
pub open spec fn accrued_days(valuation: int, schedule: Seq<int>) -> int {
    match accrual_start(valuation, schedule) {
        Some(s) => valuation - s,
        None => 0,
    }
}

/// The day `delta` days after `day`, if it lies in chrono's calendar.
pub open spec fn shifted_day(day: int, delta: int) -> Option<int> {
    if in_calendar(day + delta) {
        Some(day + delta)
    } else {
        None
    }
}

proof fn lemma_schedule_end_after(start: int, maturity: int, step: int)
    requires
        step > 0,
    ensures
        start <= schedule_end(start, maturity, step),
        maturity < schedule_end(start, maturity, step),
    decreases maturity - start + step,
{
    if start <= maturity {
        lemma_schedule_end_after(start + step, maturity, step);
    }
}

fn period_for_frequency(frequency: u32) -> (r: i64)
    ensures
        r == period_days(frequency),
{
    match frequency {
        1 => 365,
        2 => 180,
        4 => 90,
        _ => 365,
    }
}


/// Whether `calc_payment_dates` can build the schedule for these inputs: every
/// period start it steps through, up to the first one after maturity, must be
/// a date chrono can represent.
pub fn payment_dates_fit(
    valuation_date: Date,
    last_coupon_date: Option<Date>,
    maturity_date: Date,
    frequency: u32,
) -> (r: bool)
    ensures
        r == schedule_fits(valuation_date@, day_of(last_coupon_date), maturity_date@, frequency),
        r == ({
            let start = match last_coupon_date {
                Some(c) => c@,
                None => valuation_date@,
            };
            let step = period_days(frequency);
            start > maturity_date@ || start + ((maturity_date@ - start) / step + 1) * step
                <= MAX_EPOCH_DAY
        }),
{
    let start = match last_coupon_date {
        Some(dt) => dt,
        None => valuation_date,
    };
    let step = period_for_frequency(frequency);
    let maturity = maturity_date.epoch_days() as i64;
    let mut period = start.epoch_days() as i64;
    let ghost first = period as int;
    while period <= maturity
        invariant
            step == period_days(frequency),
            in_calendar(maturity as int),
            -200_000_000 <= period <= 200_000_000,
            first == schedule_start(valuation_date@, day_of(last_coupon_date)),
            schedule_end(period as int, maturity as int, step as int) == schedule_end(
                first,
                maturity as int,
                step as int,
            ),
        decreases maturity - period + step,
    {
        period = period + step;
    }
    proof {
        lemma_schedule_fits_exactly(
            valuation_date@,
            day_of(last_coupon_date),
            maturity_date@,
            frequency,
        );
    }
    period <= MAX_EPOCH_DAY as i64
}

/// The coupon payment dates of a bond, in order.
///
/// Starting from the last coupon date (included), or, when no coupon has been
/// paid yet, from the valuation date (excluded), dates are taken one coupon
/// period apart up to and including the maturity date. The period is 180 days
/// for a frequency of 2, 90 days for 4, and 365 days for 1 or any other value.
pub fn calc_payment_dates(
    valuation_date: Date,
    last_coupon_date: Option<Date>,
    maturity_date: Date,
    frequency: u32,
) -> (dates: Vec<Date>)
    requires
        schedule_fits(valuation_date@, day_of(last_coupon_date), maturity_date@, frequency),
    ensures
        days_of(dates@) == payment_schedule(
            valuation_date@,
            day_of(last_coupon_date),
            maturity_date@,
            frequency,
        ),
        ({
            let p = if frequency == 2 {
                180
            } else if frequency == 4 {
                90
            } else {
                365int
            };
            let first = match last_coupon_date {
                Some(c) => c@,
                None => valuation_date@ + p,
            };
            &&& dates@.len() > 0 <==> first <= maturity_date@
            &&& dates@.len() > 0 ==> dates@[0]@ == first
            &&& forall|i: int|
                0 <= i < dates@.len() - 1 ==> #[trigger] dates@[i + 1]@ == dates@[i]@ + p
            &&& forall|i: int| 0 <= i < dates@.len() ==> #[trigger] dates@[i]@ <= maturity_date@
            &&& dates@.len() > 0 ==> dates@[dates@.len() - 1]@ + p > maturity_date@
        }),
{
    let mut dates: Vec<Date> = Vec::new();
    let (mut period_dt, mut ignore_init_dt): (Date, bool) = match last_coupon_date {
        Some(dt) => (dt, false),
        None => (valuation_date, true),
    };
    let dur = period_for_frequency(frequency);
    let ghost start = period_dt@;
    let ghost m = maturity_date@;
    let ghost target = payment_schedule(
        valuation_date@,
        day_of(last_coupon_date),
        maturity_date@,
        frequency,
    );
    while period_dt.on_or_before(&maturity_date)
        invariant
            dur == period_days(frequency),
            m == maturity_date@,
            start == schedule_start(valuation_date@, day_of(last_coupon_date)),
            schedule_end(start, m, dur as int) <= MAX_EPOCH_DAY,
            schedule_end(period_dt@, m, dur as int) == schedule_end(start, m, dur as int),
            target == payment_schedule(
                valuation_date@,
                day_of(last_coupon_date),
                maturity_date@,
                frequency,
            ),
            ignore_init_dt ==> period_dt@ == start && dates@.len() == 0
                && last_coupon_date is None,
            !ignore_init_dt ==> days_of(dates@) + periods(period_dt@, m, dur as int) == target,
        decreases m - period_dt@ + dur,
    {
        let ghost p = period_dt@;
        proof {
            lemma_schedule_end_after(p + dur, m, dur as int);
        }
        if ignore_init_dt {
            ignore_init_dt = false;
        } else {
            let ghost before = days_of(dates@);
            dates.push(period_dt);
            assert(days_of(dates@) =~= before.push(p));
            assert(before + periods(p, m, dur as int) =~= before.push(p) + periods(
                p + dur,
                m,
                dur as int,
            ));
        }
        period_dt = period_dt.checked_add_days(dur).unwrap();
    }
    proof {
        if ignore_init_dt {
            assert(days_of(dates@) =~= Seq::<int>::empty());
        } else {
            assert(days_of(dates@) + periods(period_dt@, m, dur as int) =~= days_of(dates@));
        }
    }
    proof {
        let all = days_of(dates@);
        lemma_payment_schedule_shape(
            valuation_date@,
            day_of(last_coupon_date),
            maturity_date@,
            frequency,
        );
        assert forall|i: int| 0 <= i < dates@.len() implies #[trigger] all[i] == dates@[i]@ by {}
        assert forall|i: int| 0 <= i < dates@.len() - 1 implies #[trigger] dates@[i + 1]@
            == dates@[i]@ + dur by {
            assert(all[i + 1] == dates@[i + 1]@);
            assert(all[i] == dates@[i]@);
        }
        assert forall|i: int| 0 <= i < dates@.len() implies #[trigger] dates@[i]@
            <= maturity_date@ by {
            assert(all[i] == dates@[i]@);
        }
        if dates@.len() > 0 {
            assert(all[0] == dates@[0]@);
            assert(all[dates@.len() - 1] == dates@[dates@.len() - 1]@);
        }
    }
    dates
}


/// Days accrued since the last payment date strictly before the valuation date,
/// searching the schedule from its end; zero when no date of the schedule lies
/// before the valuation date.
pub fn days_accrued(valuation_date: Date, schedules: &Vec<Date>) -> (r: i64)
    ensures
        r == accrued_days(valuation_date@, days_of(schedules@)),
        forall|j: int|
            0 <= j < schedules@.len() && #[trigger] schedules@[j]@ < valuation_date@ && (forall|
                k: int,
            |
                j < k < schedules@.len() ==> schedules@[k]@ >= valuation_date@) ==> r
                == valuation_date@ - schedules@[j]@,
        (forall|k: int| 0 <= k < schedules@.len() ==> schedules@[k]@ >= valuation_date@) ==> r
            == 0,
{
    let ghost all = days_of(schedules@);
    let mut i = schedules.len();
    assert(all.take(i as int) =~= all);
    while i > 0
        invariant
            i <= schedules@.len(),
            all == days_of(schedules@),
            accrual_start(valuation_date@, all) == accrual_start(
                valuation_date@,
                all.take(i as int),
            ),
        decreases i,
    {
        let s = schedules[i - 1];
        assert(all.take(i as int).drop_last() =~= all.take(i - 1));
        if s.before(&valuation_date) {
            proof {
                lemma_accrued_days_of_dates(valuation_date, schedules@);
            }
            return valuation_date.days_since(&s);
        }
        i = i - 1;
    }
    proof {
        lemma_accrued_days_of_dates(valuation_date, schedules@);
    }
    0
}

/// The settlement date `settle_days` days after the valuation date, if chrono
/// can represent it.
pub fn settle_date_from_days(valuation_date: Date, settle_days: i64) -> (r: Option<Date>)
    requires
        valid_delta(settle_days as int),
    ensures
        day_of(r) == shifted_day(valuation_date@, settle_days as int),
        r is Some <==> in_calendar(valuation_date@ + settle_days),
        r matches Some(d) ==> d@ == valuation_date@ + settle_days,
{
    valuation_date.checked_sub_days(-settle_days)
}

/// The date `days` days after the valuation date, or the valuation date itself
/// when that date is beyond chrono's calendar.
pub fn offset_date_or_keep(valuation_date: Date, days: i64) -> (r: Date)
    requires
        valid_delta(days as int),
    ensures
        r@ == (if in_calendar(valuation_date@ + days) { valuation_date@ + days } else {
            valuation_date@
        }),
{
    match valuation_date.checked_add_days(days) {
        Some(s) => s,
        None => valuation_date,
    }
}


proof fn lemma_periods_shape(start: int, maturity: int, step: int)
    requires
        step > 0,
    ensures
        ({
            let s = periods(start, maturity, step);
            &&& s.len() > 0 <==> start <= maturity
            &&& s.len() > 0 ==> s[0] == start
            &&& forall|i: int| 0 <= i < s.len() ==> start <= #[trigger] s[i] <= maturity
            &&& forall|i: int| 0 <= i < s.len() - 1 ==> #[trigger] s[i + 1] == s[i] + step
            &&& forall|i: int, j: int| 0 <= i < j < s.len() ==> #[trigger] s[i] < #[trigger] s[j]
            &&& s.len() > 0 ==> s.last() + step > maturity
        }),
    decreases maturity - start + step,
{
    if start <= maturity {
        lemma_periods_shape(start + step, maturity, step);
        let s = periods(start, maturity, step);
        let t = periods(start + step, maturity, step);
        assert(s =~= seq![start] + t);
        assert forall|i: int| 0 <= i < s.len() implies start <= #[trigger] s[i] <= maturity by {
            if i > 0 {
                assert(s[i] == t[i - 1]);
            }
        }
        assert forall|i: int| 0 <= i < s.len() - 1 implies #[trigger] s[i + 1] == s[i] + step by {
            assert(s[i + 1] == t[i]);
            if i > 0 {
                assert(s[i] == t[i - 1]);
                assert(t[(i - 1) + 1] == t[i - 1] + step);
            }
        }
        assert forall|i: int, j: int| 0 <= i < j < s.len() implies #[trigger] s[i]
            < #[trigger] s[j] by {
            assert(s[j] == t[j - 1]);
            if i > 0 {
                assert(s[i] == t[i - 1]);
            }
        }
    }
}

/// The payment schedule is strictly increasing, its dates are exactly one coupon
/// period apart, none falls after maturity, the next period after the last one
/// would, and it begins at the last coupon date, or one period after the
/// valuation date when no coupon was paid yet.
pub proof fn lemma_payment_schedule_shape(
    valuation: int,
    last_coupon: Option<int>,
    maturity: int,
    frequency: u32,
)
    ensures
        ({
            let s = payment_schedule(valuation, last_coupon, maturity, frequency);
            let p = period_days(frequency);
            let first = match last_coupon {
                Some(c) => c,
                None => valuation + p,
            };
            &&& s.len() > 0 <==> first <= maturity
            &&& s.len() > 0 ==> s[0] == first
            &&& forall|i: int| 0 <= i < s.len() ==> first <= #[trigger] s[i] <= maturity
            &&& forall|i: int| 0 <= i < s.len() - 1 ==> #[trigger] s[i + 1] == s[i] + p
            &&& forall|i: int, j: int| 0 <= i < j < s.len() ==> #[trigger] s[i] < #[trigger] s[j]
            &&& s.len() > 0 ==> s.last() + p > maturity
        }),
{
    let p = period_days(frequency);
    match last_coupon {
        Some(c) => lemma_periods_shape(c, maturity, p),
        None => lemma_periods_shape(valuation + p, maturity, p),
    }
}

proof fn lemma_accrual_start_index(valuation: int, schedule: Seq<int>) -> (j: int)
    requires
        accrual_start(valuation, schedule) is Some,
    ensures
        0 <= j < schedule.len(),
        accrual_start(valuation, schedule) == Some(schedule[j]),
        schedule[j] < valuation,
        forall|k: int| j < k < schedule.len() ==> schedule[k] >= valuation,
    decreases schedule.len(),
{
    if schedule.last() < valuation {
        schedule.len() - 1
    } else {
        let r = schedule.drop_last();
        let j = lemma_accrual_start_index(valuation, r);
        assert forall|k: int| j < k < schedule.len() implies schedule[k] >= valuation by {
            if k < schedule.len() - 1 {
                assert(schedule[k] == r[k]);
            }
        }
        assert(schedule[j] == r[j]);
        j
    }
}

proof fn lemma_accrual_start_none(valuation: int, schedule: Seq<int>)
    requires
        forall|k: int| 0 <= k < schedule.len() ==> schedule[k] >= valuation,
    ensures
        accrual_start(valuation, schedule) is None,
    decreases schedule.len(),
{
    if schedule.len() > 0 {
        let r = schedule.drop_last();
        assert forall|k: int| 0 <= k < r.len() implies r[k] >= valuation by {
            assert(r[k] == schedule[k]);
        }
        lemma_accrual_start_none(valuation, r);
    }
}

proof fn lemma_accrual_start_some(valuation: int, schedule: Seq<int>, k: int)
    requires
        0 <= k < schedule.len(),
        schedule[k] < valuation,
    ensures
        accrual_start(valuation, schedule) is Some,
    decreases schedule.len(),
{
    if schedule.last() >= valuation {
        let r = schedule.drop_last();
        assert(r[k] == schedule[k]);
        lemma_accrual_start_some(valuation, r, k);
    }
}

/// Accrued days measured against a bond's own payment schedule: none before the
/// first payment date, and, for a valuation date after the first payment date
/// and not after maturity, more than zero and at most one coupon period.
pub proof fn lemma_accrued_within_period(
    valuation: int,
    last_coupon: Option<int>,
    maturity: int,
    frequency: u32,
    at: int,
)
    ensures
        ({
            let s = payment_schedule(valuation, last_coupon, maturity, frequency);
            &&& (s.len() == 0 || at <= s[0]) ==> accrued_days(at, s) == 0
            &&& s.len() > 0 && s[0] < at <= maturity ==> 0 < accrued_days(at, s) <= period_days(
                frequency,
            )
        }),
{
    let s = payment_schedule(valuation, last_coupon, maturity, frequency);
    let p = period_days(frequency);
    lemma_payment_schedule_shape(valuation, last_coupon, maturity, frequency);
    if s.len() == 0 || at <= s[0] {
        assert forall|k: int| 0 <= k < s.len() implies s[k] >= at by {
            if k > 0 {
                assert(s[0] < s[k]);
            }
        }
        lemma_accrual_start_none(at, s);
    }
    if s.len() > 0 && s[0] < at <= maturity {
        lemma_accrual_start_some(at, s, 0);
        let j = lemma_accrual_start_index(at, s);
        if j < s.len() - 1 {
            assert(s[j + 1] == s[j] + p);
            assert(s[j + 1] >= at);
        }
    }
}

/// Settling a date forward by some days and then back by as many gives back the
/// original date, and settling forward by a positive number of days gives a
/// later date.
pub proof fn lemma_settle_round_trip(day: int, delta: int)
    requires
        in_calendar(day),
    ensures
        shifted_day(day, delta) matches Some(later) ==> shifted_day(later, -delta) == Some(day),
        shifted_day(day, delta) matches Some(later) ==> (delta > 0 ==> later > day),
        shifted_day(day, 0) == Some(day),
{
}


/// The first date after maturity that stepping from `start` reaches, in closed
/// form: `start` itself when it is already after maturity, otherwise the start
/// plus one more period than fit between start and maturity.
pub proof fn lemma_schedule_end_closed_form(start: int, maturity: int, step: int)
    requires
        step > 0,
    ensures
        schedule_end(start, maturity, step) == if start > maturity {
            start
        } else {
            start + ((maturity - start) / step + 1) * step
        },
    decreases maturity - start + step,
{
    if start <= maturity {
        lemma_schedule_end_closed_form(start + step, maturity, step);
        let x = maturity - start;
        let q = x / step;
        if start + step > maturity {
            lemma_basic_div_specific_divisor(step);
            assert(q == 0);
            assert((q + 1) * step == step) by (nonlinear_arith)
                requires
                    q == 0,
            ;
        } else {
            lemma_div_minus_one(x, step);
            let q1 = (maturity - (start + step)) / step;
            assert(maturity - (start + step) == -step + x);
            assert(q1 == q - 1);
            assert((q1 + 1) * step + step == (q + 1) * step) by (nonlinear_arith)
                requires
                    q1 == q - 1,
            ;
        }
    }
}

/// A schedule can be built exactly when, stepping from the last coupon date (or
/// the valuation date) by whole periods, the first date past maturity still
/// lies within chrono's calendar; every earlier stepped date then does too.
pub proof fn lemma_schedule_fits_exactly(
    valuation: int,
    last_coupon: Option<int>,
    maturity: int,
    frequency: u32,
)
    ensures
        schedule_fits(valuation, last_coupon, maturity, frequency) == ({
            let start = match last_coupon {
                Some(c) => c,
                None => valuation,
            };
            let step = period_days(frequency);
            (if start > maturity {
                start
            } else {
                start + ((maturity - start) / step + 1) * step
            }) <= MAX_EPOCH_DAY
        }),
{
    let start = schedule_start(valuation, last_coupon);
    lemma_schedule_end_closed_form(start, maturity, period_days(frequency));
}

/// Accrued days are the valuation date minus the last schedule date strictly
/// before it, and zero when no schedule date lies before it.
pub proof fn lemma_accrued_days_exact(valuation: int, schedule: Seq<int>)
    ensures
        forall|j: int|
            0 <= j < schedule.len() && #[trigger] schedule[j] < valuation && (forall|k: int|
                j < k < schedule.len() ==> schedule[k] >= valuation) ==> accrued_days(
                valuation,
                schedule,
            ) == valuation - schedule[j],
        (forall|k: int| 0 <= k < schedule.len() ==> schedule[k] >= valuation) ==> accrued_days(
            valuation,
            schedule,
        ) == 0,
{
    assert forall|j: int|
        0 <= j < schedule.len() && #[trigger] schedule[j] < valuation && (forall|k: int|
            j < k < schedule.len() ==> schedule[k] >= valuation) implies accrued_days(
        valuation,
        schedule,
    ) == valuation - schedule[j] by {
        lemma_accrual_start_some(valuation, schedule, j);
        let i = lemma_accrual_start_index(valuation, schedule);
        if i < j {
            assert(schedule[j] >= valuation);
        }
        if i > j {
            assert(schedule[i] >= valuation);
        }
    }
    if forall|k: int| 0 <= k < schedule.len() ==> schedule[k] >= valuation {
        lemma_accrual_start_none(valuation, schedule);
    }
}

proof fn lemma_accrued_days_of_dates(valuation: Date, schedule: Seq<Date>)
    ensures
        forall|j: int|
            0 <= j < schedule.len() && #[trigger] schedule[j]@ < valuation@ && (forall|k: int|
                j < k < schedule.len() ==> schedule[k]@ >= valuation@) ==> accrued_days(
                valuation@,
                days_of(schedule),
            ) == valuation@ - schedule[j]@,
        (forall|k: int| 0 <= k < schedule.len() ==> schedule[k]@ >= valuation@) ==> accrued_days(
            valuation@,
            days_of(schedule),
        ) == 0,
{
    let all = days_of(schedule);
    lemma_accrued_days_exact(valuation@, all);
    assert forall|k: int| 0 <= k < schedule.len() implies #[trigger] all[k] == schedule[k]@ by {}
    assert forall|j: int|
        0 <= j < schedule.len() && #[trigger] schedule[j]@ < valuation@ && (forall|k: int|
            j < k < schedule.len() ==> schedule[k]@ >= valuation@) implies accrued_days(
        valuation@,
        all,
    ) == valuation@ - schedule[j]@ by {
        assert(all[j] < valuation@);
        assert forall|k: int| j < k < all.len() implies all[k] >= valuation@ by {
            assert(all[k] == schedule[k]@);
        }
    }
    if forall|k: int| 0 <= k < schedule.len() ==> schedule[k]@ >= valuation@ {
        assert forall|k: int| 0 <= k < all.len() implies all[k] >= valuation@ by {
            assert(all[k] == schedule[k]@);
        }
    }
}

/// A settlement or shifted date exists exactly when the valuation date plus the
/// number of days lies within chrono's calendar, and it is that date.
pub proof fn lemma_shifted_day_exact(day: int, delta: int)
    ensures
        shifted_day(day, delta) is Some <==> in_calendar(day + delta),
        shifted_day(day, delta) matches Some(x) ==> x == day + delta,
{
}

} // verus!
