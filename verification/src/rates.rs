//! Yield-curve pillars: which pillar dates a rate query reads.

use crate::calendar::{Date, MAX_EPOCH_DAY};
use crate::dates::days_of;
use vstd::prelude::*;

verus! {

/// How a yield curve turns its pillar rates into the rate at a date.
#[derive(Clone, Copy, Debug, PartialEq, Eq, Structural)]
pub enum InterpolationType {
    /// Interpolate linearly on discount factors between the surrounding pillars.
    LinearDiscountFactor,
    /// Take the rate of the first pillar on or after the date.
    NearestGreaterThan,
    /// Take the rate of the last pillar on or before the date.
    NearestLessThan,
}

/// `r` is the index of the first pillar on or after `at`, or none when every
/// pillar lies before `at`.
pub open spec fn is_first_on_or_after(pillars: Seq<int>, at: int, r: Option<usize>) -> bool {
    match r {
        Some(i) => {
            &&& i < pillars.len()
            &&& pillars[i as int] >= at
            &&& forall|j: int| 0 <= j < i ==> pillars[j] < at
        },
        None => forall|j: int| 0 <= j < pillars.len() ==> pillars[j] < at,
    }
}

/// `r` is the index of the last pillar on or before `at`, or none when every
/// pillar lies after `at`.
pub open spec fn is_last_on_or_before(pillars: Seq<int>, at: int, r: Option<usize>) -> bool {
    match r {
        Some(i) => {
            &&& i < pillars.len()
            &&& pillars[i as int] <= at
            &&& forall|j: int| i < j < pillars.len() ==> pillars[j] > at
        },
        None => forall|j: int| 0 <= j < pillars.len() ==> pillars[j] > at,
    }
}

/// Pillar dates in strictly increasing order.
pub open spec fn strictly_increasing(pillars: Seq<int>) -> bool {
    forall|i: int, j: int| 0 <= i < j < pillars.len() ==> pillars[i] < pillars[j]
}

/// Which pillars of a curve a rate query at some date reads.
#[derive(Clone, Copy, Debug, PartialEq, Eq, Structural)]
pub enum RateLookup {
    /// Interpolate between the last pillar on or before the date (`lower`) and the
    /// first pillar on or after it (`upper`), measuring time from `start`, the
    /// curve's first pillar date. A missing pillar stands for the fallback point.
    Interpolate { lower: Option<usize>, upper: Option<usize>, start: Option<Date> },
    /// Read the rate of one pillar; a missing pillar stands for the fallback rate.
    Pillar(Option<usize>),
}

/// A yield curve's pillar dates, in the order given, with its interpolation.
pub struct YieldCurve {
    dates: Vec<Date>,
    interp_type: InterpolationType,
}

impl View for YieldCurve {
    type V = Seq<int>;

    closed spec fn view(&self) -> Seq<int> {
        days_of(self.dates@)
    }
}

impl YieldCurve {
    /// The interpolation this curve uses.
    pub closed spec fn interpolation(&self) -> InterpolationType {
        self.interp_type
    }

    /// A curve on the given pillar dates, interpolating linearly on discount factors.
    pub fn new(input_dates: Vec<Date>) -> (r: YieldCurve)
        ensures
            r@ == days_of(input_dates@),
            r.interpolation() == InterpolationType::LinearDiscountFactor,
    {
        YieldCurve { dates: input_dates, interp_type: InterpolationType::LinearDiscountFactor }
    }

    /// The interpolation this curve uses.
    pub fn interp_type(&self) -> (r: InterpolationType)
        ensures
            r == self.interpolation(),
    {
        self.interp_type
    }

    /// Number of pillars.
    pub fn len(&self) -> (r: usize)
        ensures
            r == self@.len(),
    {
        self.dates.len()
    }

    /// The date of pillar `i`.
    pub fn pillar_date(&self, i: usize) -> (r: Date)
        requires
            i < self@.len(),
        ensures
            r@ == self@[i as int],
    {
        self.dates[i]
    }

    /// Index of the first pillar on or after `at`.
    fn first_on_or_after(&self, at: Date) -> (r: Option<usize>)
        ensures
            is_first_on_or_after(self@, at@, r),
    {
        let n = self.dates.len();
        let mut i: usize = 0;
        while i < n
            invariant
                n == self@.len(),
                i <= n,
                forall|j: int| 0 <= j < i ==> self@[j] < at@,
            decreases n - i,
        {
            if at.on_or_before(&self.dates[i]) {
                return Some(i);
            }
            i = i + 1;
        }
        None
    }

    /// Index of the last pillar on or before `at`.
    fn last_on_or_before(&self, at: Date) -> (r: Option<usize>)
        ensures
            is_last_on_or_before(self@, at@, r),
    {
        let mut i: usize = self.dates.len();
        while i > 0
            invariant
                i <= self@.len(),
                forall|j: int| i <= j < self@.len() ==> self@[j] > at@,
            decreases i,
        {
            if self.dates[i - 1].on_or_before(&at) {
                return Some(i - 1);
            }
            i = i - 1;
        }
        None
    }

    /// Which pillars a rate query at `valuation_date` reads: with linear
    /// interpolation, the last pillar on or before the date, the first pillar on
    /// or after it and the first pillar date; otherwise the nearest pillar after
    /// or before the date, as the interpolation type says.
    pub fn rate_lookup(&self, valuation_date: Date) -> (r: RateLookup)
        ensures
            self.interpolation() == InterpolationType::LinearDiscountFactor ==> (
            r matches RateLookup::Interpolate { lower, upper, start } && is_last_on_or_before(
                self@,
                valuation_date@,
                lower,
            ) && is_first_on_or_after(self@, valuation_date@, upper) && (start is Some
                <==> self@.len() > 0) && (start matches Some(d) ==> d@ == self@[0])),
            self.interpolation() == InterpolationType::NearestGreaterThan ==> (
            r matches RateLookup::Pillar(p) && is_first_on_or_after(self@, valuation_date@, p)),
            self.interpolation() == InterpolationType::NearestLessThan ==> (
            r matches RateLookup::Pillar(p) && is_last_on_or_before(self@, valuation_date@, p)),
    {
        match self.interp_type {
            InterpolationType::LinearDiscountFactor => {
                let upper = self.first_on_or_after(valuation_date);
                let lower = self.last_on_or_before(valuation_date);
                let start = if self.dates.len() > 0 {
                    Some(self.dates[0])
                } else {
                    None
                };
                RateLookup::Interpolate { lower, upper, start }
            },
            InterpolationType::NearestGreaterThan => RateLookup::Pillar(
                self.first_on_or_after(valuation_date),
            ),
            InterpolationType::NearestLessThan => RateLookup::Pillar(
                self.last_on_or_before(valuation_date),
            ),
        }
    }
}


/// On strictly increasing pillar dates, a query's two pillars are neighbours:
/// the same pillar when the date is a pillar date, otherwise consecutive
/// pillars, the first pillar when the date precedes every pillar, and no upper
/// pillar when it follows every pillar.
pub proof fn lemma_bracket_adjacent(
    pillars: Seq<int>,
    at: int,
    lower: Option<usize>,
    upper: Option<usize>,
)
    requires
        strictly_increasing(pillars),
        is_last_on_or_before(pillars, at, lower),
        is_first_on_or_after(pillars, at, upper),
    ensures
        lower matches Some(i) ==> (if pillars[i as int] == at {
            upper == Some(i)
        } else if i + 1 < pillars.len() {
            upper == Some((i + 1) as usize)
        } else {
            upper is None
        }),
        lower is None ==> upper == (if pillars.len() > 0 {
            Some(0usize)
        } else {
            None::<usize>
        }),
{
    match lower {
        Some(i) => {
            let ii = i as int;
            match upper {
                Some(j) => {
                    let jj = j as int;
                    if pillars[ii] == at {
                        if jj < ii {
                            assert(pillars[jj] < pillars[ii]);
                        }
                        if jj > ii {
                            assert(pillars[ii] < at);
                        }
                    } else {
                        if jj < ii {
                            assert(pillars[jj] < pillars[ii]);
                        }
                        if jj > ii + 1 {
                            assert(pillars[ii + 1] < at);
                            assert(pillars[ii + 1] > at);
                        }
                    }
                },
                None => {
                    assert(pillars[ii] < at);
                    if ii + 1 < pillars.len() {
                        assert(pillars[ii + 1] > at);
                        assert(pillars[ii + 1] < at);
                    }
                },
            }
        },
        None => {
            if pillars.len() > 0 {
                assert(pillars[0] > at);
                match upper {
                    Some(j) => {
                        if j > 0 {
                            assert(pillars[0] < at);
                        }
                    },
                    None => {
                        assert(pillars[0] < at);
                    },
                }
            }
        },
    }
}

/// Pillar tenors, in days from today, of the curves the factory builds: today,
/// one day, one, three, six and nine months of 30 days, and one, two, three, four,
/// six, eight and ten years of 365 days.
pub open spec fn standard_tenors() -> Seq<int> {
    seq![0, 1, 30, 90, 180, 270, 365, 730, 1095, 1460, 2190, 2920, 3650]
}

proof fn lemma_standard_tenors_bounded()
    ensures
        standard_tenors().len() == 13,
        forall|i: int| 0 <= i < 13 ==> 0 <= #[trigger] standard_tenors()[i] <= 3650,
{
    let s = standard_tenors();
    assert forall|i: int| 0 <= i < 13 implies 0 <= #[trigger] s[i] <= 3650 by {
        if i == 0 {
        } else if i == 1 {
        } else if i == 2 {
        } else if i == 3 {
        } else if i == 4 {
        } else if i == 5 {
        } else if i == 6 {
        } else if i == 7 {
        } else if i == 8 {
        } else if i == 9 {
        } else if i == 10 {
        } else if i == 11 {
        } else {
        }
    }
}

/// The dates `tenors` days after `today`.
pub open spec fn tenor_dates(today: int, tenors: Seq<int>) -> Seq<int> {
    tenors.map_values(|t: int| today + t)
}

/// Each tenor date is today plus its own tenor, in the tenors' order.
pub proof fn lemma_tenor_dates_pointwise(today: int, tenors: Seq<int>)
    ensures
        tenor_dates(today, tenors).len() == tenors.len(),
        forall|i: int|
            0 <= i < tenors.len() ==> #[trigger] tenor_dates(today, tenors)[i] == today
                + tenors[i],
{
}

/// Builds the pillar dates of standard curves.
pub struct YieldCurveFactory {}

impl YieldCurveFactory {
    /// The standard pillar tenors, in days from today.
    pub fn standard_tenor_days() -> (r: Vec<u32>)
        ensures
            r@.map_values(|t: u32| t as int) == standard_tenors(),
            r@ == seq![0u32, 1, 30, 90, 180, 270, 365, 730, 1095, 1460, 2190, 2920, 3650],
    {
        let r: Vec<u32> = vec![0, 1, 30, 90, 180, 270, 365, 730, 1095, 1460, 2190, 2920, 3650];
        assert(r@.map_values(|t: u32| t as int) =~= standard_tenors());
        assert(r@ =~= seq![0u32, 1, 30, 90, 180, 270, 365, 730, 1095, 1460, 2190, 2920, 3650]);
        r
    }

    /// The dates `tenor_days` days after `today`, in the same order.
    pub fn pillar_dates(today: Date, tenor_days: &Vec<u32>) -> (r: Vec<Date>)
        requires
            forall|i: int| 0 <= i < tenor_days@.len() ==> today@ + tenor_days@[i] <= MAX_EPOCH_DAY,
        ensures
            days_of(r@) == tenor_dates(today@, tenor_days@.map_values(|t: u32| t as int)),
            r@.len() == tenor_days@.len(),
            forall|i: int| 0 <= i < r@.len() ==> #[trigger] r@[i]@ == today@ + tenor_days@[i],
    {
        let ghost target = tenor_dates(today@, tenor_days@.map_values(|t: u32| t as int));
        let mut r: Vec<Date> = Vec::new();
        let n = tenor_days.len();
        let mut i: usize = 0;
        while i < n
            invariant
                n == tenor_days@.len(),
                i <= n,
                forall|k: int| 0 <= k < tenor_days@.len() ==> today@ + tenor_days@[k] <= MAX_EPOCH_DAY,
                target == tenor_dates(today@, tenor_days@.map_values(|t: u32| t as int)),
                days_of(r@) =~= target.take(i as int),
            decreases n - i,
        {
            let d = today.checked_add_days(tenor_days[i] as i64).unwrap();
            let ghost before = days_of(r@);
            r.push(d);
            assert(days_of(r@) =~= before.push(d@));
            assert(target.take(i + 1) =~= target.take(i as int).push(target[i as int]));
            i = i + 1;
        }
        assert(target.take(n as int) =~= target);
        proof {
            let tenors = tenor_days@.map_values(|t: u32| t as int);
            lemma_tenor_dates_pointwise(today@, tenors);
            assert forall|i: int| 0 <= i < r@.len() implies #[trigger] r@[i]@ == today@
                + tenor_days@[i] by {
                assert(days_of(r@)[i] == r@[i]@);
                assert(tenors[i] == tenor_days@[i] as int);
            }
        }
        r
    }

    /// A linearly interpolated curve with the standard pillars from `today`.
    pub fn standard_curve(today: Date) -> (r: YieldCurve)
        requires
            today@ + 3650 <= MAX_EPOCH_DAY,
        ensures
            r@ == tenor_dates(today@, standard_tenors()),
            r@ == seq![
                today@,
                today@ + 1,
                today@ + 30,
                today@ + 90,
                today@ + 180,
                today@ + 270,
                today@ + 365,
                today@ + 730,
                today@ + 1095,
                today@ + 1460,
                today@ + 2190,
                today@ + 2920,
                today@ + 3650,
            ],
            r.interpolation() == InterpolationType::LinearDiscountFactor,
    {
        let tenors = Self::standard_tenor_days();
        proof {
            lemma_standard_tenors_bounded();
            assert forall|i: int| 0 <= i < tenors@.len() implies today@ + tenors@[i]
                <= MAX_EPOCH_DAY by {
                assert(tenors@.map_values(|t: u32| t as int)[i] == tenors@[i] as int);
                assert(standard_tenors()[i] == tenors@[i] as int);
            }
        }
        let dates = Self::pillar_dates(today, &tenors);
        proof {
            assert forall|i: int| 0 <= i < 13 implies #[trigger] days_of(dates@)[i] == today@
                + tenors@[i] by {
                assert(days_of(dates@)[i] == dates@[i]@);
            }
            assert(days_of(dates@) =~= seq![
                today@,
                today@ + 1,
                today@ + 30,
                today@ + 90,
                today@ + 180,
                today@ + 270,
                today@ + 365,
                today@ + 730,
                today@ + 1095,
                today@ + 1460,
                today@ + 2190,
                today@ + 2920,
                today@ + 3650,
            ]);
        }
        YieldCurve::new(dates)
    }
}

} // verus!
