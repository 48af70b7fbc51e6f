# bondpricer

Fixed-income date logic, verified with Verus.

- `src/calendar.rs`: `Date`, a calendar date held as its day number from
  1970-01-01, with the date arithmetic done by chrono behind trusted wrappers.
- `src/dates.rs`: coupon payment schedules, accrued days, settlement dates, and
  the laws relating them.
- `src/rates.rs`: yield-curve pillar dates and which pillars a rate query reads.
- `app/`: the floating-point layer (compounding formulas, discount-factor
  interpolation, bond analytics, Newton-Raphson solvers) and the conversion
  between chrono dates and the library's dates.
