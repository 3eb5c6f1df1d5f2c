//! The one place the library reads the wall clock. The calendar work itself
//! is pure (`crate::date`); only "what day and second is it now" comes from
//! outside, and every caller is verified for whatever instant comes back.

use vstd::prelude::*;
use crate::date::{spec_entry_start, spec_find_next_rep, spec_rule, Date};

verus! {

/// Added to chrono's signed day count so that every representable local date
/// gets a positive day number; a multiple of 7, so weekday arithmetic is
/// unchanged (day 1 of the count is a Monday, and so is day 1 + offset).
pub const DAY_NUMBER_OFFSET: u64 = 105_000_000;

/// Relies on chrono: `Local::now` read once, its date taken through
/// `Datelike::num_days_from_ce` (days of the proleptic Gregorian calendar,
/// January 1 of year 1 — a Monday — being day 1) and its time through
/// `Timelike::num_seconds_from_midnight` (documented to lie in 0..=86399).
/// chrono dates span at most the years -262143..=262142, so the day count
/// lies well within +/- 96,000,000.
#[verifier::external_body]
fn clock_now_raw() -> (r: (i64, u32))
    ensures
        -96_000_000 <= r.0 <= 96_000_000,
        r.1 < 86400,
{
    let now = chrono::Local::now();
    (
        chrono::Datelike::num_days_from_ce(&now.date_naive()) as i64,
        chrono::Timelike::num_seconds_from_midnight(&now.time()),
    )
}

/// The local date (as a day number, offset so it is positive) and the local
/// time of day in seconds, read from the wall clock.
pub fn current_instant() -> (r: (Date, u32))
    ensures
        9_000_000 <= r.0.days <= 201_000_000,
        r.1 < 86400,
{
    let (nd, secs) = clock_now_raw();
    (Date { days: (nd + DAY_NUMBER_OFFSET as i64) as u64 }, secs)
}

/// First trigger date for an alarm, resolved against the wall clock: as
/// `determine_entry_day_at`, for whatever instant the clock reads.
pub fn determine_entry_day(time_of_day: u32, rep: &Option<Vec<String>>) -> (r: Option<Date>)
    ensures
        exists|today: int, now: int|
            {
                &&& 9_000_000 <= today <= 201_000_000
                &&& 0 <= now < 86400
                &&& (match r {
                    None => spec_find_next_rep(
                        spec_entry_start(today, time_of_day as int, now),
                        spec_rule(*rep),
                    ) is None,
                    Some(d) => spec_find_next_rep(
                        spec_entry_start(today, time_of_day as int, now),
                        spec_rule(*rep),
                    ) == Some(d.days as int),
                })
            },
{
    let (today, now) = current_instant();
    let r = crate::date::determine_entry_day_at(time_of_day, rep, today, now);
    proof {
        let t = today.days as int;
        let n = now as int;
        assert({
            &&& 9_000_000 <= t <= 201_000_000
            &&& 0 <= n < 86400
            &&& (match r {
                None => spec_find_next_rep(
                    spec_entry_start(t, time_of_day as int, n),
                    spec_rule(*rep),
                ) is None,
                Some(d) => spec_find_next_rep(
                    spec_entry_start(t, time_of_day as int, n),
                    spec_rule(*rep),
                ) == Some(d.days as int),
            })
        });
    }
    r
}

} // verus!
