//! Calendar arithmetic on plain timestamps.  A point in time is its Unix
//! second; a day is its day number relative to the epoch.  The bounds keep
//! every timestamp inside the range calendar libraries represent.

use vstd::prelude::*;

verus! {

/// A timestamp a calendar can represent (roughly a quarter million years
/// around the epoch).
pub open spec fn spec_ts_ok(t: int) -> bool {
    -8_000_000_000_000 <= t <= 8_000_000_000_000
}

/// The day a timestamp falls on: its Unix second divided by the seconds of
/// a day, rounded towards minus infinity.
pub open spec fn spec_day_of(t: int) -> int {
    t / 86400
}

/// The day a timestamp falls on, as [`spec_day_of`] defines it.
pub fn day_of(t: i64) -> (r: i64)
    requires
        spec_ts_ok(t as int),
    ensures
        r as int == spec_day_of(t as int),
{
    if t >= 0 {
        let d = (t as u64) / 86400;
        d as i64
    } else {
        let pos = (-t) as u64;
        let q = (pos + 86399) / 86400;
        let r = -(q as i64);
        proof {
            let tt = t as int;
            let p = pos as int;
            assert(p == -tt);
            assert(q as int == (p + 86399) / 86400);
            assert(tt == -p);
            assert((-p) / 86400 == -((p + 86399) / 86400)) by (nonlinear_arith)
                requires
                    p > 0,
            ;
        }
        r
    }
}

/// What [`civil_parts`] returns: the civil calendar's reading of a
/// timestamp, as `(year, month, day, second of day)`.
pub uninterp spec fn civil_of(ts: int) -> (int, int, int, int);

/// Relies on chrono's `Datelike` and `Timelike` readings of a UTC
/// `DateTime`: year, month, day and second-of-day depend on the timestamp
/// alone, the month lies in 1..=12, the day in 1..=31, the second of day
/// below 86400, and the year well inside the library's quarter-million-year
/// range.
#[verifier::external_body]
fn civil_parts(ts: i64) -> (r: (i32, u32, u32, u32))
    requires
        spec_ts_ok(ts as int),
    ensures
        (r.0 as int, r.1 as int, r.2 as int, r.3 as int) == civil_of(ts as int),
        -300000 <= r.0 <= 300000,
        1 <= r.1 <= 12,
        1 <= r.2 <= 31,
        r.3 < 86400,
{
    let dt = chrono::DateTime::<chrono::Utc>::from_timestamp(ts, 0).unwrap();
    (
        chrono::Datelike::year(&dt),
        chrono::Datelike::month(&dt),
        chrono::Datelike::day(&dt),
        chrono::Timelike::num_seconds_from_midnight(&dt),
    )
}

/// What [`sub_months`] returns: the timestamp a number of calendar months
/// before `ts`, with days clamped into the shorter target month, or nothing
/// where the calendar runs out.
pub uninterp spec fn sub_months_of(ts: int, months: int) -> Option<i64>;

/// Relies on chrono's `DateTime::checked_sub_months`: the result depends on
/// the timestamp and the month count alone; going back a non-negative
/// number of months never moves time forward, and any timestamp it yields
/// is a representable date, so it lies no earlier than the calendar's
/// floor (just under −8.34·10¹² seconds, stated here with a margin).
#[verifier::external_body]
fn sub_months(ts: i64, months: u32) -> (r: Option<i64>)
    requires
        spec_ts_ok(ts as int),
    ensures
        r == sub_months_of(ts as int, months as int),
        match r {
            Option::Some(v) => -8_400_000_000_000 <= v <= ts,
            Option::None => true,
        },
{
    let dt = chrono::DateTime::<chrono::Utc>::from_timestamp(ts, 0).unwrap();
    dt.checked_sub_months(chrono::Months::new(months)).map(|d| d.timestamp())
}

/// How many months an interval spans, rounded to the nearer month boundary:
/// whole civil months from start to end, one less when the end's
/// day-and-time sits earlier in its month than the start's, and one more
/// when what remains past the month boundary exceeds two weeks.  `None`
/// where the count would leave `u32` or the calendar runs out.
pub open spec fn spec_months_open(start: int, end: int) -> Option<u32> {
    let s = civil_of(start);
    let e = civil_of(end);
    let years = if 0 <= e.0 - s.0 <= u32::MAX {
        e.0 - s.0
    } else {
        0
    };
    if !(0 <= years * 12 + e.1 - s.1 <= u32::MAX) {
        Option::None
    } else {
        let m0 = years * 12 + e.1 - s.1;
        let earlier = (e.2 < s.2) || (e.2 == s.2 && e.3 < s.3);
        let m1 = if earlier {
            m0 - 1
        } else {
            m0
        };
        if m1 < 0 {
            Option::None
        } else {
            match sub_months_of(end, m1) {
                Option::None => Option::None,
                Option::Some(v) => {
                    let m2 = if v - start > 86400 * 14 {
                        m1 + 1
                    } else {
                        m1
                    };
                    if m2 <= u32::MAX {
                        Option::Some(m2 as u32)
                    } else {
                        Option::None
                    }
                },
            }
        }
    }
}

/// How many months an interval spans, as [`spec_months_open`] defines it.
pub fn months_open(start: i64, end: i64) -> (r: Option<u32>)
    requires
        spec_ts_ok(start as int),
        spec_ts_ok(end as int),
    ensures
        r == spec_months_open(start as int, end as int),
        match r {
            Option::Some(m) => m <= 7_300_000,
            Option::None => true,
        },
{
    let s = civil_parts(start);
    let e = civil_parts(end);
    let years: u32 = if e.0 >= s.0 {
        (e.0 - s.0) as u32
    } else {
        0
    };
    let m0: u32 = if years * 12 + e.1 >= s.1 {
        years * 12 + e.1 - s.1
    } else {
        return None;
    };
    let earlier = (e.2 < s.2) || (e.2 == s.2 && e.3 < s.3);
    let m1: u32 = if earlier {
        if m0 == 0 {
            return None;
        }
        m0 - 1
    } else {
        m0
    };
    match sub_months(end, m1) {
        None => None,
        Some(v) => {
            if v - start > 86400 * 14 {
                if m1 == u32::MAX {
                    return None;
                }
                Some(m1 + 1)
            } else {
                Some(m1)
            }
        },
    }
}

} // verus!
