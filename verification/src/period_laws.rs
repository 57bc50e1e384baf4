//! What periods and their windows are.
use crate::periods::{BoundModel, ReportPeriod, bound_of};
use crate::records::{in_period, overlapping};
use crate::time::{MAX_DAY, MAX_SECONDS, MIN_DAY, Timestamp, last_instant};
use vstd::prelude::*;

verus! {

/// A window of days starts so many days of 86,400 seconds before now, and ends
/// now. All time has no start. A range starts where it says, and ends where it
/// says or now, whichever is earlier.
pub proof fn windows_start_and_end_as_asked(period: ReportPeriod, now: Timestamp)
    requires
        now.wf(),
        now.nanos < 1_000_000_000,
        period.fits(now),
    ensures
        ({
            let w = period.window_spec(now);
            match period {
                ReportPeriod::LastDays(d) => w.1 == now && w.0 is Some && w.0->0.nanos == now.nanos
                    && w.0->0.secs + d * 86_400 == now.secs,
                ReportPeriod::AllTime => w.1 == now && w.0 is None,
                ReportPeriod::Range { since, until } => {
                    &&& w.0 is Some == since is Some
                    &&& since is Some ==> w.0->0 == since->0.timestamp
                    &&& w.1 == until.timestamp || w.1 == now
                    &&& w.1.at() <= until.timestamp.at()
                    &&& w.1.at() <= now.at()
                },
            }
        }),
{
}

/// The window that is shown ends where the window ends, and starts where it starts
/// unless that is after the end.
pub proof fn the_shown_window_is_the_window(period: ReportPeriod, now: Timestamp)
    ensures
        ({
            let w = period.window_spec(now);
            let p = period.published_spec(now);
            &&& p.1 == w.1
            &&& p.0 is Some == w.0 is Some
            &&& w.0 is Some && w.0->0.at() <= w.1.at() ==> p.0 == w.0
            &&& w.0 is Some && w.0->0.at() > w.1.at() ==> p.0 == Some(w.1)
        }),
{
}

/// A plain date starts a range at its first instant and ends one with its last
/// nanosecond; the next day starts one nanosecond later. A date with a time is the
/// bound itself at either end.
pub proof fn a_date_stands_for_its_whole_day(instant: Option<Timestamp>, day: Option<int>, end: bool)
    requires
        day is Some ==> MIN_DAY <= day->0 <= MAX_DAY,
    ensures
        instant is Some ==> bound_of(instant, day, end) == BoundModel::At(instant->0),
        instant is None && day is None ==> bound_of(instant, day, end) is NoDate,
        instant is None && day is Some && !end ==> (bound_of(instant, day, end) matches BoundModel::At(
            t,
        ) && t.secs == day->0 * 86_400 && t.nanos == 0),
        instant is None && day is Some && end && day->0 < MAX_DAY ==> (bound_of(instant, day, end) matches BoundModel::At(
            t,
        ) && t.secs + 1 == (day->0 + 1) * 86_400 && t.nanos + 1 == 1_000_000_000),
        instant is None && day == Some(MAX_DAY as int) && end ==> bound_of(instant, day, end) is TooLate,
{
}

/// Two periods overlap exactly where each starts before the other ends; a period
/// without an end goes on to the last instant. An instant lies in a period from
/// its start on and before its end.
pub proof fn periods_overlap_and_hold_instants(
    a: (Timestamp, Option<Timestamp>),
    b: (Timestamp, Option<Timestamp>),
    t: Timestamp,
)
    ensures
        overlapping(a.0, a.1, b.0, b.1) == ((match b.1 {
            Some(e) => a.0.at() < e.at(),
            None => a.0.at() < last_instant().at(),
        }) && (match a.1 {
            Some(e) => b.0.at() < e.at(),
            None => b.0.at() < last_instant().at(),
        })),
        in_period(t, a.0, a.1) == (a.0.at() <= t.at() && (a.1 is None || t.at() < a.1->0.at())),
        last_instant().secs == MAX_SECONDS,
{
}

/// Instants are in the order of their seconds, then of their nanoseconds.
pub proof fn instants_are_ordered_by_time(a: Timestamp, b: Timestamp)
    requires
        a.wf(),
        b.wf(),
    ensures
        (a.at() < b.at()) == (a.secs < b.secs || (a.secs == b.secs && a.nanos < b.nanos)),
        (a.at() == b.at()) == (a == b),
{
}

} // verus!
