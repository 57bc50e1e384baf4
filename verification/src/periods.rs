//! The span of time that a report covers.
use crate::text::{concat2, concat3, signed_decimal, signed_decimal_text};
use crate::time::{
    MAX_DAY, MAX_SECONDS, MIN_DAY, MIN_SECONDS, Timestamp, day_text, format_day, midnight,
    midnight_spec, opt_wf, parse_rfc3339, parse_ymd, parsed_rfc3339, rfc3339_text, ymd_day,
};
use vstd::prelude::*;

verus! {

/// A bound of a report, and whether it was given as a plain date.
#[derive(Debug, Clone, Copy, PartialEq, Eq, Structural)]
pub struct ReportBound {
    pub timestamp: Timestamp,
    pub date_only: bool,
}

#[derive(Debug, Clone, Copy, PartialEq, Eq, Structural)]
pub enum ReportPeriod {
    LastDays(i64),
    AllTime,
    Range { since: Option<ReportBound>, until: ReportBound },
}

#[derive(Debug, Clone, PartialEq, Eq)]
pub enum ReportRangeError {
    /// The text is neither a date nor a date and time.
    InvalidDate { value: String },
    /// The day after the date lies beyond the time line.
    DateOutOfRange,
    /// The start lies after the end.
    InvertedRange { since: Timestamp, until: Timestamp },
    /// Neither start nor end was given.
    MissingBound,
}

impl ReportRangeError {
    pub open spec fn wf(self) -> bool {
        self matches ReportRangeError::InvertedRange { since, until } ==> since.wf() && until.wf()
    }

    pub open spec fn text_spec(self) -> Seq<char> {
        match self {
            ReportRangeError::InvalidDate { value } => "invalid report date '"@ + value@
                + "': expected YYYY-MM-DD or RFC3339"@,
            ReportRangeError::DateOutOfRange => "date is out of range"@,
            ReportRangeError::InvertedRange { since, until } => "range start ("@ + rfc3339_text(
                since.secs as int,
                since.nanos as int,
            ) + ") must be earlier than or equal to range end ("@ + rfc3339_text(
                until.secs as int,
                until.nanos as int,
            ) + ")"@,
            ReportRangeError::MissingBound => "provide a range start and/or end"@,
        }
    }

    /// The error in words.
    pub fn text(&self) -> (r: String)
        requires
            self.wf(),
        ensures
            r@ == self.text_spec(),
    {
        match self {
            ReportRangeError::InvalidDate { value } => concat3(
                "invalid report date '",
                value.as_str(),
                "': expected YYYY-MM-DD or RFC3339",
            ),
            ReportRangeError::DateOutOfRange => "date is out of range".to_owned(),
            ReportRangeError::InvertedRange { since, until } => {
                let a = since.to_rfc3339();
                let b = until.to_rfc3339();
                let mut out = concat2("range start (", a.as_str());
                out.append(") must be earlier than or equal to range end (");
                out.append(b.as_str());
                out.append(")");
                out
            },
            ReportRangeError::MissingBound => "provide a range start and/or end".to_owned(),
        }
    }
}

/// What a text says as a bound of a report.
pub enum BoundModel {
    At(Timestamp),
    NoDate,
    TooLate,
}

/// The last nanosecond of a day.
pub open spec fn day_end(day: int) -> Timestamp {
    Timestamp { secs: ((day + 1) * 86_400 - 1) as i64, nanos: 999_999_999 }
}

/// What a text says as a bound: a date and time stands for itself, a plain date
/// for its first instant or, at the end of a range, for its last nanosecond.
pub open spec fn bound_spec(value: Seq<char>, end_of_day: bool) -> BoundModel {
    bound_of(parsed_rfc3339(value), ymd_day(value), end_of_day)
}

/// Whether an error is the one that a text which is no bound gives.
pub open spec fn bound_error(value: Seq<char>, m: BoundModel, e: ReportRangeError) -> bool {
    match m {
        BoundModel::At(_) => false,
        BoundModel::NoDate => e matches ReportRangeError::InvalidDate { value: v } && v@ == value,
        BoundModel::TooLate => e is DateOutOfRange,
    }
}

/// The bound that a date and time, or else a day, stands for.
pub open spec fn bound_of(instant: Option<Timestamp>, day: Option<int>, end_of_day: bool) -> BoundModel {
    match instant {
        Some(t) => BoundModel::At(t),
        None => match day {
            None => BoundModel::NoDate,
            Some(d) => if !end_of_day {
                BoundModel::At(midnight_spec(d))
            } else if d == MAX_DAY {
                BoundModel::TooLate
            } else {
                BoundModel::At(day_end(d))
            },
        },
    }
}

/// The bound that a text stands for which was read as a date and time, or else as
/// a day, counted from 1970-01-01.
pub fn date_bound(
    value: &str,
    instant: Option<Timestamp>,
    day: Option<i64>,
    end_of_calendar_day: bool,
) -> (r: Result<Timestamp, ReportRangeError>)
    requires
        opt_wf(instant),
        day matches Some(d) ==> MIN_DAY <= d <= MAX_DAY,
    ensures
        ({
            let m = bound_of(
                instant,
                match day {
                    Some(d) => Some(d as int),
                    None => None,
                },
                end_of_calendar_day,
            );
            match r {
                Ok(t) => m == BoundModel::At(t) && t.wf(),
                Err(e) => bound_error(value@, m, e),
            }
        }),
{
    match instant {
        Some(t) => return Ok(t),
        None => {},
    }
    match day {
        None => Err(ReportRangeError::InvalidDate { value: value.to_owned() }),
        Some(d) => {
            if !end_of_calendar_day {
                Ok(midnight(d))
            } else if d == MAX_DAY {
                Err(ReportRangeError::DateOutOfRange)
            } else {
                let secs: i64 = (d + 1) * 86_400 - 1;
                Ok(Timestamp { secs, nanos: 999_999_999 })
            }
        },
    }
}

pub fn parse_report_date_bound(value: &str, end_of_calendar_day: bool) -> (r: Result<
    Timestamp,
    ReportRangeError,
>)
    ensures
        match r {
            Ok(t) => bound_spec(value@, end_of_calendar_day) == BoundModel::At(t) && t.wf(),
            Err(e) => bound_error(value@, bound_spec(value@, end_of_calendar_day), e),
        },
{
    let instant = parse_rfc3339(value);
    let day = parse_ymd(value);
    date_bound(value, instant, day, end_of_calendar_day)
}

/// The bound that a text says, with how it was given.
pub open spec fn report_bound(value: Seq<char>, t: Timestamp) -> ReportBound {
    ReportBound { timestamp: t, date_only: parsed_rfc3339(value) is None }
}

fn parse_report_bound(value: &str, end_of_calendar_day: bool) -> (r: Result<
    ReportBound,
    ReportRangeError,
>)
    ensures
        match r {
            Ok(b) => bound_spec(value@, end_of_calendar_day) == BoundModel::At(b.timestamp)
                && b.timestamp.wf() && b == report_bound(value@, b.timestamp),
            Err(e) => bound_error(value@, bound_spec(value@, end_of_calendar_day), e),
        },
{
    let timestamp = match parse_report_date_bound(value, end_of_calendar_day) {
        Ok(t) => t,
        Err(e) => return Err(e),
    };
    let date_only = parse_rfc3339(value).is_none();
    Ok(ReportBound { timestamp, date_only })
}

/// The start that a text gives, where one is given.
pub open spec fn since_of(from: Option<&str>) -> Option<ReportBound> {
    match from {
        Some(v) => match bound_spec(v@, false) {
            BoundModel::At(t) => Some(report_bound(v@, t)),
            _ => None,
        },
        None => None,
    }
}

/// The end that a text gives; `now` where none is given.
pub open spec fn until_of(to: Option<&str>, now: Timestamp) -> ReportBound {
    match to {
        Some(v) => match bound_spec(v@, true) {
            BoundModel::At(t) => report_bound(v@, t),
            _ => ReportBound { timestamp: now, date_only: false },
        },
        None => ReportBound { timestamp: now, date_only: false },
    }
}

pub open spec fn is_bound(o: Option<&str>, end_of_day: bool) -> bool {
    o matches Some(v) ==> bound_spec(v@, end_of_day) is At
}

/// The period between two bounds. A missing end is `now`. Fails where neither is
/// given, and where both are and the start lies after the end.
pub fn period_between(since: Option<ReportBound>, until: Option<ReportBound>, now: Timestamp) -> (r:
    Result<ReportPeriod, ReportRangeError>)
    ensures
        ({
            let end = match until {
                Some(b) => b,
                None => ReportBound { timestamp: now, date_only: false },
            };
            let inverted = since is Some && until is Some && since->0.timestamp.at()
                > end.timestamp.at();
            match r {
                Ok(p) => {
                    &&& since is Some || until is Some
                    &&& !inverted
                    &&& p == (ReportPeriod::Range { since, until: end })
                },
                Err(e) => if since is None && until is None {
                    e is MissingBound
                } else {
                    inverted && e == (ReportRangeError::InvertedRange {
                        since: since->0.timestamp,
                        until: end.timestamp,
                    })
                },
            }
        }),
{
    if since.is_none() && until.is_none() {
        return Err(ReportRangeError::MissingBound);
    }
    let end = match until {
        Some(b) => b,
        None => ReportBound { timestamp: now, date_only: false },
    };
    if until.is_some() {
        if let Some(s) = since {
            if end.timestamp.before(&s.timestamp) {
                return Err(
                    ReportRangeError::InvertedRange {
                        since: s.timestamp,
                        until: end.timestamp,
                    },
                );
            }
        }
    }
    Ok(ReportPeriod::Range { since, until: end })
}

/// The period from an optional start to an optional end. One of them must be
/// given, each must be a bound, and where both are given the start must not be
/// after the end.
pub fn report_period_from_range(from: Option<&str>, to: Option<&str>, now: Timestamp) -> (r: Result<
    ReportPeriod,
    ReportRangeError,
>)
    requires
        now.wf(),
    ensures
        match r {
            Ok(p) => {
                &&& from is Some || to is Some
                &&& is_bound(from, false) && is_bound(to, true)
                &&& p == (ReportPeriod::Range { since: since_of(from), until: until_of(to, now) })
                &&& from is Some && to is Some ==> since_of(from)->0.timestamp.at() <= until_of(
                    to,
                    now,
                ).timestamp.at()
                &&& p.wf()
            },
            Err(e) => if from is None && to is None {
                e is MissingBound
            } else if !is_bound(from, false) {
                bound_error(from->0@, bound_spec(from->0@, false), e)
            } else if !is_bound(to, true) {
                bound_error(to->0@, bound_spec(to->0@, true), e)
            } else {
                &&& from is Some && to is Some
                &&& since_of(from)->0.timestamp.at() > until_of(to, now).timestamp.at()
                &&& e == (ReportRangeError::InvertedRange {
                    since: since_of(from)->0.timestamp,
                    until: until_of(to, now).timestamp,
                })
            },
        },
{
    if from.is_none() && to.is_none() {
        return Err(ReportRangeError::MissingBound);
    }
    let since = match from {
        Some(v) => match parse_report_bound(v, false) {
            Ok(b) => Some(b),
            Err(e) => return Err(e),
        },
        None => None,
    };
    let until = match to {
        Some(v) => match parse_report_bound(v, true) {
            Ok(b) => Some(b),
            Err(e) => return Err(e),
        },
        None => None,
    };
    period_between(since, until, now)
}

pub open spec fn earlier(a: Timestamp, b: Timestamp) -> Timestamp {
    if b.at() < a.at() {
        b
    } else {
        a
    }
}

pub open spec fn bound_text(b: ReportBound) -> Seq<char> {
    if b.date_only {
        day_text(b.timestamp.day_spec())
    } else {
        rfc3339_text(b.timestamp.secs as int, b.timestamp.nanos as int)
    }
}

/// The end as applied: a plain date only where it was not cut short.
pub open spec fn applied_bound(applied: Timestamp, requested: ReportBound) -> ReportBound {
    ReportBound {
        timestamp: applied,
        date_only: requested.date_only && applied == requested.timestamp,
    }
}

fn format_range_bound(bound: ReportBound) -> (r: String)
    requires
        bound.timestamp.wf(),
    ensures
        r@ == bound_text(bound),
{
    if bound.date_only {
        format_day(bound.timestamp.day())
    } else {
        bound.timestamp.to_rfc3339()
    }
}

fn format_applied_until(applied_until: Timestamp, requested: ReportBound) -> (r: String)
    requires
        applied_until.wf(),
    ensures
        r@ == bound_text(applied_bound(applied_until, requested)),
{
    format_range_bound(
        ReportBound {
            timestamp: applied_until,
            date_only: requested.date_only && applied_until == requested.timestamp,
        },
    )
}

impl ReportPeriod {
    pub open spec fn wf(self) -> bool {
        match self {
            ReportPeriod::Range { since, until } => until.timestamp.wf() && (since matches Some(b)
                ==> b.timestamp.wf()),
            _ => true,
        }
    }

    /// Whether the period lies on the time line when seen from `now`.
    pub open spec fn fits(self, now: Timestamp) -> bool {
        match self {
            ReportPeriod::LastDays(d) => MIN_SECONDS <= now.shifted_secs(-d) <= MAX_SECONDS,
            _ => true,
        }
    }

    /// Start and end as seen from `now`; the end is never after `now`.
    pub open spec fn window_spec(self, now: Timestamp) -> (Option<Timestamp>, Timestamp) {
        match self {
            ReportPeriod::LastDays(d) => (Some(now.shifted(-d)), now),
            ReportPeriod::AllTime => (None, now),
            ReportPeriod::Range { since, until } => (
                match since {
                    Some(b) => Some(b.timestamp),
                    None => None,
                },
                earlier(until.timestamp, now),
            ),
        }
    }

    /// Start and end as they are shown: a start after the end is shown at the end.
    pub open spec fn published_spec(self, now: Timestamp) -> (Option<Timestamp>, Timestamp) {
        let w = self.window_spec(now);
        match w.0 {
            Some(s) => if s.at() > w.1.at() {
                (Some(w.1), w.1)
            } else {
                w
            },
            None => w,
        }
    }

    pub open spec fn label_spec(self, now: Timestamp) -> Seq<char> {
        match self {
            ReportPeriod::LastDays(d) => "last "@ + signed_decimal(d as int) + " days"@,
            ReportPeriod::AllTime => "all time"@,
            ReportPeriod::Range { since, until } => {
                let w = self.window_spec(now);
                let end = bound_text(applied_bound(w.1, until));
                match since {
                    Some(s) => if s.timestamp.at() > w.1.at() {
                        if until.timestamp.at() > now.at() {
                            bound_text(s) + " to "@ + bound_text(until) + " (empty)"@
                        } else {
                            "from "@ + bound_text(s) + " (empty)"@
                        }
                    } else {
                        bound_text(s) + " to "@ + end
                    },
                    None => "through "@ + end,
                }
            },
        }
    }

    pub fn window(self, now: Timestamp) -> (r: (Option<Timestamp>, Timestamp))
        requires
            now.wf(),
            self.wf(),
            self.fits(now),
        ensures
            r == self.window_spec(now),
            r.1.wf(),
            opt_wf(r.0),
            r.1.at() <= now.at(),
    {
        match self {
            ReportPeriod::LastDays(d) => {
                proof {
                    assert(d != i64::MIN) by {
                        assert(now.secs >= MIN_SECONDS);
                    }
                }
                match now.plus_days(-d) {
                    Some(start) => (Some(start), now),
                    None => (None, now),
                }
            },
            ReportPeriod::AllTime => (None, now),
            ReportPeriod::Range { since, until } => {
                let start = match since {
                    Some(b) => Some(b.timestamp),
                    None => None,
                };
                (start, until.timestamp.min(now))
            },
        }
    }

    pub fn published_window(self, now: Timestamp) -> (r: (Option<Timestamp>, Timestamp))
        requires
            now.wf(),
            self.wf(),
            self.fits(now),
        ensures
            r == self.published_spec(now),
            r.0 matches Some(s) ==> s.at() <= r.1.at(),
            r.1.wf(),
            opt_wf(r.0),
    {
        let (since, until) = self.window(now);
        match since {
            Some(s) => if until.before(&s) {
                (Some(until), until)
            } else {
                (Some(s), until)
            },
            None => (None, until),
        }
    }

    pub fn label(self, now: Timestamp) -> (r: String)
        requires
            now.wf(),
            self.wf(),
            self.fits(now),
        ensures
            r@ == self.label_spec(now),
    {
        match self {
            ReportPeriod::LastDays(d) => {
                let n = signed_decimal_text(d);
                concat3("last ", n.as_str(), " days")
            },
            ReportPeriod::AllTime => "all time".to_owned(),
            ReportPeriod::Range { since, until } => {
                let (_, applied_until) = self.window(now);
                match since {
                    Some(s) => {
                        let start = format_range_bound(s);
                        if applied_until.before(&s.timestamp) {
                            if now.before(&until.timestamp) {
                                let end = format_range_bound(until);
                                let mut out = concat3(start.as_str(), " to ", end.as_str());
                                out.append(" (empty)");
                                return out;
                            }
                            return concat3("from ", start.as_str(), " (empty)");
                        }
                        let end = format_applied_until(applied_until, until);
                        concat3(start.as_str(), " to ", end.as_str())
                    },
                    None => {
                        let end = format_applied_until(applied_until, until);
                        concat2("through ", end.as_str())
                    },
                }
            },
        }
    }
}

/// What is shown of a period is never inverted and never reaches beyond `now`.
pub proof fn a_published_window_is_never_inverted(period: ReportPeriod, now: Timestamp)
    ensures
        period.published_spec(now).0 matches Some(s) ==> s.at() <= period.published_spec(
            now,
        ).1.at(),
        period.published_spec(now).1.at() <= now.at(),
{
}

/// A range that starts after `now` stays valid and holds no instant.
pub proof fn a_range_that_starts_later_is_empty(
    since: ReportBound,
    until: ReportBound,
    now: Timestamp,
    t: Timestamp,
)
    requires
        since.timestamp.at() > now.at(),
    ensures
        ({
            let w = (ReportPeriod::Range { since: Some(since), until }).window_spec(now);
            !(w.0->0.at() <= t.at() && t.at() <= w.1.at())
        }),
{
}

} // verus!
