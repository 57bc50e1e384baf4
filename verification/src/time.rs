//! Instants on the UTC time line and calendar days.
use crate::calendar::{civil, day_number, is_date, lemma_civil};
use crate::text::{chars_of, decimal, decimal_text};
use chrono::Datelike;
use vstd::prelude::*;

verus! {

/// The first second of the supported time line.
pub const MIN_SECONDS: i64 = -8_334_601_228_800;

/// The last second of the supported time line.
pub const MAX_SECONDS: i64 = 8_210_266_876_799;

/// The first supported day, counted from 1970-01-01.
pub const MIN_DAY: i64 = -96_465_292;

/// The last supported day, counted from 1970-01-01.
pub const MAX_DAY: i64 = 95_026_236;

/// Whether seconds since 1970 and a fraction in nanoseconds name an instant. A
/// fraction of a second or more stands for a leap second, which follows the
/// last second of a minute.
pub open spec fn valid_instant(secs: int, nanos: int) -> bool {
    &&& MIN_SECONDS <= secs <= MAX_SECONDS
    &&& 0 <= nanos
    &&& nanos < 1_000_000_000 || (nanos < 2_000_000_000 && secs % 60 == 59)
}

/// An instant in UTC.
#[derive(Debug, Clone, Copy, PartialEq, Eq, Structural)]
pub struct Timestamp {
    pub secs: i64,
    pub nanos: u32,
}

/// The part of a second behind the point: none, or as many of 3, 6 and 9 digits
/// as it takes.
pub open spec fn fraction_text(nanos: int) -> Seq<char> {
    if nanos == 0 {
        Seq::empty()
    } else if nanos % 1_000_000 == 0 {
        seq!['.'] + zero_padded((nanos / 1_000_000) as nat, 3)
    } else if nanos % 1_000 == 0 {
        seq!['.'] + zero_padded((nanos / 1_000) as nat, 6)
    } else {
        seq!['.'] + zero_padded(nanos as nat, 9)
    }
}

/// An instant in RFC 3339's form, in UTC. Nanoseconds past a whole second are
/// those of a leap second.
pub open spec fn rfc3339_text(secs: int, nanos: int) -> Seq<char> {
    let s = secs % 86_400;
    let leap = if nanos >= 1_000_000_000 {
        1int
    } else {
        0int
    };
    day_text(secs / 86_400) + seq!['T'] + zero_padded((s / 3600) as nat, 2) + seq![':']
        + zero_padded((s / 60 % 60) as nat, 2) + seq![':'] + zero_padded((s % 60 + leap) as nat, 2)
        + fraction_text(nanos - leap * 1_000_000_000) + "+00:00"@
}

/// The instant that `chrono::DateTime::parse_from_rfc3339` reads from a text.
pub uninterp spec fn rfc3339_instant(text: Seq<char>) -> Option<(int, int)>;

/// The day that `chrono::NaiveDate::parse_from_str` reads from a text of the
/// form year, month, day, counted from 1970-01-01.
pub uninterp spec fn ymd_day(text: Seq<char>) -> Option<int>;

impl Timestamp {
    /// Whether this is an instant of the supported time line.
    pub open spec fn wf(self) -> bool {
        valid_instant(self.secs as int, self.nanos as int)
    }

    /// The place on the time line: a greater number is a later instant.
    pub open spec fn at(self) -> int {
        self.secs * 4_294_967_296 + self.nanos
    }

    /// The day that holds the instant, counted from 1970-01-01.
    pub open spec fn day_spec(self) -> int {
        self.secs as int / 86_400
    }

    /// Seconds since 1970 of the instant `days` days later. Leaving a leap second
    /// backwards starts from the second after it.
    pub open spec fn shifted_secs(self, days: int) -> int {
        self.secs + days * 86_400 + if self.nanos >= 1_000_000_000 && days < 0 {
            1int
        } else {
            0int
        }
    }

    /// The instant `days` days later.
    pub open spec fn shifted(self, days: int) -> Timestamp {
        Timestamp {
            secs: self.shifted_secs(days) as i64,
            nanos: if self.nanos >= 1_000_000_000 && days != 0 {
                (self.nanos - 1_000_000_000) as u32
            } else {
                self.nanos
            },
        }
    }

    /// The instant one second later.
    pub open spec fn next_second(self) -> Timestamp {
        Timestamp {
            secs: (self.secs + 1) as i64,
            nanos: if self.nanos >= 1_000_000_000 {
                (self.nanos - 1_000_000_000) as u32
            } else {
                self.nanos
            },
        }
    }

    pub fn new(secs: i64, nanos: u32) -> (r: Option<Timestamp>)
        ensures
            match r {
                Some(t) => t.wf() && t.secs == secs && t.nanos == nanos,
                None => !valid_instant(secs as int, nanos as int),
            },
    {
        if MIN_SECONDS <= secs && secs <= MAX_SECONDS {
            if nanos < 1_000_000_000 {
                return Some(Timestamp { secs, nanos });
            }
            // Non-negative whatever the sign of `secs`.
            let within: i64 = (secs + 60 * 200_000_000_000) % 60;
            if nanos < 2_000_000_000 && within == 59 {
                return Some(Timestamp { secs, nanos });
            }
        }
        None
    }

    pub fn before(&self, other: &Timestamp) -> (r: bool)
        ensures
            r == (self.at() < other.at()),
    {
        self.secs < other.secs || (self.secs == other.secs && self.nanos < other.nanos)
    }

    pub fn not_after(&self, other: &Timestamp) -> (r: bool)
        ensures
            r == (self.at() <= other.at()),
    {
        !other.before(self)
    }

    pub fn min(self, other: Timestamp) -> (r: Timestamp)
        ensures
            r == (if other.at() < self.at() { other } else { self }),
    {
        if other.before(&self) {
            other
        } else {
            self
        }
    }

    pub fn max(self, other: Timestamp) -> (r: Timestamp)
        ensures
            r == (if self.at() > other.at() { self } else { other }),
    {
        if other.before(&self) {
            self
        } else {
            other
        }
    }

    /// The day that holds the instant, counted from 1970-01-01.
    pub fn day(&self) -> (r: i64)
        requires
            self.wf(),
        ensures
            r == self.day_spec(),
            MIN_DAY <= r <= MAX_DAY,
    {
        let shifted: i64 = self.secs + 100_000_000 * 86_400;
        let r: i64 = shifted / 86_400 - 100_000_000;
        proof {
            let s = self.secs as int;
            assert((s + 100_000_000 * 86_400) / 86_400 == s / 86_400 + 100_000_000)
                by (nonlinear_arith);
            assert(-8_334_601_228_800 / 86_400 == -96_465_292);
            assert(8_210_266_876_799int / 86_400 == 95_026_236);
            assert(-96_465_292 <= s / 86_400 <= 95_026_236);
        }
        r
    }

    /// The instant `days` days later, where the time line goes that far.
    pub fn plus_days(&self, days: i64) -> (r: Option<Timestamp>)
        requires
            self.wf(),
        ensures
            match r {
                Some(t) => t.wf() && t == self.shifted(days as int) && MIN_SECONDS
                    <= self.shifted_secs(days as int) <= MAX_SECONDS,
                None => !(MIN_SECONDS <= self.shifted_secs(days as int) <= MAX_SECONDS),
            },
    {
        if days < -300_000_000 || days > 300_000_000 {
            return None;
        }
        let leap: bool = self.nanos >= 1_000_000_000;
        let secs: i64 = self.secs + days * 86_400 + if leap && days < 0 { 1i64 } else { 0i64 };
        if secs < MIN_SECONDS || secs > MAX_SECONDS {
            return None;
        }
        let nanos: u32 = if leap && days != 0 { self.nanos - 1_000_000_000 } else { self.nanos };
        Some(Timestamp { secs, nanos })
    }

    /// The instant one second later.
    pub fn plus_second(&self) -> (r: Timestamp)
        requires
            self.wf(),
            self.secs < MAX_SECONDS,
        ensures
            r == self.next_second(),
            r.wf(),
    {
        let nanos: u32 = if self.nanos >= 1_000_000_000 {
            self.nanos - 1_000_000_000
        } else {
            self.nanos
        };
        Timestamp { secs: self.secs + 1, nanos }
    }

    /// The instant in the form of RFC 3339.
    pub fn to_rfc3339(&self) -> (r: String)
        requires
            self.wf(),
        ensures
            r@ == rfc3339_text(self.secs as int, self.nanos as int),
    {
        format_rfc3339(self.secs, self.nanos)
    }
}

/// The first instant of a day.
pub open spec fn midnight_spec(day: int) -> Timestamp {
    Timestamp { secs: (day * 86_400) as i64, nanos: 0 }
}

/// The first instant of the time line.
pub open spec fn first_instant() -> Timestamp {
    Timestamp { secs: MIN_SECONDS, nanos: 0 }
}

/// The last instant of the time line.
pub open spec fn last_instant() -> Timestamp {
    Timestamp { secs: MAX_SECONDS, nanos: 999_999_999 }
}

pub fn midnight(day: i64) -> (r: Timestamp)
    requires
        MIN_DAY <= day <= MAX_DAY,
    ensures
        r == midnight_spec(day as int),
        r.wf(),
{
    Timestamp { secs: day * 86_400, nanos: 0 }
}

/// `chrono::DateTime::<Utc>::to_rfc3339` on the instant of
/// `chrono::DateTime::from_timestamp`: date and time of day with the offset
/// `+00:00`, and behind the seconds no more digits than the instant needs.
#[verifier::external_body]
fn format_rfc3339(secs: i64, nanos: u32) -> (r: String)
    requires
        valid_instant(secs as int, nanos as int),
    ensures
        r@ == rfc3339_text(secs as int, nanos as int),
{
    chrono::DateTime::<chrono::Utc>::from_timestamp(secs, nanos).unwrap().to_rfc3339()
}

/// `chrono::DateTime::parse_from_rfc3339`: the instant that the text writes, as
/// seconds since 1970 and nanoseconds within the second, or nothing where the
/// text is not of that form.
#[verifier::external_body]
fn read_rfc3339(text: &str) -> (r: Option<(i64, u32)>)
    ensures
        match r {
            Some(p) => rfc3339_instant(text@) == Some((p.0 as int, p.1 as int)) && valid_instant(
                p.0 as int,
                p.1 as int,
            ),
            None => rfc3339_instant(text@) is None,
        },
{
    chrono::DateTime::parse_from_rfc3339(text).ok().map(
        |d| (d.timestamp(), d.timestamp_subsec_nanos()),
    )
}

/// `chrono::NaiveDate::parse_from_str` with the format `%Y-%m-%d`: the day that
/// the text writes, counted from 1970-01-01, or nothing where the text is not of
/// that form. The day is one that `chrono` supports.
#[verifier::external_body]
fn read_ymd(text: &str) -> (r: Option<i64>)
    ensures
        match r {
            Some(d) => ymd_day(text@) == Some(d as int) && MIN_DAY <= d <= MAX_DAY,
            None => ymd_day(text@) is None,
        },
{
    chrono::NaiveDate::parse_from_str(text, "%Y-%m-%d").ok().map(
        |d| d.signed_duration_since(chrono::NaiveDate::default()).num_days(),
    )
}

/// `year`, `month` and `day` of `chrono::Datelike` on the instant of
/// `chrono::DateTime::from_timestamp` so many seconds after 1970-01-01: the date
/// in the proleptic Gregorian calendar of the day that holds the instant, with a
/// year that `chrono` supports.
#[verifier::external_body]
fn read_civil(secs: i64) -> (r: (i32, u32, u32))
    requires
        valid_instant(secs as int, 0),
    ensures
        is_date((r.0 as int, r.1 as int, r.2 as int)),
        day_number((r.0 as int, r.1 as int, r.2 as int)) == secs as int / 86_400,
        -262_143 <= r.0 <= 262_142,
{
    let d = chrono::DateTime::<chrono::Utc>::from_timestamp(secs, 0).unwrap();
    (d.year(), d.month(), d.day())
}

/// Year, month and day of the month of a day counted from 1970-01-01.
pub fn civil_of(day: i64) -> (r: (i32, u32, u32))
    requires
        MIN_DAY <= day <= MAX_DAY,
    ensures
        civil(day as int) == (r.0 as int, r.1 as int, r.2 as int),
        is_date(civil(day as int)),
        day_number(civil(day as int)) == day,
        -262_143 <= r.0 <= 262_142,
        1 <= r.1 <= 12,
        1 <= r.2 <= 31,
{
    let r = read_civil(day * 86_400);
    proof {
        lemma_civil((r.0 as int, r.1 as int, r.2 as int));
    }
    r
}

/// The instant that an RFC 3339 text writes.
pub open spec fn instant_of(p: (int, int)) -> Timestamp {
    Timestamp { secs: p.0 as i64, nanos: p.1 as u32 }
}

pub open spec fn parsed_rfc3339(text: Seq<char>) -> Option<Timestamp> {
    match rfc3339_instant(text) {
        Some(p) => Some(instant_of(p)),
        None => None,
    }
}

pub fn parse_rfc3339(text: &str) -> (r: Option<Timestamp>)
    ensures
        r == parsed_rfc3339(text@),
        r matches Some(t) ==> t.wf(),
{
    match read_rfc3339(text) {
        Some((secs, nanos)) => Some(Timestamp { secs, nanos }),
        None => None,
    }
}

pub fn parse_ymd(text: &str) -> (r: Option<i64>)
    ensures
        match r {
            Some(d) => ymd_day(text@) == Some(d as int) && MIN_DAY <= d <= MAX_DAY,
            None => ymd_day(text@) is None,
        },
{
    read_ymd(text)
}

/// A date, or a date and time, as the command line takes it.
pub open spec fn parsed_date(text: Seq<char>) -> Option<Timestamp> {
    match parsed_rfc3339(text) {
        Some(t) => Some(t),
        None => match ymd_day(text) {
            Some(d) => Some(midnight_spec(d)),
            None => None,
        },
    }
}

/// Reads RFC 3339, or a plain date, which stands for its first instant in UTC.
/// Fails on any other text.
pub fn parse_date(value: &str) -> (r: Option<Timestamp>)
    ensures
        r == parsed_date(value@),
        r matches Some(t) ==> t.wf(),
{
    match parse_rfc3339(value) {
        Some(t) => Some(t),
        None => match parse_ymd(value) {
            Some(d) => Some(midnight(d)),
            None => None,
        },
    }
}

/// `n` in decimal with zeros in front up to the given width.
pub open spec fn zero_padded(n: nat, width: nat) -> Seq<char> {
    let d = decimal(n);
    if d.len() >= width {
        d
    } else {
        Seq::new((width - d.len()) as nat, |i: int| '0') + d
    }
}

pub fn zero_padded_text(n: u64, width: usize) -> (r: String)
    ensures
        r@ == zero_padded(n as nat, width as nat),
{
    let d = decimal_text(n);
    let have: usize = chars_of(d.as_str()).len();
    let mut out = String::new();
    let mut i: usize = have;
    while i < width
        invariant
            have == d@.len(),
            have <= i,
            i <= width || i == have,
            out@ == Seq::new((i - have) as nat, |k: int| '0'),
        decreases width - i,
    {
        out.push('0');
        i = i + 1;
        proof {
            assert(out@ =~= Seq::new((i - have) as nat, |k: int| '0'));
        }
    }
    out.append(d.as_str());
    proof {
        assert(out@ =~= zero_padded(n as nat, width as nat));
    }
    out
}

/// A year as calendar dates write it: four digits from 0 to 9999, otherwise a
/// sign and at least four digits.
pub open spec fn year_text(year: int) -> Seq<char> {
    if 0 <= year <= 9999 {
        zero_padded(year as nat, 4)
    } else if year < 0 {
        seq!['-'] + zero_padded((-year) as nat, 4)
    } else {
        seq!['+'] + zero_padded(year as nat, 4)
    }
}

/// A date, given as year, month and day, in that form.
pub open spec fn date_text(c: (int, int, int)) -> Seq<char> {
    year_text(c.0) + seq!['-'] + zero_padded(c.1 as nat, 2) + seq!['-'] + zero_padded(c.2 as nat, 2)
}

/// A day in the form year, month, day.
pub open spec fn day_text(day: int) -> Seq<char> {
    date_text(civil(day))
}

pub fn format_year(year: i32) -> (r: String)
    requires
        -262_143 <= year <= 262_142,
    ensures
        r@ == year_text(year as int),
{
    let mut out = String::new();
    if 0 <= year && year <= 9999 {
        return zero_padded_text(year as u64, 4);
    }
    let magnitude: u64 = if year < 0 {
        out.push('-');
        (-year) as u64
    } else {
        out.push('+');
        year as u64
    };
    out.append(zero_padded_text(magnitude, 4).as_str());
    proof {
        assert(out@ =~= year_text(year as int));
    }
    out
}

/// A date in the form year, month, day.
pub fn format_date(year: i32, month: u32, day: u32) -> (r: String)
    requires
        -262_143 <= year <= 262_142,
    ensures
        r@ == date_text((year as int, month as int, day as int)),
{
    let mut out = format_year(year);
    out.push('-');
    out.append(zero_padded_text(month as u64, 2).as_str());
    out.push('-');
    out.append(zero_padded_text(day as u64, 2).as_str());
    proof {
        assert(out@ =~= date_text((year as int, month as int, day as int)));
    }
    out
}

pub fn format_day(day: i64) -> (r: String)
    requires
        MIN_DAY <= day <= MAX_DAY,
    ensures
        r@ == day_text(day as int),
{
    let (y, m, d) = civil_of(day);
    format_date(y, m, d)
}

/// Whether an optional instant, where it is there, is one of the time line.
pub open spec fn opt_wf(o: Option<Timestamp>) -> bool {
    o matches Some(t) ==> t.wf()
}

} // verus!
