//! Timestamps and dates as plain integers, read from the session logs'
//! ISO-8601 strings with chrono.
//!
//! A date is its day number counted from the Common Era (January 1 of year 1
//! is day 1, as chrono's `num_days_from_ce` counts). A timestamp is that day
//! number, the seconds since midnight, the nanosecond within the second
//! (at or above one billion during a leap second) and the hour of the day.
use vstd::prelude::*;
use vstd::utf8::{encode_utf8, decode_utf8, is_char_boundary, encode_utf8_decode_utf8};
use chrono::{Datelike, NaiveDate, NaiveDateTime, NaiveTime, Timelike};

verus! {

broadcast use vstd::string::group_string_axioms;

/// Day number of the earliest date chrono can represent.
pub const MIN_DAY: i32 = -95746129;

/// Day number of the latest date chrono can represent.
pub const MAX_DAY: i32 = 95745399;

/// A day number that chrono can turn back into a date.
pub open spec fn valid_day(d: int) -> bool {
    MIN_DAY <= d <= MAX_DAY
}

/// Seconds since midnight and nanosecond that make a chrono time of day:
/// a nanosecond of a billion or more stands for a leap second, which only
/// the last second of a minute can have.
pub open spec fn valid_clock(secs: int, nanos: int) -> bool {
    &&& 0 <= secs < 86_400
    &&& 0 <= nanos < 2_000_000_000
    &&& nanos >= 1_000_000_000 ==> secs % 60 == 59
}

/// What `NaiveDateTime::parse_from_str(s, fmt)` yields, as (day number,
/// seconds since midnight, nanosecond, hour), or `None` when it fails.
pub uninterp spec fn spec_parse_datetime_fmt(s: Seq<char>, fmt: Seq<char>) -> Option<(i32, u32, u32, u32)>;

/// What `NaiveDate::parse_from_str(s, fmt)` yields, as a day number, or
/// `None` when it fails.
pub uninterp spec fn spec_parse_date_fmt(s: Seq<char>, fmt: Seq<char>) -> Option<i32>;

/// What `(to - from).num_seconds()` gives for the two chrono date-times
/// with these (day number, seconds since midnight, nanosecond) parts.
pub uninterp spec fn spec_seconds_between(from: (i32, u32, u32), to: (i32, u32, u32)) -> i64;

/// What chrono's `format(fmt).to_string()` renders for the date with this
/// day number.
pub uninterp spec fn spec_format_day(day: i32, fmt: Seq<char>) -> Seq<char>;

/// Calls `NaiveDateTime::parse_from_str` and takes the parsed value apart.
/// Claims: the result is the named parse result, and every date-time that
/// chrono builds lies in its date range and has a valid time of day (the
/// invariant that chrono's `NaiveDate` and `NaiveTime` constructors keep).
#[verifier::external_body]
fn naive_datetime_parse(s: &str, fmt: &str) -> (r: Option<(i32, u32, u32, u32)>)
    ensures
        r == spec_parse_datetime_fmt(s@, fmt@),
        r matches Some(t) ==> valid_day(t.0 as int) && valid_clock(t.1 as int, t.2 as int),
{
    match NaiveDateTime::parse_from_str(s, fmt) {
        Ok(dt) => Some((dt.num_days_from_ce(), dt.num_seconds_from_midnight(), dt.nanosecond(), dt.hour())),
        Err(_) => None,
    }
}

/// Calls `NaiveDate::parse_from_str`. Claims: the result is the named parse
/// result, and a parsed date lies in chrono's date range.
#[verifier::external_body]
fn naive_date_parse(s: &str, fmt: &str) -> (r: Option<i32>)
    ensures
        r == spec_parse_date_fmt(s@, fmt@),
        r matches Some(d) ==> valid_day(d as int),
{
    match NaiveDate::parse_from_str(s, fmt) {
        Ok(d) => Some(d.num_days_from_ce()),
        Err(_) => None,
    }
}

/// Rebuilds two chrono date-times from their parts and calls `Sub` on them,
/// then `TimeDelta::num_seconds`. Claims only that the result is the named
/// value; the parts must be ones that chrono accepts back.
#[verifier::external_body]
fn naive_seconds_between(from: (i32, u32, u32), to: (i32, u32, u32)) -> (r: i64)
    requires
        valid_day(from.0 as int),
        valid_clock(from.1 as int, from.2 as int),
        valid_day(to.0 as int),
        valid_clock(to.1 as int, to.2 as int),
    ensures
        r == spec_seconds_between(from, to),
{
    let a = NaiveDateTime::new(
        NaiveDate::from_num_days_from_ce_opt(from.0).unwrap(),
        NaiveTime::from_num_seconds_from_midnight_opt(from.1, from.2).unwrap(),
    );
    let b = NaiveDateTime::new(
        NaiveDate::from_num_days_from_ce_opt(to.0).unwrap(),
        NaiveTime::from_num_seconds_from_midnight_opt(to.1, to.2).unwrap(),
    );
    (b - a).num_seconds()
}

/// Rebuilds the date with this day number and calls chrono's `format`, then
/// `to_string`. Claims only that the result is the named rendering; only the
/// two formats this crate uses are admitted.
#[verifier::external_body]
fn naive_format_day(day: i32, fmt: &str) -> (r: String)
    requires
        valid_day(day as int),
        fmt@ == "%b %d"@ || fmt@ == "%b %d, %Y"@,
    ensures
        r@ == spec_format_day(day, fmt@),
{
    NaiveDate::from_num_days_from_ce_opt(day).unwrap().format(fmt).to_string()
}

/// A moment read from a log line.
#[derive(Clone, Copy, PartialEq, Eq, Debug)]
pub struct Timestamp {
    /// Day number of the date.
    pub day: i32,
    /// Seconds since midnight.
    pub secs: u32,
    /// Nanosecond within the second (a billion or more in a leap second).
    pub nanos: u32,
    /// Hour of the day.
    pub hour: u32,
}

impl Timestamp {
    /// The parts that order timestamps and that chrono needs back.
    pub open spec fn key(self) -> (i32, u32, u32) {
        (self.day, self.secs, self.nanos)
    }

    /// The timestamp is one that chrono can rebuild.
    pub open spec fn valid(self) -> bool {
        valid_day(self.day as int) && valid_clock(self.secs as int, self.nanos as int)
    }

    /// `self` is strictly earlier than `other`: by day, then second, then
    /// nanosecond (the order of chrono's `NaiveDateTime`).
    pub open spec fn before(self, other: Timestamp) -> bool {
        ||| self.day < other.day
        ||| self.day == other.day && self.secs < other.secs
        ||| self.day == other.day && self.secs == other.secs && self.nanos < other.nanos
    }

    /// Whether `self` is strictly earlier than `other`.
    pub fn is_before(&self, other: &Timestamp) -> (r: bool)
        ensures
            r == self.before(*other),
    {
        self.day < other.day || (self.day == other.day && (self.secs < other.secs || (self.secs
            == other.secs && self.nanos < other.nanos)))
    }
}

pub open spec fn stamp_of(t: (i32, u32, u32, u32)) -> Timestamp {
    Timestamp { day: t.0, secs: t.1, nanos: t.2, hour: t.3 }
}

/// The format of timestamps with a fractional second.
pub open spec fn fmt_fraction() -> Seq<char> {
    "%Y-%m-%dT%H:%M:%S%.fZ"@
}

/// The format of timestamps with whole seconds.
pub open spec fn fmt_whole() -> Seq<char> {
    "%Y-%m-%dT%H:%M:%SZ"@
}

/// The format of a date.
pub open spec fn fmt_date() -> Seq<char> {
    "%Y-%m-%d"@
}

/// The moment a log timestamp names: read with a fractional second first,
/// then with whole seconds.
pub open spec fn spec_parse_datetime(ts: Seq<char>) -> Option<Timestamp> {
    match spec_parse_datetime_fmt(ts, fmt_fraction()) {
        Some(t) => Some(stamp_of(t)),
        None => match spec_parse_datetime_fmt(ts, fmt_whole()) {
            Some(t) => Some(stamp_of(t)),
            None => None,
        },
    }
}

/// Reads a log timestamp such as `2026-03-10T14:47:23.886Z`.
pub fn parse_datetime(ts: &str) -> (r: Option<Timestamp>)
    ensures
        r == spec_parse_datetime(ts@),
        r matches Some(t) ==> t.valid(),
{
    match naive_datetime_parse(ts, "%Y-%m-%dT%H:%M:%S%.fZ") {
        Some(t) => Some(Timestamp { day: t.0, secs: t.1, nanos: t.2, hour: t.3 }),
        None => match naive_datetime_parse(ts, "%Y-%m-%dT%H:%M:%SZ") {
            Some(t) => Some(Timestamp { day: t.0, secs: t.1, nanos: t.2, hour: t.3 }),
            None => None,
        },
    }
}

/// The first ten bytes of the text can be cut off: either there are fewer
/// than ten, or the tenth ends a character. (Its byte length fits in
/// memory, as that of any text held by a program does.)
pub open spec fn date_prefix_cuttable(ts: Seq<char>) -> bool {
    &&& encode_utf8(ts).len() <= usize::MAX
    &&& encode_utf8(ts).len() < 10 || is_char_boundary(encode_utf8(ts), 10)
}

/// The date that the first ten bytes of a log timestamp name.
pub open spec fn spec_parse_date(ts: Seq<char>) -> Option<i32> {
    if encode_utf8(ts).len() < 10 {
        None
    } else {
        spec_parse_date_fmt(decode_utf8(encode_utf8(ts).subrange(0, 10)), fmt_date())
    }
}

/// Reads the date at the start of a log timestamp (`YYYY-MM-DD`). Cutting
/// the text at a byte inside a character would panic, so such text is
/// excluded.
pub fn parse_date(ts: &str) -> (r: Option<i32>)
    requires
        date_prefix_cuttable(ts@),
    ensures
        r == spec_parse_date(ts@),
        r matches Some(d) ==> valid_day(d as int),
{
    if ts.len() < 10 {
        return None;
    }
    let (head, _rest) = ts.split_at(10);
    proof {
        encode_utf8_decode_utf8(head@);
        assert(head@ == decode_utf8(encode_utf8(ts@).subrange(0, 10)));
    }
    naive_date_parse(head, "%Y-%m-%d")
}

/// Whole seconds from `from` to `to`, rounded toward zero, as chrono counts
/// them (leap seconds included).
pub fn seconds_between(from: &Timestamp, to: &Timestamp) -> (r: i64)
    requires
        from.valid(),
        to.valid(),
    ensures
        r == spec_seconds_between(from.key(), to.key()),
{
    naive_seconds_between((from.day, from.secs, from.nanos), (to.day, to.secs, to.nanos))
}

/// The label of a day on the chart, e.g. `Mar 10`.
pub fn day_label(day: i32) -> (r: String)
    requires
        valid_day(day as int),
    ensures
        r@ == spec_format_day(day, "%b %d"@),
{
    naive_format_day(day, "%b %d")
}

/// A date written out in full, e.g. `Mar 10, 2026`.
pub fn day_long(day: i32) -> (r: String)
    requires
        valid_day(day as int),
    ensures
        r@ == spec_format_day(day, "%b %d, %Y"@),
{
    naive_format_day(day, "%b %d, %Y")
}

} // verus!
