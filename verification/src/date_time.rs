//! The calendar-date, time-of-day and timezone-offset value types that the
//! date/time grammar produces, with their range invariants and accessors.
//!
//! Sub-second time fields hold cumulative totals since the start of the
//! minute (the millisecond field of `T06:05:04.321` is `4321`), not a bare
//! fractional remainder; the accessors divide back down.

use vstd::prelude::*;

verus! {

/// A calendar date at one of five granularities.  Month and week forms are
/// mutually exclusive; a day requires a month or week to be present.
#[derive(Copy, Clone, Debug, Eq, Hash, PartialEq, Ord, PartialOrd, Structural)]
pub enum Date {
    Year { y: u16 },
    YearMonth { y: u16, mo: u8 },
    YearMonthDay { y: u16, mo: u8, d: u8 },
    YearWeek { y: u16, w: u8 },
    YearWeekDay { y: u16, w: u8, d: u8 },
}

impl Date {
    /// The ranges the grammar permits: year 1..=9999, month 1..=12,
    /// week 1..=53, day 1..=31, weekday 1..=7.
    pub open spec fn wf(self) -> bool {
        match self {
            Date::Year { y } => 1 <= y <= 9999,
            Date::YearMonth { y, mo } => 1 <= y <= 9999 && 1 <= mo <= 12,
            Date::YearMonthDay { y, mo, d } => 1 <= y <= 9999 && 1 <= mo <= 12 && 1 <= d <= 31,
            Date::YearWeek { y, w } => 1 <= y <= 9999 && 1 <= w <= 53,
            Date::YearWeekDay { y, w, d } => 1 <= y <= 9999 && 1 <= w <= 53 && 1 <= d <= 7,
        }
    }

    /// True when the date carries a day or weekday component; only such
    /// dates may be combined with a time of day.
    pub open spec fn has_day(self) -> bool {
        self is YearMonthDay || self is YearWeekDay
    }

    pub open spec fn spec_year(self) -> Option<u16> {
        match self {
            Date::Year { y } => Some(y),
            Date::YearMonth { y, .. } => Some(y),
            Date::YearMonthDay { y, .. } => Some(y),
            Date::YearWeek { y, .. } => Some(y),
            Date::YearWeekDay { y, .. } => Some(y),
        }
    }

    pub open spec fn spec_month(self) -> Option<u8> {
        match self {
            Date::YearMonth { mo, .. } => Some(mo),
            Date::YearMonthDay { mo, .. } => Some(mo),
            _ => None,
        }
    }

    pub open spec fn spec_week(self) -> Option<u8> {
        match self {
            Date::YearWeek { w, .. } => Some(w),
            Date::YearWeekDay { w, .. } => Some(w),
            _ => None,
        }
    }

    pub open spec fn spec_day(self) -> Option<u8> {
        match self {
            Date::YearMonthDay { d, .. } => Some(d),
            Date::YearWeekDay { d, .. } => Some(d),
            _ => None,
        }
    }

    #[must_use]
    pub fn year(&self) -> (r: Option<u16>)
        ensures
            r == self.spec_year(),
    {
        match self {
            Date::Year { y }
            | Date::YearMonth { y, .. }
            | Date::YearMonthDay { y, .. }
            | Date::YearWeek { y, .. }
            | Date::YearWeekDay { y, .. } => Some(*y),
        }
    }

    #[must_use]
    pub fn month(&self) -> (r: Option<u8>)
        ensures
            r == self.spec_month(),
    {
        match self {
            Date::Year { .. } | Date::YearWeek { .. } | Date::YearWeekDay { .. } => None,
            Date::YearMonth { mo, .. } | Date::YearMonthDay { mo, .. } => Some(*mo),
        }
    }

    #[must_use]
    pub fn week(&self) -> (r: Option<u8>)
        ensures
            r == self.spec_week(),
    {
        match self {
            Date::Year { .. } | Date::YearMonth { .. } | Date::YearMonthDay { .. } => None,
            Date::YearWeek { w, .. } | Date::YearWeekDay { w, .. } => Some(*w),
        }
    }

    #[must_use]
    pub fn day(&self) -> (r: Option<u8>)
        ensures
            r == self.spec_day(),
    {
        match self {
            Date::Year { .. } | Date::YearMonth { .. } | Date::YearWeek { .. } => None,
            Date::YearMonthDay { d, .. } | Date::YearWeekDay { d, .. } => Some(*d),
        }
    }
}

/// A time of day at one of six granularities.  Each sub-second field is the
/// cumulative total since the start of the minute, so a leap second keeps
/// its sub-second digits (second 60 with 999 milliseconds is `ms == 60_999`).
#[derive(Copy, Clone, Debug, Eq, Hash, PartialEq, Ord, PartialOrd, Structural)]
pub enum Time {
    Hour { h: u8 },
    HourMinute { h: u8, m: u8 },
    HourMinuteSecond { h: u8, m: u8, s: u8 },
    HourMinuteMillisecond { h: u8, m: u8, ms: u16 },
    HourMinuteMicrosecond { h: u8, m: u8, us: u32 },
    HourMinuteNanosecond { h: u8, m: u8, ns: u64 },
}

impl Time {
    /// The ranges the grammar permits: hour 0..=23, minute 0..=59, and the
    /// seconds column 0..=60 (60 for leap seconds), so the cumulative
    /// sub-second totals stay below 61 of their unit.
    pub open spec fn wf(self) -> bool {
        match self {
            Time::Hour { h } => h <= 23,
            Time::HourMinute { h, m } => h <= 23 && m <= 59,
            Time::HourMinuteSecond { h, m, s } => h <= 23 && m <= 59 && s <= 60,
            Time::HourMinuteMillisecond { h, m, ms } => h <= 23 && m <= 59 && ms <= 60_999,
            Time::HourMinuteMicrosecond { h, m, us } => h <= 23 && m <= 59 && us <= 60_999_999,
            Time::HourMinuteNanosecond { h, m, ns } => h <= 23 && m <= 59 && ns <= 60_999_999_999,
        }
    }

    pub open spec fn spec_hour(self) -> Option<u8> {
        match self {
            Time::Hour { h } => Some(h),
            Time::HourMinute { h, .. } => Some(h),
            Time::HourMinuteSecond { h, .. } => Some(h),
            Time::HourMinuteMillisecond { h, .. } => Some(h),
            Time::HourMinuteMicrosecond { h, .. } => Some(h),
            Time::HourMinuteNanosecond { h, .. } => Some(h),
        }
    }

    pub open spec fn spec_minute(self) -> Option<u8> {
        match self {
            Time::Hour { .. } => None,
            Time::HourMinute { m, .. } => Some(m),
            Time::HourMinuteSecond { m, .. } => Some(m),
            Time::HourMinuteMillisecond { m, .. } => Some(m),
            Time::HourMinuteMicrosecond { m, .. } => Some(m),
            Time::HourMinuteNanosecond { m, .. } => Some(m),
        }
    }

    /// The whole seconds implied by the finest field present.
    pub open spec fn spec_second(self) -> Option<u8> {
        match self {
            Time::Hour { .. } | Time::HourMinute { .. } => None,
            Time::HourMinuteSecond { s, .. } => Some(s),
            Time::HourMinuteMillisecond { ms, .. } => Some((ms / 1000) as u8),
            Time::HourMinuteMicrosecond { us, .. } => Some((us / 1_000_000) as u8),
            Time::HourMinuteNanosecond { ns, .. } => Some((ns / 1_000_000_000) as u8),
        }
    }

    /// The cumulative milliseconds implied by the finest field present.
    pub open spec fn spec_millisecond(self) -> Option<u16> {
        match self {
            Time::Hour { .. } | Time::HourMinute { .. } | Time::HourMinuteSecond { .. } => None,
            Time::HourMinuteMillisecond { ms, .. } => Some(ms),
            Time::HourMinuteMicrosecond { us, .. } => Some((us / 1000) as u16),
            Time::HourMinuteNanosecond { ns, .. } => Some((ns / 1_000_000) as u16),
        }
    }

    /// The cumulative microseconds implied by the finest field present.
    pub open spec fn spec_microsecond(self) -> Option<u32> {
        match self {
            Time::Hour { .. }
            | Time::HourMinute { .. }
            | Time::HourMinuteSecond { .. }
            | Time::HourMinuteMillisecond { .. } => None,
            Time::HourMinuteMicrosecond { us, .. } => Some(us),
            Time::HourMinuteNanosecond { ns, .. } => Some((ns / 1000) as u32),
        }
    }

    pub open spec fn spec_nanosecond(self) -> Option<u64> {
        match self {
            Time::HourMinuteNanosecond { ns, .. } => Some(ns),
            _ => None,
        }
    }

    #[must_use]
    pub fn hour(&self) -> (r: Option<u8>)
        ensures
            r == self.spec_hour(),
    {
        match self {
            Time::Hour { h, .. }
            | Time::HourMinute { h, .. }
            | Time::HourMinuteSecond { h, .. }
            | Time::HourMinuteMillisecond { h, .. }
            | Time::HourMinuteMicrosecond { h, .. }
            | Time::HourMinuteNanosecond { h, .. } => Some(*h),
        }
    }

    #[must_use]
    pub fn minute(&self) -> (r: Option<u8>)
        ensures
            r == self.spec_minute(),
    {
        match self {
            Time::Hour { .. } => None,
            Time::HourMinute { m, .. }
            | Time::HourMinuteSecond { m, .. }
            | Time::HourMinuteMillisecond { m, .. }
            | Time::HourMinuteMicrosecond { m, .. }
            | Time::HourMinuteNanosecond { m, .. } => Some(*m),
        }
    }

    #[must_use]
    pub fn second(&self) -> (r: Option<u8>)
        requires
            self.wf(),
        ensures
            r == self.spec_second(),
    {
        match self {
            Time::Hour { .. } | Time::HourMinute { .. } => None,
            Time::HourMinuteSecond { s, .. } => Some(*s),
            Time::HourMinuteMillisecond { ms, .. } => Some((*ms / 1000) as u8),
            Time::HourMinuteMicrosecond { us, .. } => Some((*us / 1_000_000) as u8),
            Time::HourMinuteNanosecond { ns, .. } => Some((*ns / 1_000_000_000) as u8),
        }
    }

    #[must_use]
    pub fn millisecond(&self) -> (r: Option<u16>)
        requires
            self.wf(),
        ensures
            r == self.spec_millisecond(),
    {
        match self {
            Time::Hour { .. } | Time::HourMinute { .. } | Time::HourMinuteSecond { .. } => None,
            Time::HourMinuteMillisecond { ms, .. } => Some(*ms),
            Time::HourMinuteMicrosecond { us, .. } => Some((*us / 1000) as u16),
            Time::HourMinuteNanosecond { ns, .. } => Some((*ns / 1_000_000) as u16),
        }
    }

    #[must_use]
    pub fn microsecond(&self) -> (r: Option<u32>)
        requires
            self.wf(),
        ensures
            r == self.spec_microsecond(),
    {
        match self {
            Time::Hour { .. }
            | Time::HourMinute { .. }
            | Time::HourMinuteSecond { .. }
            | Time::HourMinuteMillisecond { .. } => None,
            Time::HourMinuteMicrosecond { us, .. } => Some(*us),
            Time::HourMinuteNanosecond { ns, .. } => Some((*ns / 1000) as u32),
        }
    }

    #[must_use]
    pub fn nanosecond(&self) -> (r: Option<u64>)
        ensures
            r == self.spec_nanosecond(),
    {
        match self {
            Time::Hour { .. }
            | Time::HourMinute { .. }
            | Time::HourMinuteSecond { .. }
            | Time::HourMinuteMillisecond { .. }
            | Time::HourMinuteMicrosecond { .. } => None,
            Time::HourMinuteNanosecond { ns, .. } => Some(*ns),
        }
    }
}

/// A timezone offset: signed hour and minutes-past-that-hour.  A zero
/// offset is spelled `Z` on the wire; only one country has ever used a
/// `-00xx` offset, so the sign lives on the hour alone.
#[derive(Copy, Clone, Debug, Eq, Hash, PartialEq, Ord, PartialOrd, Structural)]
pub struct TzOffset {
    pub h: i8,
    pub m: u8,
}

impl TzOffset {
    /// The ranges the decode grammar permits: hour -23..=23, minute 0..=59.
    pub open spec fn wf(self) -> bool {
        -23 <= self.h <= 23 && self.m <= 59
    }
}

/// Any legal combination of a date, a time and a timezone offset.  A date
/// without a day component never combines with a time.
#[derive(Copy, Clone, Debug, Eq, Hash, PartialEq, Ord, PartialOrd, Structural)]
pub enum DateTimeTzOffset {
    Date(Date),
    DateTime(Date, Time),
    DateTz(Date, TzOffset),
    DateTimeTz(Date, Time, TzOffset),
    Time(Time),
    TimeTz(Time, TzOffset),
}

impl DateTimeTzOffset {
    /// Component ranges hold and a day-less date is never paired with a time.
    pub open spec fn wf(self) -> bool {
        match self {
            DateTimeTzOffset::Date(d) => d.wf(),
            DateTimeTzOffset::DateTime(d, t) => d.wf() && t.wf() && d.has_day(),
            DateTimeTzOffset::DateTz(d, z) => d.wf() && z.wf(),
            DateTimeTzOffset::DateTimeTz(d, t, z) => d.wf() && t.wf() && z.wf() && d.has_day(),
            DateTimeTzOffset::Time(t) => t.wf(),
            DateTimeTzOffset::TimeTz(t, z) => t.wf() && z.wf(),
        }
    }

    pub open spec fn spec_date(self) -> Option<Date> {
        match self {
            DateTimeTzOffset::Date(d) => Some(d),
            DateTimeTzOffset::DateTime(d, _) => Some(d),
            DateTimeTzOffset::DateTz(d, _) => Some(d),
            DateTimeTzOffset::DateTimeTz(d, _, _) => Some(d),
            DateTimeTzOffset::Time(..) => None,
            DateTimeTzOffset::TimeTz(..) => None,
        }
    }

    pub open spec fn spec_time(self) -> Option<Time> {
        match self {
            DateTimeTzOffset::Date(..) => None,
            DateTimeTzOffset::DateTz(..) => None,
            DateTimeTzOffset::DateTime(_, t) => Some(t),
            DateTimeTzOffset::DateTimeTz(_, t, _) => Some(t),
            DateTimeTzOffset::Time(t) => Some(t),
            DateTimeTzOffset::TimeTz(t, _) => Some(t),
        }
    }

    pub open spec fn spec_tz_offset(self) -> Option<TzOffset> {
        match self {
            DateTimeTzOffset::Date(..) => None,
            DateTimeTzOffset::DateTime(..) => None,
            DateTimeTzOffset::Time(..) => None,
            DateTimeTzOffset::DateTz(_, z) => Some(z),
            DateTimeTzOffset::DateTimeTz(_, _, z) => Some(z),
            DateTimeTzOffset::TimeTz(_, z) => Some(z),
        }
    }

    #[must_use]
    pub fn date(&self) -> (r: Option<&Date>)
        ensures
            match r {
                Some(d) => self.spec_date() == Some(*d),
                None => self.spec_date() is None,
            },
    {
        match self {
            DateTimeTzOffset::Date(d)
            | DateTimeTzOffset::DateTime(d, _)
            | DateTimeTzOffset::DateTz(d, _)
            | DateTimeTzOffset::DateTimeTz(d, _, _) => Some(d),
            DateTimeTzOffset::Time(..) | DateTimeTzOffset::TimeTz(..) => None,
        }
    }

    #[must_use]
    pub fn time(&self) -> (r: Option<&Time>)
        ensures
            match r {
                Some(t) => self.spec_time() == Some(*t),
                None => self.spec_time() is None,
            },
    {
        match self {
            DateTimeTzOffset::Date(..) | DateTimeTzOffset::DateTz(..) => None,
            DateTimeTzOffset::DateTime(_, t)
            | DateTimeTzOffset::DateTimeTz(_, t, _)
            | DateTimeTzOffset::Time(t)
            | DateTimeTzOffset::TimeTz(t, _) => Some(t),
        }
    }

    #[must_use]
    pub fn tz_offset(&self) -> (r: Option<&TzOffset>)
        ensures
            match r {
                Some(z) => self.spec_tz_offset() == Some(*z),
                None => self.spec_tz_offset() is None,
            },
    {
        match self {
            DateTimeTzOffset::Date(..)
            | DateTimeTzOffset::DateTime(..)
            | DateTimeTzOffset::Time(..) => None,
            DateTimeTzOffset::DateTz(_, z)
            | DateTimeTzOffset::DateTimeTz(_, _, z)
            | DateTimeTzOffset::TimeTz(_, z) => Some(z),
        }
    }
}

} // verus!
