//! The wire grammar, stated as specification functions over byte sequences.
//!
//! Each `spec_consume_*` function says exactly what the corresponding decoder
//! method returns on a given remaining input: the decoded value and the number
//! of bytes consumed, or the error reason.  Each `*_text` function gives the
//! single canonical spelling of a value, which is what the encoder emits.
//! The decoder accepts a spelling if and only if it is canonical, so the two
//! directions are related by the round-trip lemmas in `laws`.

use vstd::prelude::*;

use crate::decode::ErrorReason;

verus! {

// ASCII byte values of the grammar's terminal characters.
pub const UC_T: u8 = 0x54;
pub const UC_F: u8 = 0x46;
pub const UC_D: u8 = 0x44;
pub const UC_W: u8 = 0x57;
pub const UC_Z: u8 = 0x5a;
pub const UC_B: u8 = 0x42;
pub const UC_S: u8 = 0x53;
pub const D0: u8 = 0x30;
pub const D9: u8 = 0x39;
pub const LC_A: u8 = 0x61;
pub const LC_F: u8 = 0x66;
pub const HYPHEN: u8 = 0x2d;
pub const UNDERSCORE: u8 = 0x5f;
pub const COMMA: u8 = 0x2c;
pub const OPEN_BRACKET: u8 = 0x5b;
pub const CLOSE_BRACKET: u8 = 0x5d;
pub const QUOTE: u8 = 0x22;
pub const BACKSLASH: u8 = 0x5c;
pub const PLUS: u8 = 0x2b;
pub const TILDE: u8 = 0x7e;
pub const COLON: u8 = 0x3a;
pub const PERIOD: u8 = 0x2e;

pub open spec fn is_digit(b: u8) -> bool {
    D0 <= b <= D9
}

pub open spec fn digit_val(b: u8) -> int {
    b - D0
}

/// The decoder caps every diagnostic snapshot at 30 bytes.
pub open spec fn window_cap(s: Seq<u8>) -> Seq<u8> {
    if s.len() <= 30 {
        s
    } else {
        s.take(30)
    }
}

/// What the item-closing step does after a value's own bytes: at top level it
/// demands end of input (failing with the production's malformed reason); in
/// a list it consumes a `,`, leaves a `]` or end of input for the caller, and
/// rejects anything else.  Returns the number of separator bytes consumed.
pub open spec fn spec_close_item(s: Seq<u8>, depth: nat, reason: ErrorReason) -> Result<
    int,
    ErrorReason,
> {
    if depth == 0 {
        if s.len() == 0 {
            Ok(0)
        } else {
            Err(reason)
        }
    } else {
        if s.len() == 0 {
            Ok(0)
        } else if s[0] == COMMA {
            Ok(1)
        } else if s[0] == CLOSE_BRACKET {
            Ok(0)
        } else {
            Err(ErrorReason::ExpectedListSeparator)
        }
    }
}

/// Runs the item-closing step after a successfully parsed value, adding the
/// separator bytes it consumed to the value's own count.
pub open spec fn then_close_item<V>(
    s: Seq<u8>,
    depth: nat,
    reason: ErrorReason,
    r: Result<(V, int), ErrorReason>,
) -> Result<(V, int), ErrorReason> {
    match r {
        Ok((v, n)) => match spec_close_item(s.skip(n), depth, reason) {
            Ok(k) => Ok((v, n + k)),
            Err(e) => Err(e),
        },
        Err(e) => Err(e),
    }
}

// ---------------------------------------------------------------------------
// Booleans
// ---------------------------------------------------------------------------

pub open spec fn spec_bool_value(s: Seq<u8>) -> Result<(bool, int), ErrorReason> {
    if s.len() >= 1 && s[0] == UC_T {
        Ok((true, 1))
    } else if s.len() >= 1 && s[0] == UC_F {
        Ok((false, 1))
    } else {
        Err(ErrorReason::ExpectedBool)
    }
}

pub open spec fn spec_consume_bool(s: Seq<u8>, depth: nat) -> Result<(bool, int), ErrorReason> {
    then_close_item(s, depth, ErrorReason::MalformedBool, spec_bool_value(s))
}

// ---------------------------------------------------------------------------
// Integers
// ---------------------------------------------------------------------------

/// One step per byte of the digit-and-underscore run, mirroring the decoder's
/// accumulator: `group` counts digits since the last underscore (or the
/// start), `value` carries the signed total so far.  A digit after a
/// leading zero is rejected, as is an accumulator leaving `i64`.  Stops,
/// without consuming it, at the first byte that is neither a digit nor `_`.
/// Returns the value, whether an underscore was seen, the final group
/// length, and the stop index.
pub open spec fn spec_int_scan(
    s: Seq<u8>,
    i: int,
    sign: int,
    seen_us: bool,
    group: int,
    value: int,
) -> Result<(int, bool, int, int), ErrorReason>
    decreases s.len() - i,
{
    if i < 0 || i >= s.len() || !(is_digit(s[i]) || s[i] == UNDERSCORE) {
        Ok((value, seen_us, group, i))
    } else if is_digit(s[i]) {
        let next = value * 10 + sign * digit_val(s[i]);
        if !(i64::MIN <= value * 10 <= i64::MAX) {
            Err(ErrorReason::IntegerTooLarge)
        } else if !(i64::MIN <= next <= i64::MAX) {
            Err(ErrorReason::IntegerTooLarge)
        } else if value == 0 && group >= 1 {
            Err(ErrorReason::ExpectedSingleZero)
        } else {
            spec_int_scan(s, i + 1, sign, seen_us, group + 1, next)
        }
    } else {
        if seen_us && group != 3 {
            Err(ErrorReason::IncorrectDigitGrouping)
        } else if !seen_us && (value == 0 || group > 3) {
            Err(ErrorReason::IncorrectDigitGrouping)
        } else {
            spec_int_scan(s, i + 1, sign, true, 0, value)
        }
    }
}

/// Whether the integer spelling opens with a minus sign.
pub open spec fn int_neg(s: Seq<u8>) -> bool {
    s.len() >= 1 && s[0] == HYPHEN
}

/// The index where the digit run starts: after the sign, if any.
pub open spec fn int_start(s: Seq<u8>) -> int {
    if int_neg(s) {
        1
    } else {
        0
    }
}

pub open spec fn int_sign(s: Seq<u8>) -> int {
    if int_neg(s) {
        -1
    } else {
        1
    }
}

/// A whole integer: optional `-`, then the scan, then the end-of-run checks
/// in the decoder's order.  The result value always lies in `i64`.
pub open spec fn spec_integer_value(s: Seq<u8>) -> Result<(int, int), ErrorReason> {
    let neg = int_neg(s);
    match spec_int_scan(s, int_start(s), int_sign(s), false, 0, 0) {
        Ok((value, seen_us, group, end)) => {
            if value == 0 && group == 0 {
                Err(ErrorReason::ExpectedInteger)
            } else if seen_us && group != 3 {
                Err(ErrorReason::IncorrectDigitGrouping)
            } else if !seen_us && group > 3 {
                Err(ErrorReason::IncorrectDigitGrouping)
            } else if neg && value == 0 {
                Err(ErrorReason::NegativeZero)
            } else {
                Ok((value, end))
            }
        },
        Err(e) => Err(e),
    }
}

pub open spec fn spec_consume_integer(s: Seq<u8>, depth: nat) -> Result<(int, int), ErrorReason> {
    then_close_item(s, depth, ErrorReason::MalformedInteger, spec_integer_value(s))
}

// ---------------------------------------------------------------------------
// Strings and their escapes
// ---------------------------------------------------------------------------

/// The bytes that must appear escaped inside a quoted string: controls,
/// the quote, the backslash and DEL.
pub open spec fn must_escape(b: u8) -> bool {
    b <= 0x1f || b == QUOTE || b == BACKSLASH || b == 0x7f
}

/// Escapes are spelled with lowercase hex digits only.
pub open spec fn is_lower_hex(b: u8) -> bool {
    is_digit(b) || LC_A <= b <= LC_F
}

pub open spec fn hex_val(b: u8) -> int {
    if is_digit(b) {
        b - D0
    } else {
        b - LC_A + 10
    }
}

/// The position of the first `"` at or after `i`, ending the string.
pub open spec fn find_quote(s: Seq<u8>, i: int) -> Option<int>
    decreases s.len() - i,
{
    if i < 0 || i >= s.len() {
        None
    } else if s[i] == QUOTE {
        Some(i)
    } else {
        find_quote(s, i + 1)
    }
}

/// Unescaping the span between the quotes: a `\` must be followed by two
/// lowercase hex digits spelling a byte of the restricted set; every other
/// byte passes through.  An error carries its own diagnostic bytes.
pub open spec fn spec_unescape(s: Seq<u8>) -> Result<Seq<u8>, (ErrorReason, Seq<u8>)>
    decreases s.len(),
{
    if s.len() == 0 {
        Ok(Seq::empty())
    } else if s[0] != BACKSLASH {
        match spec_unescape(s.skip(1)) {
            Ok(t) => Ok(seq![s[0]] + t),
            Err(e) => Err(e),
        }
    } else if s.len() < 3 {
        Err((ErrorReason::IncompleteEscapeSequence, seq![BACKSLASH] + s.skip(1) + seq![QUOTE]))
    } else if !(is_lower_hex(s[1]) && is_lower_hex(s[2])) {
        Err((ErrorReason::InvalidEscapeSequence, s.take(3)))
    } else {
        let b = (16 * hex_val(s[1]) + hex_val(s[2])) as u8;
        if must_escape(b) {
            match spec_unescape(s.skip(3)) {
                Ok(t) => Ok(seq![b] + t),
                Err(e) => Err(e),
            }
        } else {
            Err((ErrorReason::InvalidEscapeSequence, s.take(3)))
        }
    }
}

/// A quoted string: find the closing quote, demand the span be UTF-8,
/// unescape it, and decode the unescaped bytes to characters.  An error
/// with `None` diagnostics uses the decoder's window snapshot.
pub open spec fn spec_string_value(s: Seq<u8>) -> Result<
    (Seq<char>, int),
    (ErrorReason, Option<Seq<u8>>),
> {
    if !(s.len() >= 1 && s[0] == QUOTE) {
        Err((ErrorReason::ExpectedString, None))
    } else {
        match find_quote(s, 1) {
            None => Err((ErrorReason::UnclosedString, None)),
            Some(close) => {
                let span = s.subrange(1, close);
                if !vstd::utf8::valid_utf8(span) {
                    Err((ErrorReason::NotUtf8, None))
                } else {
                    match spec_unescape(span) {
                        Err((re, d)) => Err((re, Some(d))),
                        Ok(un) => if !vstd::utf8::valid_utf8(un) {
                            Err((ErrorReason::NotUtf8, None))
                        } else {
                            Ok((vstd::utf8::decode_utf8(un), close + 1))
                        },
                    }
                }
            },
        }
    }
}

/// A quoted string, then the item-closing step.
pub open spec fn spec_consume_string(s: Seq<u8>, depth: nat) -> Result<
    (Seq<char>, int),
    (ErrorReason, Option<Seq<u8>>),
> {
    match spec_string_value(s) {
        Err(e) => Err(e),
        Ok((cs, n)) => match spec_close_item(s.skip(n), depth, ErrorReason::MalformedString) {
            Ok(k) => Ok((cs, n + k)),
            Err(re) => Err((re, None)),
        },
    }
}

// ---------------------------------------------------------------------------
// Dates, times and timezone offsets
// ---------------------------------------------------------------------------

/// Bytes that may legally follow a complete date/time component: the start
/// of a timezone offset, a list separator, a list close, or (elsewhere
/// checked) end of input.
pub open spec fn tz_or_end(b: u8) -> bool {
    b == UC_Z || b == PLUS || b == TILDE || b == COMMA || b == CLOSE_BRACKET
}

pub open spec fn has2(s: Seq<u8>, i: int) -> bool {
    s.len() >= i + 2 && is_digit(s[i]) && is_digit(s[i + 1])
}

pub open spec fn val2(s: Seq<u8>, i: int) -> int {
    10 * digit_val(s[i]) + digit_val(s[i + 1])
}

pub open spec fn has3(s: Seq<u8>, i: int) -> bool {
    s.len() >= i + 3 && is_digit(s[i]) && is_digit(s[i + 1]) && is_digit(s[i + 2])
}

pub open spec fn val3(s: Seq<u8>, i: int) -> int {
    100 * digit_val(s[i]) + 10 * digit_val(s[i + 1]) + digit_val(s[i + 2])
}

/// `D` and four digits, followed by a legal continuation byte or the end;
/// year 0 is out of range.
pub open spec fn spec_year(s: Seq<u8>) -> Result<(int, int), ErrorReason> {
    if !(s.len() >= 1 && s[0] == UC_D) {
        Err(ErrorReason::ExpectedYear)
    } else if !(s.len() >= 5 && is_digit(s[1]) && is_digit(s[2]) && is_digit(s[3]) && is_digit(
        s[4],
    )) {
        Err(ErrorReason::MalformedDate)
    } else if s.len() > 5 && !(s[5] == HYPHEN || tz_or_end(s[5])) {
        Err(ErrorReason::MalformedDate)
    } else {
        let y = 1000 * digit_val(s[1]) + 100 * digit_val(s[2]) + 10 * digit_val(s[3]) + digit_val(
            s[4],
        );
        if y < 1 {
            Err(ErrorReason::YearOutOfRange)
        } else {
            Ok((y, 5))
        }
    }
}

/// `-` and two digits, not starting with `W`; month 1..=12.
pub open spec fn spec_month(s: Seq<u8>) -> Result<(int, int), ErrorReason> {
    if !(s.len() >= 1 && s[0] == HYPHEN) {
        Err(ErrorReason::ExpectedMonth)
    } else if s.len() < 2 {
        Err(ErrorReason::MalformedDate)
    } else if s[1] == UC_W {
        Err(ErrorReason::ExpectedMonth)
    } else if !has2(s, 1) {
        Err(ErrorReason::MalformedDate)
    } else if s.len() > 3 && !(s[3] == HYPHEN || tz_or_end(s[3])) {
        Err(ErrorReason::MalformedDate)
    } else {
        let mo = val2(s, 1);
        if 1 <= mo <= 12 {
            Ok((mo, 3))
        } else {
            Err(ErrorReason::MonthOutOfRange)
        }
    }
}

/// `-W` and two digits; week 1..=53.
pub open spec fn spec_week(s: Seq<u8>) -> Result<(int, int), ErrorReason> {
    if !(s.len() >= 1 && s[0] == HYPHEN) {
        Err(ErrorReason::ExpectedWeek)
    } else if s.len() < 2 {
        Err(ErrorReason::MalformedDate)
    } else if is_digit(s[1]) {
        Err(ErrorReason::ExpectedWeek)
    } else if s[1] != UC_W {
        Err(ErrorReason::MalformedDate)
    } else if !has2(s, 2) {
        Err(ErrorReason::MalformedDate)
    } else if s.len() > 4 && !(s[4] == HYPHEN || tz_or_end(s[4])) {
        Err(ErrorReason::MalformedDate)
    } else {
        let w = val2(s, 2);
        if 1 <= w <= 53 {
            Ok((w, 4))
        } else {
            Err(ErrorReason::WeekOutOfRange)
        }
    }
}

/// `-` and two digits after a month; day 1..=31.  A time may follow.
pub open spec fn spec_day(s: Seq<u8>) -> Result<(int, int), ErrorReason> {
    if !(s.len() >= 1 && s[0] == HYPHEN) {
        Err(ErrorReason::ExpectedDay)
    } else if !has2(s, 1) {
        Err(ErrorReason::MalformedDate)
    } else if s.len() > 3 && !(s[3] == UC_T || tz_or_end(s[3])) {
        Err(ErrorReason::MalformedDate)
    } else {
        let d = val2(s, 1);
        if 1 <= d <= 31 {
            Ok((d, 3))
        } else {
            Err(ErrorReason::DayOutOfRange)
        }
    }
}

/// `-` and two digits after a week: the weekday, 1..=7.  A time may
/// follow.
pub open spec fn spec_week_day(s: Seq<u8>) -> Result<(int, int), ErrorReason> {
    if !(s.len() >= 1 && s[0] == HYPHEN) {
        Err(ErrorReason::ExpectedDay)
    } else if !has2(s, 1) {
        Err(ErrorReason::MalformedDate)
    } else if s.len() > 3 && !(s[3] == UC_T || tz_or_end(s[3])) {
        Err(ErrorReason::MalformedDate)
    } else {
        let d = val2(s, 1);
        if 1 <= d <= 7 {
            Ok((d, 3))
        } else {
            Err(ErrorReason::DayOutOfRange)
        }
    }
}

/// A whole date: year, then optionally a month or a week, then optionally a
/// day or weekday, each introduced by `-`.
#[verifier::opaque]
pub open spec fn spec_date(s: Seq<u8>) -> Result<(crate::date_time::Date, int), ErrorReason> {
    match spec_year(s) {
        Err(e) => Err(e),
        Ok((y, n)) => if !(n < s.len() && s[n] == HYPHEN) {
            Ok((crate::date_time::Date::Year { y: y as u16 }, n))
        } else if n + 1 < s.len() && s[n + 1] == UC_W {
            match spec_week(s.skip(n)) {
                Err(e) => Err(e),
                Ok((w, k)) => if !(n + k < s.len() && s[n + k] == HYPHEN) {
                    Ok((crate::date_time::Date::YearWeek { y: y as u16, w: w as u8 }, n + k))
                } else {
                    match spec_week_day(s.skip(n + k)) {
                        Err(e) => Err(e),
                        Ok((d, j)) => Ok(
                            (
                                crate::date_time::Date::YearWeekDay {
                                    y: y as u16,
                                    w: w as u8,
                                    d: d as u8,
                                },
                                n + k + j,
                            ),
                        ),
                    }
                },
            }
        } else {
            match spec_month(s.skip(n)) {
                Err(e) => Err(e),
                Ok((mo, k)) => if !(n + k < s.len() && s[n + k] == HYPHEN) {
                    Ok((crate::date_time::Date::YearMonth { y: y as u16, mo: mo as u8 }, n + k))
                } else {
                    match spec_day(s.skip(n + k)) {
                        Err(e) => Err(e),
                        Ok((d, j)) => Ok(
                            (
                                crate::date_time::Date::YearMonthDay {
                                    y: y as u16,
                                    mo: mo as u8,
                                    d: d as u8,
                                },
                                n + k + j,
                            ),
                        ),
                    }
                },
            }
        },
    }
}

/// `T` and two digits; hour 0..=23.
pub open spec fn spec_hour(s: Seq<u8>) -> Result<(int, int), ErrorReason> {
    if !(s.len() >= 1 && s[0] == UC_T) {
        Err(ErrorReason::ExpectedHour)
    } else if !has2(s, 1) {
        Err(ErrorReason::MalformedTime)
    } else if s.len() > 3 && !(s[3] == COLON || tz_or_end(s[3])) {
        Err(ErrorReason::MalformedTime)
    } else {
        let h = val2(s, 1);
        if h <= 23 {
            Ok((h, 3))
        } else {
            Err(ErrorReason::HourOutOfRange)
        }
    }
}

/// `:` and two digits; minute 0..=59.
pub open spec fn spec_minute(s: Seq<u8>) -> Result<(int, int), ErrorReason> {
    if !(s.len() >= 1 && s[0] == COLON) {
        Err(ErrorReason::ExpectedMinute)
    } else if !has2(s, 1) {
        Err(ErrorReason::MalformedTime)
    } else if s.len() > 3 && !(s[3] == COLON || tz_or_end(s[3])) {
        Err(ErrorReason::MalformedTime)
    } else {
        let m = val2(s, 1);
        if m <= 59 {
            Ok((m, 3))
        } else {
            Err(ErrorReason::MinuteOutOfRange)
        }
    }
}

/// `:` and two digits; second 0..=60 (60 for leap seconds).
pub open spec fn spec_second(s: Seq<u8>) -> Result<(int, int), ErrorReason> {
    if !(s.len() >= 1 && s[0] == COLON) {
        Err(ErrorReason::ExpectedSecond)
    } else if !has2(s, 1) {
        Err(ErrorReason::MalformedTime)
    } else if s.len() > 3 && !(s[3] == PERIOD || tz_or_end(s[3])) {
        Err(ErrorReason::MalformedTime)
    } else {
        let sec = val2(s, 1);
        if sec <= 60 {
            Ok((sec, 3))
        } else {
            Err(ErrorReason::SecondOutOfRange)
        }
    }
}

/// `.` and three digits: the millisecond part within the current second.
pub open spec fn spec_millisecond(s: Seq<u8>) -> Result<(int, int), ErrorReason> {
    if !(s.len() >= 1 && s[0] == PERIOD) {
        Err(ErrorReason::ExpectedMillisecond)
    } else if !has3(s, 1) {
        Err(ErrorReason::MalformedTime)
    } else if s.len() > 4 && !(s[4] == UNDERSCORE || tz_or_end(s[4])) {
        Err(ErrorReason::MalformedTime)
    } else {
        Ok((val3(s, 1), 4))
    }
}

/// `_` and three digits: the microsecond part within the current millisecond.
pub open spec fn spec_microsecond(s: Seq<u8>) -> Result<(int, int), ErrorReason> {
    if !(s.len() >= 1 && s[0] == UNDERSCORE) {
        Err(ErrorReason::ExpectedMicrosecond)
    } else if !has3(s, 1) {
        Err(ErrorReason::MalformedTime)
    } else if s.len() > 4 && !(s[4] == UNDERSCORE || tz_or_end(s[4])) {
        Err(ErrorReason::MalformedTime)
    } else {
        Ok((val3(s, 1), 4))
    }
}

/// `_` and three digits: the nanosecond part within the current microsecond.
pub open spec fn spec_nanosecond(s: Seq<u8>) -> Result<(int, int), ErrorReason> {
    if !(s.len() >= 1 && s[0] == UNDERSCORE) {
        Err(ErrorReason::ExpectedNanosecond)
    } else if !has3(s, 1) {
        Err(ErrorReason::MalformedTime)
    } else if s.len() > 4 && !tz_or_end(s[4]) {
        Err(ErrorReason::MalformedTime)
    } else {
        Ok((val3(s, 1), 4))
    }
}

/// The sub-second refinements after a complete second: `.` brings
/// milliseconds, then `_` microseconds, then `_` nanoseconds, each group
/// folding into a cumulative total since the start of the minute.
pub open spec fn spec_time_subsec(s: Seq<u8>, h: int, m: int, sec: int, p2: int) -> Result<
    (crate::date_time::Time, int),
    ErrorReason,
> {
    match spec_millisecond(s.skip(p2)) {
        Err(e) => Err(e),
        Ok((ms3, k3)) => {
            let ms = 1000 * sec + ms3;
            let p3 = p2 + k3;
            if !(p3 < s.len() && s[p3] == UNDERSCORE) {
                Ok(
                    (
                        crate::date_time::Time::HourMinuteMillisecond {
                            h: h as u8,
                            m: m as u8,
                            ms: ms as u16,
                        },
                        p3,
                    ),
                )
            } else {
                match spec_microsecond(s.skip(p3)) {
                    Err(e) => Err(e),
                    Ok((us3, k4)) => {
                        let us = 1000 * ms + us3;
                        let p4 = p3 + k4;
                        if !(p4 < s.len() && s[p4] == UNDERSCORE) {
                            Ok(
                                (
                                    crate::date_time::Time::HourMinuteMicrosecond {
                                        h: h as u8,
                                        m: m as u8,
                                        us: us as u32,
                                    },
                                    p4,
                                ),
                            )
                        } else {
                            match spec_nanosecond(s.skip(p4)) {
                                Err(e) => Err(e),
                                Ok((ns3, k5)) => Ok(
                                    (
                                        crate::date_time::Time::HourMinuteNanosecond {
                                            h: h as u8,
                                            m: m as u8,
                                            ns: (1000 * us + ns3) as u64,
                                        },
                                        p4 + k5,
                                    ),
                                ),
                            }
                        }
                    },
                }
            }
        },
    }
}

/// The chain after a complete minute: an optional second and its sub-second
/// refinements.
pub open spec fn spec_time_after_minute(s: Seq<u8>, h: int, m: int, p1: int) -> Result<
    (crate::date_time::Time, int),
    ErrorReason,
> {
    if !(p1 < s.len() && s[p1] == COLON) {
        Ok((crate::date_time::Time::HourMinute { h: h as u8, m: m as u8 }, p1))
    } else {
        match spec_second(s.skip(p1)) {
            Err(e) => Err(e),
            Ok((sec, k2)) => {
                let p2 = p1 + k2;
                if !(p2 < s.len() && s[p2] == PERIOD) {
                    Ok(
                        (
                            crate::date_time::Time::HourMinuteSecond {
                                h: h as u8,
                                m: m as u8,
                                s: sec as u8,
                            },
                            p2,
                        ),
                    )
                } else {
                    spec_time_subsec(s, h, m, sec, p2)
                }
            },
        }
    }
}

/// A whole time of day: hour, then optional minute, second and sub-second
/// refinements; each sub-second field accumulates into a total since the
/// start of the minute.
#[verifier::opaque]
pub open spec fn spec_time(s: Seq<u8>) -> Result<(crate::date_time::Time, int), ErrorReason> {
    match spec_hour(s) {
        Err(e) => Err(e),
        Ok((h, n)) => if !(n < s.len() && s[n] == COLON) {
            Ok((crate::date_time::Time::Hour { h: h as u8 }, n))
        } else {
            match spec_minute(s.skip(n)) {
                Err(e) => Err(e),
                Ok((m, k1)) => spec_time_after_minute(s, h, m, n + k1),
            }
        },
    }
}

/// A timezone offset: `Z`, or `+`/`~`, two hour digits and an optional
/// `:` with two minute digits.  The two canonicalization rules are decode
/// errors: a zero offset must be `Z`, and zero minutes must be omitted.
/// A byte that continues a date or time instead fails with `entry_reason`.
#[verifier::opaque]
pub open spec fn spec_tz(s: Seq<u8>, entry_reason: ErrorReason) -> Result<
    ((int, int), int),
    ErrorReason,
> {
    if s.len() == 0 {
        Err(ErrorReason::ExpectedTzOffset)
    } else if s[0] == HYPHEN || s[0] == UC_T || s[0] == COLON || s[0] == PERIOD || s[0]
        == UNDERSCORE {
        Err(entry_reason)
    } else if s[0] == COMMA || s[0] == CLOSE_BRACKET {
        Err(ErrorReason::ExpectedTzOffset)
    } else if s[0] == UC_Z {
        Ok(((0, 0), 1))
    } else if !(s[0] == PLUS || s[0] == TILDE) {
        Err(ErrorReason::MalformedTimeZoneOffset)
    } else {
        let sign: int = if s[0] == PLUS {
            1
        } else {
            -1
        };
        if !has2(s, 1) {
            Err(ErrorReason::MalformedTimeZoneOffset)
        } else {
            let h = sign * val2(s, 1);
            if !(-23 <= h <= 23) {
                Err(ErrorReason::TimezoneOffsetHourOutOfRange)
            } else if 3 < s.len() && s[3] == COLON {
                if !has2(s, 4) {
                    Err(ErrorReason::MalformedTimeZoneOffset)
                } else if s.len() > 6 && !(s[6] == COMMA || s[6] == CLOSE_BRACKET) {
                    Err(ErrorReason::MalformedTimeZoneOffset)
                } else {
                    let m = val2(s, 4);
                    if m > 59 {
                        Err(ErrorReason::TimezoneOffsetMinuteOutOfRange)
                    } else if h == 0 && m == 0 {
                        Err(ErrorReason::ZeroTimeZoneOffsetShouldBeZ)
                    } else if m == 0 {
                        Err(ErrorReason::ZeroTimeZoneMinutesShouldBeOmitted)
                    } else {
                        Ok(((h, m), 6))
                    }
                }
            } else if s.len() <= 3 || s[3] == COMMA || s[3] == CLOSE_BRACKET {
                if h == 0 {
                    Err(ErrorReason::ZeroTimeZoneOffsetShouldBeZ)
                } else {
                    Ok(((h, 0), 3))
                }
            } else {
                Err(ErrorReason::MalformedTimeZoneOffset)
            }
        }
    }
}

/// Which composite variant an optional date, time and offset assemble into.
/// A date and a time without an offset make a `DateTime`, and so on; at
/// least one of date and time is always present where this is applied.
pub open spec fn spec_assemble(
    opt_date: Option<crate::date_time::Date>,
    opt_time: Option<crate::date_time::Time>,
    opt_tz: Option<crate::date_time::TzOffset>,
) -> crate::date_time::DateTimeTzOffset {
    match (opt_date, opt_time, opt_tz) {
        (Some(d), None, None) => crate::date_time::DateTimeTzOffset::Date(d),
        (Some(d), Some(t), None) => crate::date_time::DateTimeTzOffset::DateTime(d, t),
        (Some(d), None, Some(z)) => crate::date_time::DateTimeTzOffset::DateTz(d, z),
        (Some(d), Some(t), Some(z)) => crate::date_time::DateTimeTzOffset::DateTimeTz(d, t, z),
        (None, Some(t), None) => crate::date_time::DateTimeTzOffset::Time(t),
        (None, Some(t), Some(z)) => crate::date_time::DateTimeTzOffset::TimeTz(t, z),
        (None, None, _) => crate::date_time::DateTimeTzOffset::Time(
            crate::date_time::Time::Hour { h: 0 },
        ),
    }
}

/// The composite after the date and time parts: reject an empty composite
/// and a day-less date paired with a time, then take the optional timezone
/// offset and run the item-closing step.  Counts bytes from `s2`, the input
/// after the date and time.
pub open spec fn spec_dtz_after_time(
    s2: Seq<u8>,
    opt_date: Option<crate::date_time::Date>,
    opt_time: Option<crate::date_time::Time>,
    depth: nat,
) -> Result<(crate::date_time::DateTimeTzOffset, int), ErrorReason> {
    if opt_date is None && opt_time is None {
        Err(ErrorReason::ExpectedDateOrTime)
    } else if (match opt_date {
        Some(d) => !d.has_day(),
        None => false,
    }) && opt_time is Some {
        Err(ErrorReason::MalformedDateTimeTzOffset)
    } else {
        let no_tz = s2.len() == 0 || s2[0] == COMMA || s2[0] == CLOSE_BRACKET;
        if no_tz {
            match spec_close_item(s2, depth, ErrorReason::MalformedDateTimeTzOffset) {
                Err(e) => Err(e),
                Ok(k) => Ok((spec_assemble(opt_date, opt_time, None), k)),
            }
        } else {
            match spec_tz(s2, ErrorReason::ExpectedTzOffset) {
                Err(e) => Err(e),
                Ok(((zh, zm), n3)) => match spec_close_item(
                    s2.skip(n3),
                    depth,
                    ErrorReason::MalformedDateTimeTzOffset,
                ) {
                    Err(e) => Err(e),
                    Ok(k) => Ok(
                        (
                            spec_assemble(
                                opt_date,
                                opt_time,
                                Some(crate::date_time::TzOffset { h: zh as i8, m: zm as u8 }),
                            ),
                            n3 + k,
                        ),
                    ),
                },
            }
        }
    }
}

/// The composite after the date part: an optional time, then the rest.
/// Counts bytes from `s1`, the input after the date.
pub open spec fn spec_dtz_after_date(
    s1: Seq<u8>,
    opt_date: Option<crate::date_time::Date>,
    depth: nat,
) -> Result<(crate::date_time::DateTimeTzOffset, int), ErrorReason> {
    if s1.len() >= 1 && s1[0] == UC_T {
        match spec_time(s1) {
            Err(e) => Err(e),
            Ok((t, n2)) => match spec_dtz_after_time(s1.skip(n2), opt_date, Some(t), depth) {
                Err(e) => Err(e),
                Ok((v, n)) => Ok((v, n2 + n)),
            },
        }
    } else {
        spec_dtz_after_time(s1, opt_date, None, depth)
    }
}

/// The composite production: an optional date, an optional time (never after
/// a day-less date), an optional timezone offset, then the item-closing
/// step.  At least a date or a time must be present.
///
/// A deliberate nuance of the error taxonomy: a `T` standing directly
/// after a day-less date fails inside the date itself, as `MalformedDate`
/// (the year, month and week productions do not admit `T` as a follower),
/// so the `MalformedDateTimeTzOffset` of the pairing rule is reached only
/// when the time appears after the offset or separator, as in a trailing
/// time after `Z`.
pub open spec fn spec_consume_date_time_tz(s: Seq<u8>, depth: nat) -> Result<
    (crate::date_time::DateTimeTzOffset, int),
    ErrorReason,
> {
    if s.len() >= 1 && s[0] == UC_D {
        match spec_date(s) {
            Err(e) => Err(e),
            Ok((d, n1)) => match spec_dtz_after_date(s.skip(n1), Some(d), depth) {
                Err(e) => Err(e),
                Ok((v, n)) => Ok((v, n1 + n)),
            },
        }
    } else {
        spec_dtz_after_date(s, None, depth)
    }
}

// ---------------------------------------------------------------------------
// Lists
// ---------------------------------------------------------------------------

/// Opening a list consumes a single `[`; no item-closing step runs.
pub open spec fn spec_consume_list_open(s: Seq<u8>) -> Result<int, ErrorReason> {
    if s.len() >= 1 && s[0] == OPEN_BRACKET {
        Ok(1)
    } else {
        Err(ErrorReason::ExpectedList)
    }
}

/// Closing a list consumes `]`, then runs the item-closing step at the
/// still-undecremented depth, so the `]` of an enclosing list may follow.
pub open spec fn spec_consume_list_close(s: Seq<u8>, depth: nat) -> Result<int, ErrorReason> {
    if depth == 0 {
        Err(ErrorReason::NotInList)
    } else if !(s.len() >= 1 && s[0] == CLOSE_BRACKET) {
        Err(ErrorReason::ExpectedListEnd)
    } else {
        match spec_close_item(s.skip(1), depth, ErrorReason::MalformedListEnd) {
            Ok(k) => Ok(1 + k),
            Err(e) => Err(e),
        }
    }
}

/// The non-consuming lookahead: false only at end of input or before `]`.
pub open spec fn spec_has_another_list_item(s: Seq<u8>) -> bool {
    s.len() >= 1 && s[0] != CLOSE_BRACKET
}

// ---------------------------------------------------------------------------
// Canonical digit strings
// ---------------------------------------------------------------------------

/// The decimal digits of `n`, most significant first, no leading zero except
/// for `n == 0` itself.
pub open spec fn digits(n: nat) -> Seq<u8>
    decreases n,
{
    if n < 10 {
        seq![(D0 + n) as u8]
    } else {
        digits(n / 10) + seq![(D0 + n % 10) as u8]
    }
}

/// Exactly two digits, zero padded.
pub open spec fn pad2(n: nat) -> Seq<u8> {
    seq![(D0 + (n / 10) % 10) as u8, (D0 + n % 10) as u8]
}

/// Exactly four digits, zero padded.
pub open spec fn pad4(n: nat) -> Seq<u8> {
    seq![
        (D0 + (n / 1000) % 10) as u8,
        (D0 + (n / 100) % 10) as u8,
        (D0 + (n / 10) % 10) as u8,
        (D0 + n % 10) as u8,
    ]
}

/// Exactly three digits, zero padded.
pub open spec fn pad3(n: nat) -> Seq<u8> {
    seq![(D0 + (n / 100) % 10) as u8, (D0 + (n / 10) % 10) as u8, (D0 + n % 10) as u8]
}

/// The canonical grouped digit run of a non-negative integer: runs of three
/// digits from the least significant end, separated by `_`, with only the
/// leftmost run shorter.
pub open spec fn int_text_nat(n: nat) -> Seq<u8>
    decreases n,
{
    if n < 1000 {
        digits(n)
    } else {
        int_text_nat(n / 1000) + seq![UNDERSCORE] + pad3(n % 1000)
    }
}

/// The canonical spelling of a signed integer.
pub open spec fn int_text(v: int) -> Seq<u8> {
    if v < 0 {
        seq![HYPHEN] + int_text_nat((-v) as nat)
    } else {
        int_text_nat(v as nat)
    }
}

// ---------------------------------------------------------------------------
// Canonical texts the encoder emits
// ---------------------------------------------------------------------------

/// The lowercase hex digit for a value 0..=15.
pub open spec fn hex_digit(n: int) -> u8 {
    if n < 10 {
        (D0 + n) as u8
    } else {
        (LC_A + n - 10) as u8
    }
}

/// How one byte appears inside a quoted string: bytes of the restricted
/// set as `\` and two lowercase hex digits, all others as themselves.
pub open spec fn esc_byte(b: u8) -> Seq<u8> {
    if must_escape(b) {
        seq![BACKSLASH, hex_digit(b as int / 16), hex_digit(b as int % 16)]
    } else {
        seq![b]
    }
}

/// A whole string body, byte for byte.
pub open spec fn escape_bytes(s: Seq<u8>) -> Seq<u8>
    decreases s.len(),
{
    if s.len() == 0 {
        Seq::empty()
    } else {
        esc_byte(s[0]) + escape_bytes(s.skip(1))
    }
}

/// One byte of a byte string: two lowercase hex digits, no separator.
pub open spec fn hex_pair(b: u8) -> Seq<u8> {
    seq![hex_digit(b as int / 16), hex_digit(b as int % 16)]
}

pub open spec fn hex_bytes(s: Seq<u8>) -> Seq<u8>
    decreases s.len(),
{
    if s.len() == 0 {
        Seq::empty()
    } else {
        hex_pair(s[0]) + hex_bytes(s.skip(1))
    }
}

pub open spec fn zeroes(n: int) -> Seq<u8> {
    Seq::new(n as nat, |i: int| D0)
}

/// Digit grouping counted from the left, as in a decimal's fractional
/// part: an `_` before every third digit after the first three.
pub open spec fn group_left_from(ds: Seq<u8>, i: int) -> Seq<u8>
    decreases ds.len() - i,
{
    if i < 0 || i >= ds.len() {
        Seq::empty()
    } else if i > 0 && i % 3 == 0 {
        seq![UNDERSCORE, ds[i]] + group_left_from(ds, i + 1)
    } else {
        seq![ds[i]] + group_left_from(ds, i + 1)
    }
}

pub open spec fn group_left(ds: Seq<u8>) -> Seq<u8> {
    group_left_from(ds, 0)
}

/// Digit grouping counted from the right, as in an integer: an `_` before
/// every digit whose distance from the end is a positive multiple of three.
pub open spec fn group_right_from(ds: Seq<u8>, i: int) -> Seq<u8>
    decreases ds.len() - i,
{
    if i < 0 || i >= ds.len() {
        Seq::empty()
    } else if i > 0 && (ds.len() - i) % 3 == 0 {
        seq![UNDERSCORE, ds[i]] + group_right_from(ds, i + 1)
    } else {
        seq![ds[i]] + group_right_from(ds, i + 1)
    }
}

pub open spec fn group_right(ds: Seq<u8>) -> Seq<u8> {
    group_right_from(ds, 0)
}

/// The canonical decimal spelling of `mantissa * 10^exponent`: exactly one
/// `.`, the integer part grouped from the right, the fractional part
/// grouped from the left, and a zero mantissa still rendering every digit
/// position the exponent implies.
pub open spec fn decimal_text(v: int, e: int) -> Seq<u8> {
    if v == 0 && e >= 0 {
        seq![D0, PERIOD, D0]
    } else if v == 0 {
        seq![D0, PERIOD] + group_left(zeroes(-e))
    } else {
        let sign: Seq<u8> = if v < 0 {
            seq![HYPHEN]
        } else {
            Seq::empty()
        };
        let ds = digits(abs(v) as nat);
        let len = ds.len() as int;
        if e >= 0 {
            sign + group_right(ds + zeroes(e)) + seq![PERIOD, D0]
        } else if len > -e {
            sign + group_right(ds.take(len + e)) + seq![PERIOD] + group_left(ds.skip(len + e))
        } else {
            sign + seq![D0, PERIOD] + group_left(zeroes(-e - len) + ds)
        }
    }
}

// ---------------------------------------------------------------------------
// Canonical texts of date and time components
// ---------------------------------------------------------------------------

/// `D` and the year, zero padded to the grammar's four digits.
pub open spec fn year_text(y: int) -> Seq<u8> {
    seq![UC_D] + pad4(y as nat)
}

pub open spec fn month_text(mo: int) -> Seq<u8> {
    seq![HYPHEN] + pad2(mo as nat)
}

pub open spec fn day_text(d: int) -> Seq<u8> {
    seq![HYPHEN] + pad2(d as nat)
}

pub open spec fn week_text(w: int) -> Seq<u8> {
    seq![HYPHEN, UC_W] + pad2(w as nat)
}

pub open spec fn weekday_text(d: int) -> Seq<u8> {
    seq![HYPHEN] + pad2(d as nat)
}

pub open spec fn hour_text(h: int) -> Seq<u8> {
    seq![UC_T] + pad2(h as nat)
}

pub open spec fn minute_text(m: int) -> Seq<u8> {
    seq![COLON] + pad2(m as nat)
}

pub open spec fn second_text(sec: int) -> Seq<u8> {
    seq![COLON] + pad2(sec as nat)
}

/// The seconds column and the millisecond group of a cumulative
/// millisecond total.
pub open spec fn ms_text(ms: int) -> Seq<u8> {
    seq![COLON] + pad2((ms / 1000) as nat) + seq![PERIOD] + pad3((ms % 1000) as nat)
}

pub open spec fn us_text(us: int) -> Seq<u8> {
    ms_text(us / 1000) + seq![UNDERSCORE] + pad3((us % 1000) as nat)
}

pub open spec fn ns_text(ns: int) -> Seq<u8> {
    us_text(ns / 1000) + seq![UNDERSCORE] + pad3((ns % 1000) as nat)
}

/// The single legal timezone spelling: `Z` for a zero offset; otherwise a
/// `+` or `~` sign, two hour digits, and `:` with two minute digits only
/// when the minutes are nonzero.
pub open spec fn tz_text(h: int, m: int) -> Seq<u8> {
    if h == 0 && m == 0 {
        seq![UC_Z]
    } else {
        let sign: Seq<u8> = if h >= 0 {
            seq![PLUS]
        } else {
            seq![TILDE]
        };
        let mins: Seq<u8> = if m > 0 {
            seq![COLON] + pad2(m as nat)
        } else {
            Seq::empty()
        };
        sign + pad2(abs(h) as nat) + mins
    }
}

pub open spec fn abs(v: int) -> int {
    if v < 0 {
        -v
    } else {
        v
    }
}

/// The text a chain of date appends emits for a whole date.
pub open spec fn date_text(d: crate::date_time::Date) -> Seq<u8> {
    match d {
        crate::date_time::Date::Year { y } => year_text(y as int),
        crate::date_time::Date::YearMonth { y, mo } => year_text(y as int) + month_text(mo as int),
        crate::date_time::Date::YearMonthDay { y, mo, d } => year_text(y as int) + month_text(
            mo as int,
        ) + day_text(d as int),
        crate::date_time::Date::YearWeek { y, w } => year_text(y as int) + week_text(w as int),
        crate::date_time::Date::YearWeekDay { y, w, d } => year_text(y as int) + week_text(
            w as int,
        ) + weekday_text(d as int),
    }
}

/// The text a chain of time appends emits for a whole time of day.
pub open spec fn time_text(t: crate::date_time::Time) -> Seq<u8> {
    match t {
        crate::date_time::Time::Hour { h } => hour_text(h as int),
        crate::date_time::Time::HourMinute { h, m } => hour_text(h as int) + minute_text(m as int),
        crate::date_time::Time::HourMinuteSecond { h, m, s } => hour_text(h as int) + minute_text(
            m as int,
        ) + second_text(s as int),
        crate::date_time::Time::HourMinuteMillisecond { h, m, ms } => hour_text(h as int)
            + minute_text(m as int) + ms_text(ms as int),
        crate::date_time::Time::HourMinuteMicrosecond { h, m, us } => hour_text(h as int)
            + minute_text(m as int) + us_text(us as int),
        crate::date_time::Time::HourMinuteNanosecond { h, m, ns } => hour_text(h as int)
            + minute_text(m as int) + ns_text(ns as int),
    }
}

/// The text a full chain of appends emits for a composite value.
pub open spec fn dtz_text(v: crate::date_time::DateTimeTzOffset) -> Seq<u8> {
    match v {
        crate::date_time::DateTimeTzOffset::Date(d) => date_text(d),
        crate::date_time::DateTimeTzOffset::DateTime(d, t) => date_text(d) + time_text(t),
        crate::date_time::DateTimeTzOffset::DateTz(d, z) => date_text(d) + tz_text(
            z.h as int,
            z.m as int,
        ),
        crate::date_time::DateTimeTzOffset::DateTimeTz(d, t, z) => date_text(d) + time_text(t)
            + tz_text(z.h as int, z.m as int),
        crate::date_time::DateTimeTzOffset::Time(t) => time_text(t),
        crate::date_time::DateTimeTzOffset::TimeTz(t, z) => time_text(t) + tz_text(
            z.h as int,
            z.m as int,
        ),
    }
}

// ---------------------------------------------------------------------------
// The escaped body of a string stays valid UTF-8
// ---------------------------------------------------------------------------

/// A sequence of ASCII bytes is valid UTF-8.
pub proof fn lemma_ascii_seq_valid(b: Seq<u8>)
    requires
        forall|i: int| 0 <= i < b.len() ==> b[i] < 0x80,
    ensures
        vstd::utf8::valid_utf8(b),
{
    assert(b.subrange(0, 0) =~= Seq::<u8>::empty());
    assert(vstd::utf8::partial_valid_utf8(b, 0));
    assert(forall|i: int|
        0 <= i < b.len() ==> #[trigger] vstd::utf8::is_leading_byte_width_1(b[i]));
    vstd::utf8::partial_valid_utf8_extend_ascii_block(b, 0, b.len() as int);
    assert(b.subrange(0, b.len() as int) =~= b);
}

/// Escaping distributes over a leading run of bytes that need no escaping.
proof fn lemma_escape_passthrough_run(s: Seq<u8>, run: int)
    requires
        0 <= run <= s.len(),
        forall|i: int| 0 <= i < run ==> !must_escape(#[trigger] s[i]),
    ensures
        escape_bytes(s) == s.take(run) + escape_bytes(s.skip(run)),
    decreases run,
{
    if run == 0 {
        assert(s.take(0) =~= Seq::<u8>::empty());
        assert(s.skip(0) =~= s);
        assert(s.take(0) + escape_bytes(s.skip(0)) =~= escape_bytes(s));
    } else {
        let t = s.skip(1);
        assert(forall|i: int| 0 <= i < run - 1 ==> !must_escape(#[trigger] t[i]));
        lemma_escape_passthrough_run(t, run - 1);
        assert(esc_byte(s[0]) =~= seq![s[0]]);
        assert(t.take(run - 1) =~= s.take(run).skip(1));
        assert(t.skip(run - 1) =~= s.skip(run));
        assert(seq![s[0]] + (t.take(run - 1) + escape_bytes(t.skip(run - 1))) =~= s.take(run)
            + escape_bytes(s.skip(run)));
    }
}

/// Escaping the body of a valid UTF-8 sequence yields valid UTF-8 again:
/// only ASCII bytes are ever replaced, and only by ASCII spellings, so
/// multi-byte scalars pass through whole.
pub proof fn lemma_escape_bytes_valid(sb: Seq<u8>)
    requires
        vstd::utf8::valid_utf8(sb),
    ensures
        vstd::utf8::valid_utf8(escape_bytes(sb)),
    decreases sb.len(),
{
    if sb.len() == 0 {
        assert(escape_bytes(sb) =~= Seq::<u8>::empty());
    } else {
        assert(vstd::utf8::valid_first_scalar(sb));
        let len = vstd::utf8::length_of_first_scalar(sb);
        let rest = vstd::utf8::pop_first_scalar(sb);
        assert(rest =~= sb.skip(len));
        if len == 1 {
            assert(sb[0] < 0x80);
            let piece = esc_byte(sb[0]);
            assert(forall|i: int| 0 <= i < piece.len() ==> piece[i] < 0x80);
            lemma_ascii_seq_valid(piece);
            lemma_escape_bytes_valid(sb.skip(1));
            vstd::utf8::valid_utf8_concat(piece, escape_bytes(sb.skip(1)));
            assert(escape_bytes(sb) =~= piece + escape_bytes(sb.skip(1)));
        } else {
            assert(2 <= len <= 4);
            assert(sb[0] >= 0xc0);
            assert(forall|i: int| 1 <= i < len ==> vstd::utf8::is_continuation_byte(#[trigger] sb[i]));
            assert(forall|i: int| 0 <= i < len ==> !must_escape(#[trigger] sb[i]));
            lemma_escape_passthrough_run(sb, len);
            let head = sb.take(len);
            assert(vstd::utf8::valid_leading_and_continuation_bytes_first_codepoint(head));
            assert(vstd::utf8::decode_first_codepoint(head)
                == vstd::utf8::decode_first_codepoint(sb));
            assert(vstd::utf8::length_of_first_codepoint(head)
                == vstd::utf8::length_of_first_codepoint(sb));
            assert(vstd::utf8::valid_first_scalar(head));
            assert(vstd::utf8::length_of_first_scalar(head) == len);
            assert(vstd::utf8::valid_utf8(Seq::<u8>::empty()));
            assert(vstd::utf8::pop_first_scalar(head) =~= Seq::<u8>::empty());
            assert(vstd::utf8::valid_utf8(head));
            lemma_escape_bytes_valid(sb.skip(len));
            vstd::utf8::valid_utf8_concat(head, escape_bytes(sb.skip(len)));
        }
    }
}

} // verus!
