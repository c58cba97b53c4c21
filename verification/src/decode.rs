//! The decode engine: a cursor over a byte buffer with one consume method
//! per grammar production, a list-nesting counter, and a bounded diagnostic
//! window for error reports.
//!
//! Every consume method's contract is exact: the `spec_consume_*` functions
//! in `grammar` say, for the remaining input at the call, precisely which
//! value and cursor advance a success yields and which reason an error
//! carries.  A failed call leaves the decoder in a state that must not be
//! reused for further parsing.

use vstd::prelude::*;
use vstd::string::StringExecFns;

use crate::grammar::spec_close_item;
use crate::grammar::spec_consume_bool;
use crate::grammar::spec_consume_string;
use crate::grammar::spec_string_value;
use crate::grammar::spec_unescape;
use crate::grammar::find_quote;
use crate::grammar::is_lower_hex;
use crate::grammar::hex_val;
use crate::grammar::must_escape;
use crate::grammar::QUOTE;
use crate::grammar::BACKSLASH;
use crate::grammar::LC_A;
use crate::grammar::LC_F;
use crate::grammar::spec_consume_integer;
use crate::grammar::spec_int_scan;
use crate::grammar::spec_integer_value;
use crate::grammar::spec_consume_list_open;
use crate::grammar::spec_consume_list_close;
use crate::grammar::spec_has_another_list_item;
use crate::grammar::is_digit;
use crate::grammar::digit_val;
use crate::grammar::tz_or_end;
use crate::grammar::has2;
use crate::grammar::spec_year;
use crate::grammar::spec_month;
use crate::grammar::spec_week;
use crate::grammar::spec_day;
use crate::grammar::spec_week_day;
use crate::grammar::spec_date;
use crate::grammar::spec_hour;
use crate::grammar::spec_minute;
use crate::grammar::spec_second;
use crate::grammar::spec_millisecond;
use crate::grammar::spec_microsecond;
use crate::grammar::spec_nanosecond;
use crate::grammar::spec_time;
use crate::grammar::spec_tz;
use crate::grammar::spec_consume_date_time_tz;
use crate::grammar::spec_dtz_after_date;
use crate::grammar::spec_dtz_after_time;
use crate::grammar::spec_assemble;
use crate::date_time::Date;
use crate::date_time::Time;
use crate::date_time::TzOffset;
use crate::date_time::DateTimeTzOffset;
use crate::grammar::window_cap;
use crate::grammar::D0;
use crate::grammar::D9;
use crate::grammar::HYPHEN;
use crate::grammar::UNDERSCORE;
use crate::grammar::OPEN_BRACKET;
use crate::grammar::COMMA;
use crate::grammar::CLOSE_BRACKET;
use crate::grammar::UC_T;
use crate::grammar::UC_F;
use crate::grammar::UC_D;
use crate::grammar::UC_W;
use crate::grammar::UC_Z;
use crate::grammar::COLON;
use crate::grammar::PERIOD;
use crate::grammar::PLUS;
use crate::grammar::TILDE;

verus! {

/// Every way a decode can fail: grammar-shape mismatches (`Expected*`),
/// inputs that match the shape but break a rule (`Malformed*`), range
/// violations (`*OutOfRange`), canonical-form violations, escape and
/// encoding errors, and caller-misuse errors that a correctly driven
/// decoder never produces.
#[derive(Clone, Copy, Debug, Eq, PartialEq, Structural)]
pub enum ErrorReason {
    DataNotConsumed,
    DayOutOfRange,
    ExpectedBool,
    ExpectedDate,
    ExpectedDateOrTime,
    ExpectedDay,
    ExpectedHour,
    ExpectedInteger,
    ExpectedList,
    ExpectedListEnd,
    ExpectedListSeparator,
    ExpectedMicrosecond,
    ExpectedMillisecond,
    ExpectedMinute,
    ExpectedMonth,
    ExpectedNanosecond,
    ExpectedSecond,
    ExpectedSingleZero,
    ExpectedString,
    ExpectedTime,
    ExpectedTzOffset,
    ExpectedWeek,
    ExpectedYear,
    ExpectedYearMonth,
    ExpectedYearMonthDay,
    ExpectedYearMonthDayHour,
    ExpectedYearMonthDayHourMinute,
    ExpectedYearMonthDayHourMinuteMicrosecond,
    ExpectedYearMonthDayHourMinuteMicrosecondTzOffset,
    ExpectedYearMonthDayHourMinuteMillisecond,
    ExpectedYearMonthDayHourMinuteMillisecondTzOffset,
    ExpectedYearMonthDayHourMinuteNanosecond,
    ExpectedYearMonthDayHourMinuteNanosecondTzOffset,
    ExpectedYearMonthDayHourMinuteSecond,
    ExpectedYearMonthDayHourMinuteSecondTzOffset,
    ExpectedYearMonthDayHourMinuteTzOffset,
    ExpectedYearMonthDayHourTzOffset,
    ExpectedYearMonthDayTzOffset,
    ExpectedYearMonthTzOffset,
    ExpectedYearTzOffset,
    ExpectedYearWeek,
    ExpectedYearWeekDay,
    ExpectedYearWeekDayHour,
    ExpectedYearWeekDayHourMinute,
    ExpectedYearWeekDayHourMinuteMicrosecond,
    ExpectedYearWeekDayHourMinuteMicrosecondTzOffset,
    ExpectedYearWeekDayHourMinuteMillisecond,
    ExpectedYearWeekDayHourMinuteMillisecondTzOffset,
    ExpectedYearWeekDayHourMinuteNanosecond,
    ExpectedYearWeekDayHourMinuteNanosecondTzOffset,
    ExpectedYearWeekDayHourMinuteSecond,
    ExpectedYearWeekDayHourMinuteSecondTzOffset,
    ExpectedYearWeekDayHourMinuteTzOffset,
    ExpectedYearWeekDayHourTzOffset,
    ExpectedYearWeekDayTzOffset,
    ExpectedYearWeekTzOffset,
    HourOutOfRange,
    IncompleteEscapeSequence,
    IncorrectDigitGrouping,
    IntegerTooLarge,
    InvalidEscapeSequence,
    ListCloseNotConsumed,
    MalformedBool,
    MalformedDate,
    MalformedDateTimeTzOffset,
    MalformedInteger,
    MalformedListEnd,
    MalformedMonth,
    MalformedString,
    MalformedTime,
    MalformedTimeZoneOffset,
    MalformedWeek,
    MalformedYear,
    MicrosecondOutOfRange,
    MillisecondOutOfRange,
    MinuteOutOfRange,
    MonthOutOfRange,
    NanosecondOutOfRange,
    NegativeZero,
    NotInList,
    NotUtf8,
    SecondOutOfRange,
    TimezoneOffsetHourOutOfRange,
    TimezoneOffsetMinuteOutOfRange,
    UnclosedString,
    UnconsumedData,
    Unimplemented,
    WeekOutOfRange,
    YearOutOfRange,
    ZeroTimeZoneMinutesShouldBeOmitted,
    ZeroTimeZoneOffsetShouldBeZ,
}

/// A decode failure: the reason, and a snapshot of up to 30 input bytes
/// from the start of the value that was being parsed.
#[derive(Clone, Debug, Eq, PartialEq)]
pub struct DecodeError {
    pub reason: ErrorReason,
    pub debug_bytes: Vec<u8>,
}

/// Implemented by types that can be read from the wire format by driving a
/// [`Decoder`] through the matching consume sequence.
pub trait Decode {
    fn decode_using(decoder: &mut Decoder) -> Result<Self, DecodeError> where Self: Sized;

    fn decode(bytes: &[u8]) -> Result<Self, DecodeError> where Self: Sized {
        let mut decoder = Decoder::new(bytes);
        Self::decode_using(&mut decoder)
    }
}

/// The decode engine: a cursor over the input bytes, the start of the
/// diagnostic window, and the current list-nesting depth.
#[derive(Debug)]
pub struct Decoder {
    bytes: Vec<u8>,
    pos: usize,
    mark: usize,
    list_depth: usize,
}

impl Decoder {
    /// The bytes not yet consumed.
    pub closed spec fn rem(self) -> Seq<u8> {
        self.bytes@.skip(self.pos as int)
    }

    /// The current list-nesting depth.
    pub closed spec fn depth(self) -> nat {
        self.list_depth as nat
    }

    /// The bytes from the start of the value currently being parsed; error
    /// snapshots are cut from here.
    pub closed spec fn window(self) -> Seq<u8> {
        self.bytes@.skip(self.mark as int)
    }

    pub closed spec fn wf(self) -> bool {
        self.pos <= self.bytes@.len() && self.mark <= self.bytes@.len() && self.list_depth
            <= self.pos
    }

    #[must_use]
    pub fn new(bytes: &[u8]) -> (r: Decoder)
        ensures
            r.wf(),
            r.rem() == bytes@,
            r.window() == bytes@,
            r.depth() == 0,
    {
        let v = vstd::slice::slice_to_vec(bytes);
        let r = Decoder { bytes: v, pos: 0, mark: 0, list_depth: 0 };
        proof {
            assert(r.rem() =~= bytes@);
            assert(r.window() =~= bytes@);
        }
        r
    }

    /// A decode error bearing `reason` and the capped diagnostic window.
    fn err(&self, reason: ErrorReason) -> (e: DecodeError)
        requires
            self.wf(),
        ensures
            e.reason == reason,
            e.debug_bytes@ == window_cap(self.window()),
    {
        let mut debug_bytes: Vec<u8> = Vec::new();
        let mut i: usize = self.mark;
        let end: usize = if self.bytes.len() - self.mark > 30 {
            self.mark + 30
        } else {
            self.bytes.len()
        };
        while i < end
            invariant
                self.wf(),
                self.mark <= i <= end <= self.bytes@.len(),
                end - self.mark <= 30,
                debug_bytes@ == self.bytes@.subrange(self.mark as int, i as int),
            decreases end - i,
        {
            debug_bytes.push(self.bytes[i]);
            i += 1;
        }
        proof {
            assert(debug_bytes@ =~= window_cap(self.window()));
        }
        DecodeError { reason, debug_bytes }
    }

    /// Succeeds when the input was fully consumed and every opened list was
    /// closed; the final accounting call after a complete decode.
    pub fn close(self) -> (r: Result<(), DecodeError>)
        requires
            self.wf(),
        ensures
            match r {
                Ok(()) => self.depth() == 0 && self.rem().len() == 0,
                Err(e) => {
                    &&& e.debug_bytes@ == window_cap(self.window())
                    &&& if self.depth() != 0 {
                        e.reason == ErrorReason::ListCloseNotConsumed
                    } else {
                        e.reason == ErrorReason::DataNotConsumed && self.rem().len() != 0
                    }
                },
            },
    {
        if self.list_depth != 0 {
            return Err(self.err(ErrorReason::ListCloseNotConsumed));
        }
        if self.pos < self.bytes.len() {
            return Err(self.err(ErrorReason::DataNotConsumed));
        }
        Ok(())
    }

    /// The step shared by every value consumer: at top level demand end of
    /// input, inside a list consume a `,` or leave `]`/end for the caller,
    /// and move the diagnostic window past the finished value.
    fn close_item(&mut self, reason: ErrorReason) -> (r: Result<(), DecodeError>)
        requires
            old(self).wf(),
        ensures
            final(self).wf(),
            final(self).depth() == old(self).depth(),
            match spec_close_item(old(self).rem(), old(self).depth(), reason) {
                Ok(k) => {
                    &&& r is Ok
                    &&& final(self).rem() == old(self).rem().skip(k)
                    &&& final(self).window() == final(self).rem()
                },
                Err(re) => r matches Err(e) && e.reason == re && e.debug_bytes@ == window_cap(
                    old(self).window(),
                ),
            },
    {
        if self.list_depth == 0 {
            if self.pos < self.bytes.len() {
                return Err(self.err(reason));
            }
        } else {
            if self.pos < self.bytes.len() {
                let b = self.bytes[self.pos];
                if b == COMMA {
                    self.pos += 1;
                } else if b == CLOSE_BRACKET {
                    // left for the list-closing call
                } else {
                    return Err(self.err(ErrorReason::ExpectedListSeparator));
                }
            }
        }
        self.mark = self.pos;
        proof {
            let k = spec_close_item(old(self).rem(), old(self).depth(), reason)->Ok_0;
            assert(self.rem() =~= old(self).rem().skip(k));
        }
        Ok(())
    }

    /// Consumes `T` or `F`, then the item-closing step.
    pub fn consume_bool(&mut self) -> (r: Result<bool, DecodeError>)
        requires
            old(self).wf(),
        ensures
            final(self).wf(),
            final(self).depth() == old(self).depth(),
            match spec_consume_bool(old(self).rem(), old(self).depth()) {
                Ok((v, n)) => {
                    &&& r matches Ok(b) && b == v
                    &&& final(self).rem() == old(self).rem().skip(n)
                    &&& final(self).window() == final(self).rem()
                },
                Err(re) => r matches Err(e) && e.reason == re && e.debug_bytes@ == window_cap(
                    old(self).window(),
                ),
            },
    {
        let value = if self.pos < self.bytes.len() && self.bytes[self.pos] == UC_T {
            self.pos += 1;
            true
        } else if self.pos < self.bytes.len() && self.bytes[self.pos] == UC_F {
            self.pos += 1;
            false
        } else {
            return Err(self.err(ErrorReason::ExpectedBool));
        };
        proof {
            assert(self.rem() =~= old(self).rem().skip(1));
        }
        match self.close_item(ErrorReason::MalformedBool) {
            Ok(()) => {
                proof {
                    let n = spec_consume_bool(old(self).rem(), old(self).depth())->Ok_0.1;
                    assert(self.rem() =~= old(self).rem().skip(n));
                }
                Ok(value)
            },
            Err(e) => Err(e),
        }
    }

    /// Consumes a canonically grouped integer: an optional `-`, digits in
    /// underscore-separated groups of three (only the leftmost group may be
    /// shorter), no redundant leading zero, no `-0`, magnitude within `i64`.
    pub fn consume_integer(&mut self) -> (r: Result<i64, DecodeError>)
        requires
            old(self).wf(),
        ensures
            final(self).wf(),
            final(self).depth() == old(self).depth(),
            match spec_consume_integer(old(self).rem(), old(self).depth()) {
                Ok((v, n)) => {
                    &&& r matches Ok(x) && x as int == v
                    &&& final(self).rem() == old(self).rem().skip(n)
                    &&& final(self).window() == final(self).rem()
                },
                Err(re) => r matches Err(e) && e.reason == re && e.debug_bytes@ == window_cap(
                    old(self).window(),
                ),
            },
    {
        let ghost s = old(self).rem();
        let neg = self.pos < self.bytes.len() && self.bytes[self.pos] == HYPHEN;
        proof {
            assert(s.len() >= 1 ==> s[0] == self.bytes@[old(self).pos as int]);
            assert(neg == (s.len() >= 1 && s[0] == HYPHEN));
        }
        if neg {
            self.pos += 1;
        }
        let ghost start: int = if neg {
            1
        } else {
            0
        };
        let ghost sign: int = if neg {
            -1
        } else {
            1
        };
        proof {
            assert(start == crate::grammar::int_start(s));
            assert(sign == crate::grammar::int_sign(s));
        }
        let mut seen_us = false;
        let mut group: usize = 0;
        let mut value: i64 = 0;
        loop
            invariant
                self.bytes == old(self).bytes,
                self.mark == old(self).mark,
                self.list_depth == old(self).list_depth,
                old(self).wf(),
                self.wf(),
                old(self).pos + start <= self.pos <= self.bytes.len(),
                s == old(self).rem(),
                group <= self.pos - old(self).pos,
                neg == crate::grammar::int_neg(s),
                start == crate::grammar::int_start(s),
                sign == crate::grammar::int_sign(s),
                spec_int_scan(s, start, sign, false, 0, 0) == spec_int_scan(
                    s,
                    self.pos - old(self).pos,
                    sign,
                    seen_us,
                    group as int,
                    value as int,
                ),
            ensures
                self.bytes == old(self).bytes,
                self.mark == old(self).mark,
                self.list_depth == old(self).list_depth,
                self.wf(),
                old(self).pos + start <= self.pos <= self.bytes.len(),
                neg == crate::grammar::int_neg(s),
                start == crate::grammar::int_start(s),
                sign == crate::grammar::int_sign(s),
                spec_int_scan(s, start, sign, false, 0, 0) == Ok::<_, ErrorReason>(
                    (value as int, seen_us, group as int, self.pos - old(self).pos),
                ),
            decreases self.bytes@.len() - self.pos,
        {
            let ghost i = self.pos - old(self).pos;
            if self.pos >= self.bytes.len() {
                proof {
                    assert(i >= s.len());
                }
                break ;
            }
            let b = self.bytes[self.pos];
            proof {
                assert(s[i] == b);
            }
            if D0 <= b && b <= D9 {
                let d: i64 = (b - D0) as i64;
                let signed_d: i64 = if neg {
                    -d
                } else {
                    d
                };
                proof {
                    assert(is_digit(s[i]));
                    assert(d as int == digit_val(s[i]));
                    assert(neg ==> signed_d as int == -1 * digit_val(s[i]));
                    assert(!neg ==> signed_d as int == 1 * digit_val(s[i]));
                    assert(signed_d as int == sign * digit_val(s[i]));
                }
                let v1 = match value.checked_mul(10) {
                    Some(v1) => v1,
                    None => {
                        proof {
                            assert(spec_int_scan(s, i, sign, seen_us, group as int, value as int)
                                == Err::<(int, bool, int, int), _>(ErrorReason::IntegerTooLarge));
                            assert(spec_integer_value(s) == Err::<(int, int), ErrorReason>(
                                ErrorReason::IntegerTooLarge,
                            ));
                        }
                        return Err(self.err(ErrorReason::IntegerTooLarge));
                    },
                };
                let v2 = match v1.checked_add(signed_d) {
                    Some(v2) => v2,
                    None => {
                        proof {
                            assert(spec_int_scan(s, i, sign, seen_us, group as int, value as int)
                                == Err::<(int, bool, int, int), _>(ErrorReason::IntegerTooLarge));
                            assert(spec_integer_value(s) == Err::<(int, int), ErrorReason>(
                                ErrorReason::IntegerTooLarge,
                            ));
                        }
                        return Err(self.err(ErrorReason::IntegerTooLarge));
                    },
                };
                if value == 0 && group >= 1 {
                    proof {
                        assert(spec_int_scan(s, i, sign, seen_us, group as int, value as int)
                            == Err::<(int, bool, int, int), _>(ErrorReason::ExpectedSingleZero));
                        assert(spec_integer_value(s) == Err::<(int, int), ErrorReason>(
                            ErrorReason::ExpectedSingleZero,
                        ));
                    }
                    return Err(self.err(ErrorReason::ExpectedSingleZero));
                }
                proof {
                    assert(spec_int_scan(s, i, sign, seen_us, group as int, value as int)
                        == spec_int_scan(s, i + 1, sign, seen_us, group as int + 1, v2 as int));
                }
                value = v2;
                group += 1;
                self.pos += 1;
            } else if b == UNDERSCORE {
                if seen_us && group != 3 {
                    proof {
                        assert(spec_int_scan(s, i, sign, seen_us, group as int, value as int)
                            == Err::<(int, bool, int, int), _>(
                            ErrorReason::IncorrectDigitGrouping,
                        ));
                        assert(spec_integer_value(s) == Err::<(int, int), ErrorReason>(
                            ErrorReason::IncorrectDigitGrouping,
                        ));
                    }
                    return Err(self.err(ErrorReason::IncorrectDigitGrouping));
                }
                if !seen_us && (value == 0 || group > 3) {
                    proof {
                        assert(spec_int_scan(s, i, sign, seen_us, group as int, value as int)
                            == Err::<(int, bool, int, int), _>(
                            ErrorReason::IncorrectDigitGrouping,
                        ));
                        assert(spec_integer_value(s) == Err::<(int, int), ErrorReason>(
                            ErrorReason::IncorrectDigitGrouping,
                        ));
                    }
                    return Err(self.err(ErrorReason::IncorrectDigitGrouping));
                }
                proof {
                    assert(spec_int_scan(s, i, sign, seen_us, group as int, value as int)
                        == spec_int_scan(s, i + 1, sign, true, 0, value as int));
                }
                seen_us = true;
                group = 0;
                self.pos += 1;
            } else {
                proof {
                    assert(!(is_digit(s[i]) || s[i] == UNDERSCORE));
                }
                break ;
            }
        }
        if value == 0 && group == 0 {
            proof {
                assert(spec_integer_value(s) == Err::<(int, int), ErrorReason>(
                    ErrorReason::ExpectedInteger,
                ));
            }
            return Err(self.err(ErrorReason::ExpectedInteger));
        }
        if seen_us && group != 3 {
            proof {
                assert(spec_integer_value(s) == Err::<(int, int), ErrorReason>(
                    ErrorReason::IncorrectDigitGrouping,
                ));
            }
            return Err(self.err(ErrorReason::IncorrectDigitGrouping));
        }
        if !seen_us && group > 3 {
            proof {
                assert(spec_integer_value(s) == Err::<(int, int), ErrorReason>(
                    ErrorReason::IncorrectDigitGrouping,
                ));
            }
            return Err(self.err(ErrorReason::IncorrectDigitGrouping));
        }
        if neg && value == 0 {
            proof {
                assert(spec_integer_value(s) == Err::<(int, int), ErrorReason>(
                    ErrorReason::NegativeZero,
                ));
            }
            return Err(self.err(ErrorReason::NegativeZero));
        }
        proof {
            let end = self.pos - old(self).pos;
            assert(spec_integer_value(s) == Ok::<_, ErrorReason>((value as int, end)));
            assert(self.rem() =~= s.skip(end));
        }
        match self.close_item(ErrorReason::MalformedInteger) {
            Ok(()) => {
                proof {
                    let n = spec_consume_integer(old(self).rem(), old(self).depth())->Ok_0.1;
                    assert(self.rem() =~= old(self).rem().skip(n));
                }
                Ok(value)
            },
            Err(e) => Err(e),
        }
    }

    /// Consumes the `[` that opens a list and deepens the nesting.
    pub fn consume_list_open(&mut self) -> (r: Result<(), DecodeError>)
        requires
            old(self).wf(),
        ensures
            final(self).wf(),
            match spec_consume_list_open(old(self).rem()) {
                Ok(n) => {
                    &&& r is Ok
                    &&& final(self).rem() == old(self).rem().skip(n)
                    &&& final(self).depth() == old(self).depth() + 1
                    &&& final(self).window() == old(self).window()
                },
                Err(re) => {
                    &&& r matches Err(e) && e.reason == re && e.debug_bytes@ == window_cap(
                        old(self).window(),
                    )
                    &&& *final(self) == *old(self)
                },
            },
    {
        if self.pos < self.bytes.len() && self.bytes[self.pos] == OPEN_BRACKET {
            self.pos += 1;
            self.list_depth += 1;
            proof {
                assert(self.rem() =~= old(self).rem().skip(1));
            }
            Ok(())
        } else {
            Err(self.err(ErrorReason::ExpectedList))
        }
    }

    /// Consumes the `]` that closes the innermost list, runs the item-closing
    /// step on the enclosing level, and shallows the nesting.
    pub fn consume_list_close(&mut self) -> (r: Result<(), DecodeError>)
        requires
            old(self).wf(),
        ensures
            final(self).wf(),
            match spec_consume_list_close(old(self).rem(), old(self).depth()) {
                Ok(n) => {
                    &&& r is Ok
                    &&& final(self).rem() == old(self).rem().skip(n)
                    &&& final(self).depth() == old(self).depth() - 1
                    &&& final(self).window() == final(self).rem()
                },
                Err(re) => {
                    &&& r matches Err(e) && e.reason == re && e.debug_bytes@ == window_cap(
                        old(self).window(),
                    )
                    &&& (re == ErrorReason::NotInList || re == ErrorReason::ExpectedListEnd)
                        ==> *final(self) == *old(self)
                },
            },
    {
        if self.list_depth == 0 {
            return Err(self.err(ErrorReason::NotInList));
        }
        if !(self.pos < self.bytes.len() && self.bytes[self.pos] == CLOSE_BRACKET) {
            return Err(self.err(ErrorReason::ExpectedListEnd));
        }
        self.pos += 1;
        proof {
            assert(self.rem() =~= old(self).rem().skip(1));
        }
        match self.close_item(ErrorReason::MalformedListEnd) {
            Ok(()) => {
                self.list_depth -= 1;
                proof {
                    let n = spec_consume_list_close(old(self).rem(), old(self).depth())->Ok_0;
                    assert(self.rem() =~= old(self).rem().skip(n));
                }
                Ok(())
            },
            Err(e) => Err(e),
        }
    }

    /// A non-consuming lookahead: true unless the next byte is the `]` of
    /// the current list or the input has ended.
    pub fn has_another_list_item(&mut self) -> (r: bool)
        requires
            old(self).wf(),
        ensures
            *final(self) == *old(self),
            r == spec_has_another_list_item(old(self).rem()),
    {
        self.pos < self.bytes.len() && self.bytes[self.pos] != CLOSE_BRACKET
    }

    /// The byte `k` places ahead of the cursor, if any; consumes nothing.
    fn peek(&self, k: usize) -> (r: Option<u8>)
        requires
            self.wf(),
        ensures
            r == if k < self.rem().len() {
                Some(self.rem()[k as int])
            } else {
                None::<u8>
            },
    {
        if k < self.bytes.len() - self.pos {
            let b = self.bytes[self.pos + k];
            proof {
                assert(self.rem()[k as int] == b);
            }
            Some(b)
        } else {
            None
        }
    }

    /// True when the byte `k` places ahead exists and equals `b`.
    fn peek_is(&self, k: usize, b: u8) -> (r: bool)
        requires
            self.wf(),
        ensures
            r == (k < self.rem().len() && self.rem()[k as int] == b),
    {
        match self.peek(k) {
            Some(x) => x == b,
            None => false,
        }
    }

    /// The value of the digit `k` places ahead, or `None` if that byte is
    /// missing or no digit.
    fn peek_digit(&self, k: usize) -> (r: Option<u8>)
        requires
            self.wf(),
        ensures
            match r {
                Some(d) => k < self.rem().len() && is_digit(self.rem()[k as int]) && d as int
                    == digit_val(self.rem()[k as int]),
                None => !(k < self.rem().len() && is_digit(self.rem()[k as int])),
            },
    {
        match self.peek(k) {
            Some(b) => if D0 <= b && b <= D9 {
                Some(b - D0)
            } else {
                None
            },
            None => None,
        }
    }

    /// Moves the cursor forward over `n` already-examined bytes.
    fn advance(&mut self, n: usize)
        requires
            old(self).wf(),
            n <= old(self).rem().len(),
        ensures
            final(self).wf(),
            final(self).bytes == old(self).bytes,
            final(self).mark == old(self).mark,
            final(self).list_depth == old(self).list_depth,
            final(self).pos == old(self).pos + n,
            final(self).rem() == old(self).rem().skip(n as int),
            final(self).window() == old(self).window(),
            final(self).depth() == old(self).depth(),
    {
        let total = self.bytes.len();
        proof {
            assert(old(self).rem().len() == total - self.pos);
        }
        self.pos += n;
        proof {
            assert(self.rem() =~= old(self).rem().skip(n as int));
        }
    }

    /// `D` and four digits: the year, 1..=9999.
    fn consume_year(&mut self) -> (r: Result<u16, DecodeError>)
        requires
            old(self).wf(),
        ensures
            final(self).wf(),
            final(self).depth() == old(self).depth(),
            final(self).window() == old(self).window(),
            match spec_year(old(self).rem()) {
                Ok((y, n)) => {
                    &&& r matches Ok(v) && v as int == y && 1 <= y <= 9999
                    &&& final(self).rem() == old(self).rem().skip(n)
                },
                Err(re) => r matches Err(e) && e.reason == re && e.debug_bytes@ == window_cap(
                    old(self).window(),
                ),
            },
    {
        let ghost s = old(self).rem();
        if !self.peek_is(0, UC_D) {
            return Err(self.err(ErrorReason::ExpectedYear));
        }
        let d0 = match self.peek_digit(1) {
            Some(d) => d,
            None => {
                return Err(self.err(ErrorReason::MalformedDate));
            },
        };
        let d1 = match self.peek_digit(2) {
            Some(d) => d,
            None => {
                return Err(self.err(ErrorReason::MalformedDate));
            },
        };
        let d2 = match self.peek_digit(3) {
            Some(d) => d,
            None => {
                return Err(self.err(ErrorReason::MalformedDate));
            },
        };
        let d3 = match self.peek_digit(4) {
            Some(d) => d,
            None => {
                return Err(self.err(ErrorReason::MalformedDate));
            },
        };
        match self.peek(5) {
            None => {},
            Some(b) => {
                if !(b == HYPHEN || tz_or_end_byte(b)) {
                    return Err(self.err(ErrorReason::MalformedDate));
                }
            },
        }
        let y: u16 = 1000 * (d0 as u16) + 100 * (d1 as u16) + 10 * (d2 as u16) + (d3 as u16);
        if y < 1 {
            return Err(self.err(ErrorReason::YearOutOfRange));
        }
        self.advance(5);
        Ok(y)
    }

    /// `-` and two digits: the month, 1..=12.
    fn consume_month(&mut self) -> (r: Result<u8, DecodeError>)
        requires
            old(self).wf(),
        ensures
            final(self).wf(),
            final(self).depth() == old(self).depth(),
            final(self).window() == old(self).window(),
            match spec_month(old(self).rem()) {
                Ok((mo, n)) => {
                    &&& r matches Ok(v) && v as int == mo && 1 <= mo <= 12
                    &&& final(self).rem() == old(self).rem().skip(n)
                },
                Err(re) => r matches Err(e) && e.reason == re && e.debug_bytes@ == window_cap(
                    old(self).window(),
                ),
            },
    {
        if !self.peek_is(0, HYPHEN) {
            return Err(self.err(ErrorReason::ExpectedMonth));
        }
        match self.peek(1) {
            None => {
                return Err(self.err(ErrorReason::MalformedDate));
            },
            Some(b) => {
                if b == UC_W {
                    return Err(self.err(ErrorReason::ExpectedMonth));
                }
            },
        }
        let d0 = match self.peek_digit(1) {
            Some(d) => d,
            None => {
                return Err(self.err(ErrorReason::MalformedDate));
            },
        };
        let d1 = match self.peek_digit(2) {
            Some(d) => d,
            None => {
                return Err(self.err(ErrorReason::MalformedDate));
            },
        };
        match self.peek(3) {
            None => {},
            Some(b) => {
                if !(b == HYPHEN || tz_or_end_byte(b)) {
                    return Err(self.err(ErrorReason::MalformedDate));
                }
            },
        }
        let mo: u8 = 10 * d0 + d1;
        if !(1 <= mo && mo <= 12) {
            return Err(self.err(ErrorReason::MonthOutOfRange));
        }
        self.advance(3);
        Ok(mo)
    }

    /// `-W` and two digits: the week, 1..=53.
    fn consume_week(&mut self) -> (r: Result<u8, DecodeError>)
        requires
            old(self).wf(),
        ensures
            final(self).wf(),
            final(self).depth() == old(self).depth(),
            final(self).window() == old(self).window(),
            match spec_week(old(self).rem()) {
                Ok((w, n)) => {
                    &&& r matches Ok(v) && v as int == w && 1 <= w <= 53
                    &&& final(self).rem() == old(self).rem().skip(n)
                },
                Err(re) => r matches Err(e) && e.reason == re && e.debug_bytes@ == window_cap(
                    old(self).window(),
                ),
            },
    {
        if !self.peek_is(0, HYPHEN) {
            return Err(self.err(ErrorReason::ExpectedWeek));
        }
        match self.peek(1) {
            None => {
                return Err(self.err(ErrorReason::MalformedDate));
            },
            Some(b) => {
                if D0 <= b && b <= D9 {
                    return Err(self.err(ErrorReason::ExpectedWeek));
                }
                if b != UC_W {
                    return Err(self.err(ErrorReason::MalformedDate));
                }
            },
        }
        let d0 = match self.peek_digit(2) {
            Some(d) => d,
            None => {
                return Err(self.err(ErrorReason::MalformedDate));
            },
        };
        let d1 = match self.peek_digit(3) {
            Some(d) => d,
            None => {
                return Err(self.err(ErrorReason::MalformedDate));
            },
        };
        match self.peek(4) {
            None => {},
            Some(b) => {
                if !(b == HYPHEN || tz_or_end_byte(b)) {
                    return Err(self.err(ErrorReason::MalformedDate));
                }
            },
        }
        let w: u8 = 10 * d0 + d1;
        if !(1 <= w && w <= 53) {
            return Err(self.err(ErrorReason::WeekOutOfRange));
        }
        self.advance(4);
        Ok(w)
    }

    /// `-` and two digits after a month: the day, 1..=31.
    fn consume_day(&mut self) -> (r: Result<u8, DecodeError>)
        requires
            old(self).wf(),
        ensures
            final(self).wf(),
            final(self).depth() == old(self).depth(),
            final(self).window() == old(self).window(),
            match spec_day(old(self).rem()) {
                Ok((d, n)) => {
                    &&& r matches Ok(v) && v as int == d && 1 <= d <= 31
                    &&& final(self).rem() == old(self).rem().skip(n)
                },
                Err(re) => r matches Err(e) && e.reason == re && e.debug_bytes@ == window_cap(
                    old(self).window(),
                ),
            },
    {
        if !self.peek_is(0, HYPHEN) {
            return Err(self.err(ErrorReason::ExpectedDay));
        }
        let d0 = match self.peek_digit(1) {
            Some(d) => d,
            None => {
                return Err(self.err(ErrorReason::MalformedDate));
            },
        };
        let d1 = match self.peek_digit(2) {
            Some(d) => d,
            None => {
                return Err(self.err(ErrorReason::MalformedDate));
            },
        };
        match self.peek(3) {
            None => {},
            Some(b) => {
                if !(b == UC_T || tz_or_end_byte(b)) {
                    return Err(self.err(ErrorReason::MalformedDate));
                }
            },
        }
        let d: u8 = 10 * d0 + d1;
        if !(1 <= d && d <= 31) {
            return Err(self.err(ErrorReason::DayOutOfRange));
        }
        self.advance(3);
        Ok(d)
    }

    /// `-` and two digits after a week: the weekday, 1..=7.
    fn consume_week_day(&mut self) -> (r: Result<u8, DecodeError>)
        requires
            old(self).wf(),
        ensures
            final(self).wf(),
            final(self).depth() == old(self).depth(),
            final(self).window() == old(self).window(),
            match spec_week_day(old(self).rem()) {
                Ok((d, n)) => {
                    &&& r matches Ok(v) && v as int == d && 1 <= d <= 7
                    &&& final(self).rem() == old(self).rem().skip(n)
                },
                Err(re) => r matches Err(e) && e.reason == re && e.debug_bytes@ == window_cap(
                    old(self).window(),
                ),
            },
    {
        if !self.peek_is(0, HYPHEN) {
            return Err(self.err(ErrorReason::ExpectedDay));
        }
        let d0 = match self.peek_digit(1) {
            Some(d) => d,
            None => {
                return Err(self.err(ErrorReason::MalformedDate));
            },
        };
        let d1 = match self.peek_digit(2) {
            Some(d) => d,
            None => {
                return Err(self.err(ErrorReason::MalformedDate));
            },
        };
        match self.peek(3) {
            None => {},
            Some(b) => {
                if !(b == UC_T || tz_or_end_byte(b)) {
                    return Err(self.err(ErrorReason::MalformedDate));
                }
            },
        }
        let d: u8 = 10 * d0 + d1;
        if !(1 <= d && d <= 7) {
            return Err(self.err(ErrorReason::DayOutOfRange));
        }
        self.advance(3);
        Ok(d)
    }

    /// A whole date, at whichever granularity the input spells.
    fn consume_date(&mut self) -> (r: Result<Date, DecodeError>)
        requires
            old(self).wf(),
        ensures
            final(self).wf(),
            final(self).depth() == old(self).depth(),
            final(self).window() == old(self).window(),
            match spec_date(old(self).rem()) {
                Ok((d, n)) => {
                    &&& r matches Ok(v) && v == d && d.wf()
                    &&& 0 <= n <= old(self).rem().len()
                    &&& final(self).rem() == old(self).rem().skip(n)
                },
                Err(re) => r matches Err(e) && e.reason == re && e.debug_bytes@ == window_cap(
                    old(self).window(),
                ),
            },
    {
        proof {
            reveal(crate::grammar::spec_date);
        }
        let ghost s = old(self).rem();
        let y = match self.consume_year() {
            Ok(y) => y,
            Err(e) => {
                return Err(e);
            },
        };
        let ghost n = spec_year(s)->Ok_0.1;
        if !self.peek_is(0, HYPHEN) {
            return Ok(Date::Year { y });
        }
        if self.peek_is(1, UC_W) {
            let w = match self.consume_week() {
                Ok(w) => w,
                Err(e) => {
                    return Err(e);
                },
            };
            let ghost k = spec_week(s.skip(n))->Ok_0.1;
            proof {
                assert(self.rem() =~= s.skip(n + k));
            }
            if !self.peek_is(0, HYPHEN) {
                return Ok(Date::YearWeek { y, w });
            }
            let d = match self.consume_week_day() {
                Ok(d) => d,
                Err(e) => {
                    return Err(e);
                },
            };
            proof {
                let j = spec_week_day(s.skip(n + k))->Ok_0.1;
                assert(self.rem() =~= s.skip(n + k + j));
            }
            Ok(Date::YearWeekDay { y, w, d })
        } else {
            let mo = match self.consume_month() {
                Ok(mo) => mo,
                Err(e) => {
                    return Err(e);
                },
            };
            let ghost k = spec_month(s.skip(n))->Ok_0.1;
            proof {
                assert(self.rem() =~= s.skip(n + k));
            }
            if !self.peek_is(0, HYPHEN) {
                return Ok(Date::YearMonth { y, mo });
            }
            let d = match self.consume_day() {
                Ok(d) => d,
                Err(e) => {
                    return Err(e);
                },
            };
            proof {
                let j = spec_day(s.skip(n + k))->Ok_0.1;
                assert(self.rem() =~= s.skip(n + k + j));
            }
            Ok(Date::YearMonthDay { y, mo, d })
        }
    }

    /// `T` and two digits: the hour, 0..=23.
    fn consume_hour(&mut self) -> (r: Result<u8, DecodeError>)
        requires
            old(self).wf(),
        ensures
            final(self).wf(),
            final(self).depth() == old(self).depth(),
            final(self).window() == old(self).window(),
            match spec_hour(old(self).rem()) {
                Ok((h, n)) => {
                    &&& r matches Ok(v) && v as int == h && 0 <= h <= 23
                    &&& final(self).rem() == old(self).rem().skip(n)
                },
                Err(re) => r matches Err(e) && e.reason == re && e.debug_bytes@ == window_cap(
                    old(self).window(),
                ),
            },
    {
        if !self.peek_is(0, UC_T) {
            return Err(self.err(ErrorReason::ExpectedHour));
        }
        let (d0, d1) = match self.two_time_digits() {
            Ok(p) => p,
            Err(e) => {
                return Err(e);
            },
        };
        match self.peek(3) {
            None => {},
            Some(b) => {
                if !(b == COLON || tz_or_end_byte(b)) {
                    return Err(self.err(ErrorReason::MalformedTime));
                }
            },
        }
        let h: u8 = 10 * d0 + d1;
        if h > 23 {
            return Err(self.err(ErrorReason::HourOutOfRange));
        }
        self.advance(3);
        Ok(h)
    }

    /// The two digits at offsets 1 and 2, as for every time component.
    fn two_time_digits(&self) -> (r: Result<(u8, u8), DecodeError>)
        requires
            self.wf(),
        ensures
            match r {
                Ok((d0, d1)) => {
                    &&& has2(self.rem(), 1)
                    &&& d0 as int == digit_val(self.rem()[1])
                    &&& d1 as int == digit_val(self.rem()[2])
                },
                Err(e) => {
                    &&& !has2(self.rem(), 1)
                    &&& e.reason == ErrorReason::MalformedTime
                    &&& e.debug_bytes@ == window_cap(self.window())
                },
            },
    {
        let d0 = match self.peek_digit(1) {
            Some(d) => d,
            None => {
                return Err(self.err(ErrorReason::MalformedTime));
            },
        };
        let d1 = match self.peek_digit(2) {
            Some(d) => d,
            None => {
                return Err(self.err(ErrorReason::MalformedTime));
            },
        };
        Ok((d0, d1))
    }

    /// `:` and two digits: the minute, 0..=59.
    fn consume_minute(&mut self) -> (r: Result<u8, DecodeError>)
        requires
            old(self).wf(),
        ensures
            final(self).wf(),
            final(self).depth() == old(self).depth(),
            final(self).window() == old(self).window(),
            match spec_minute(old(self).rem()) {
                Ok((m, n)) => {
                    &&& r matches Ok(v) && v as int == m && 0 <= m <= 59
                    &&& final(self).rem() == old(self).rem().skip(n)
                },
                Err(re) => r matches Err(e) && e.reason == re && e.debug_bytes@ == window_cap(
                    old(self).window(),
                ),
            },
    {
        if !self.peek_is(0, COLON) {
            return Err(self.err(ErrorReason::ExpectedMinute));
        }
        let (d0, d1) = match self.two_time_digits() {
            Ok(p) => p,
            Err(e) => {
                return Err(e);
            },
        };
        match self.peek(3) {
            None => {},
            Some(b) => {
                if !(b == COLON || tz_or_end_byte(b)) {
                    return Err(self.err(ErrorReason::MalformedTime));
                }
            },
        }
        let m: u8 = 10 * d0 + d1;
        if m > 59 {
            return Err(self.err(ErrorReason::MinuteOutOfRange));
        }
        self.advance(3);
        Ok(m)
    }

    /// `:` and two digits: the second, 0..=60 (60 for leap seconds).
    fn consume_second(&mut self) -> (r: Result<u8, DecodeError>)
        requires
            old(self).wf(),
        ensures
            final(self).wf(),
            final(self).depth() == old(self).depth(),
            final(self).window() == old(self).window(),
            match spec_second(old(self).rem()) {
                Ok((sec, n)) => {
                    &&& r matches Ok(v) && v as int == sec && 0 <= sec <= 60
                    &&& final(self).rem() == old(self).rem().skip(n)
                },
                Err(re) => r matches Err(e) && e.reason == re && e.debug_bytes@ == window_cap(
                    old(self).window(),
                ),
            },
    {
        if !self.peek_is(0, COLON) {
            return Err(self.err(ErrorReason::ExpectedSecond));
        }
        let (d0, d1) = match self.two_time_digits() {
            Ok(p) => p,
            Err(e) => {
                return Err(e);
            },
        };
        match self.peek(3) {
            None => {},
            Some(b) => {
                if !(b == PERIOD || tz_or_end_byte(b)) {
                    return Err(self.err(ErrorReason::MalformedTime));
                }
            },
        }
        let sec: u8 = 10 * d0 + d1;
        if sec > 60 {
            return Err(self.err(ErrorReason::SecondOutOfRange));
        }
        self.advance(3);
        Ok(sec)
    }

    /// A prefix byte and three digits: one sub-second refinement group.
    /// `last` marks the nanosecond group, after which no `_` may follow.
    fn consume_subsecond_group(
        &mut self,
        prefix: u8,
        missing: ErrorReason,
        last: bool,
    ) -> (r: Result<u16, DecodeError>)
        requires
            old(self).wf(),
            prefix == PERIOD || prefix == UNDERSCORE,
            prefix == PERIOD ==> missing == ErrorReason::ExpectedMillisecond && !last,
            prefix == UNDERSCORE && !last ==> missing == ErrorReason::ExpectedMicrosecond,
            prefix == UNDERSCORE && last ==> missing == ErrorReason::ExpectedNanosecond,
        ensures
            final(self).wf(),
            final(self).depth() == old(self).depth(),
            final(self).window() == old(self).window(),
            ({
                let spec_r = if prefix == PERIOD {
                    spec_millisecond(old(self).rem())
                } else if last {
                    spec_nanosecond(old(self).rem())
                } else {
                    spec_microsecond(old(self).rem())
                };
                match spec_r {
                    Ok((v, n)) => {
                        &&& r matches Ok(x) && x as int == v && 0 <= v <= 999
                        &&& final(self).rem() == old(self).rem().skip(n)
                    },
                    Err(re) => r matches Err(e) && e.reason == re && e.debug_bytes@ == window_cap(
                        old(self).window(),
                    ),
                }
            }),
    {
        if !self.peek_is(0, prefix) {
            return Err(self.err(missing));
        }
        let d0 = match self.peek_digit(1) {
            Some(d) => d,
            None => {
                return Err(self.err(ErrorReason::MalformedTime));
            },
        };
        let d1 = match self.peek_digit(2) {
            Some(d) => d,
            None => {
                return Err(self.err(ErrorReason::MalformedTime));
            },
        };
        let d2 = match self.peek_digit(3) {
            Some(d) => d,
            None => {
                return Err(self.err(ErrorReason::MalformedTime));
            },
        };
        match self.peek(4) {
            None => {},
            Some(b) => {
                let ok = if last {
                    tz_or_end_byte(b)
                } else {
                    b == UNDERSCORE || tz_or_end_byte(b)
                };
                if !ok {
                    return Err(self.err(ErrorReason::MalformedTime));
                }
            },
        }
        let v: u16 = 100 * (d0 as u16) + 10 * (d1 as u16) + (d2 as u16);
        self.advance(4);
        Ok(v)
    }

    /// A whole time of day, at whichever granularity the input spells.
    fn consume_time(&mut self) -> (r: Result<Time, DecodeError>)
        requires
            old(self).wf(),
        ensures
            final(self).wf(),
            final(self).depth() == old(self).depth(),
            final(self).window() == old(self).window(),
            match spec_time(old(self).rem()) {
                Ok((t, n)) => {
                    &&& r matches Ok(v) && v == t && t.wf()
                    &&& 0 <= n <= old(self).rem().len()
                    &&& final(self).rem() == old(self).rem().skip(n)
                },
                Err(re) => r matches Err(e) && e.reason == re && e.debug_bytes@ == window_cap(
                    old(self).window(),
                ),
            },
    {
        proof {
            reveal(crate::grammar::spec_time);
        }
        let ghost s = old(self).rem();
        let h = match self.consume_hour() {
            Ok(h) => h,
            Err(e) => {
                return Err(e);
            },
        };
        let ghost n = spec_hour(s)->Ok_0.1;
        if !self.peek_is(0, COLON) {
            return Ok(Time::Hour { h });
        }
        let m = match self.consume_minute() {
            Ok(m) => m,
            Err(e) => {
                return Err(e);
            },
        };
        let ghost p1 = n + spec_minute(s.skip(n))->Ok_0.1;
        proof {
            assert(self.rem() =~= s.skip(p1));
        }
        if !self.peek_is(0, COLON) {
            return Ok(Time::HourMinute { h, m });
        }
        let sec = match self.consume_second() {
            Ok(v) => v,
            Err(e) => {
                return Err(e);
            },
        };
        let ghost p2 = p1 + spec_second(s.skip(p1))->Ok_0.1;
        proof {
            assert(self.rem() =~= s.skip(p2));
        }
        if !self.peek_is(0, PERIOD) {
            return Ok(Time::HourMinuteSecond { h, m, s: sec });
        }
        let ms3 = match self.consume_subsecond_group(
            PERIOD,
            ErrorReason::ExpectedMillisecond,
            false,
        ) {
            Ok(v) => v,
            Err(e) => {
                return Err(e);
            },
        };
        let ms: u16 = 1000 * (sec as u16) + ms3;
        let ghost p3 = p2 + spec_millisecond(s.skip(p2))->Ok_0.1;
        proof {
            assert(self.rem() =~= s.skip(p3));
        }
        if !self.peek_is(0, UNDERSCORE) {
            return Ok(Time::HourMinuteMillisecond { h, m, ms });
        }
        let us3 = match self.consume_subsecond_group(
            UNDERSCORE,
            ErrorReason::ExpectedMicrosecond,
            false,
        ) {
            Ok(v) => v,
            Err(e) => {
                return Err(e);
            },
        };
        let us: u32 = 1000 * (ms as u32) + (us3 as u32);
        let ghost p4 = p3 + spec_microsecond(s.skip(p3))->Ok_0.1;
        proof {
            assert(self.rem() =~= s.skip(p4));
        }
        if !self.peek_is(0, UNDERSCORE) {
            return Ok(Time::HourMinuteMicrosecond { h, m, us });
        }
        let ns3 = match self.consume_subsecond_group(
            UNDERSCORE,
            ErrorReason::ExpectedNanosecond,
            true,
        ) {
            Ok(v) => v,
            Err(e) => {
                return Err(e);
            },
        };
        let ns: u64 = 1000 * (us as u64) + (ns3 as u64);
        proof {
            let p5 = p4 + spec_nanosecond(s.skip(p4))->Ok_0.1;
            assert(self.rem() =~= s.skip(p5));
        }
        Ok(Time::HourMinuteNanosecond { h, m, ns })
    }

    /// A timezone offset: `Z`, or a sign, two hour digits and optionally a
    /// `:` with two minute digits; the single legal spelling per value.
    fn consume_tz_offset(&mut self, reason: ErrorReason) -> (r: Result<TzOffset, DecodeError>)
        requires
            old(self).wf(),
        ensures
            final(self).wf(),
            final(self).depth() == old(self).depth(),
            final(self).window() == old(self).window(),
            match spec_tz(old(self).rem(), reason) {
                Ok(((h, m), n)) => {
                    &&& r matches Ok(v) && v.h as int == h && v.m as int == m && v.wf()
                    &&& 0 <= n <= old(self).rem().len()
                    &&& final(self).rem() == old(self).rem().skip(n)
                },
                Err(re) => r matches Err(e) && e.reason == re && e.debug_bytes@ == window_cap(
                    old(self).window(),
                ),
            },
    {
        proof {
            reveal(crate::grammar::spec_tz);
        }
        let ghost s = old(self).rem();
        let b0 = match self.peek(0) {
            Some(b) => b,
            None => {
                return Err(self.err(ErrorReason::ExpectedTzOffset));
            },
        };
        if b0 == HYPHEN || b0 == UC_T || b0 == COLON || b0 == PERIOD || b0 == UNDERSCORE {
            return Err(self.err(reason));
        }
        if b0 == COMMA || b0 == CLOSE_BRACKET {
            return Err(self.err(ErrorReason::ExpectedTzOffset));
        }
        if b0 == UC_Z {
            self.advance(1);
            return Ok(TzOffset { h: 0, m: 0 });
        }
        if !(b0 == PLUS || b0 == TILDE) {
            return Err(self.err(ErrorReason::MalformedTimeZoneOffset));
        }
        let d0 = match self.peek_digit(1) {
            Some(d) => d,
            None => {
                return Err(self.err(ErrorReason::MalformedTimeZoneOffset));
            },
        };
        let d1 = match self.peek_digit(2) {
            Some(d) => d,
            None => {
                return Err(self.err(ErrorReason::MalformedTimeZoneOffset));
            },
        };
        proof {
            assert(d0 <= 9 && d1 <= 9);
        }
        let mag: i8 = (10 * d0 + d1) as i8;
        let h: i8 = if b0 == PLUS {
            mag
        } else {
            -mag
        };
        proof {
            let v2 = crate::grammar::val2(s, 1);
            assert(mag as int == v2);
            if b0 == PLUS {
                assert(h as int == 1 * v2);
            } else {
                assert(h as int == -(mag as int));
                assert(-(mag as int) == -1 * (mag as int)) by (nonlinear_arith);
                assert(h as int == -1 * v2);
            }
        }
        if !(-23 <= h && h <= 23) {
            return Err(self.err(ErrorReason::TimezoneOffsetHourOutOfRange));
        }
        let colon = self.peek_is(3, COLON);
        if !colon {
            match self.peek(3) {
                None => {},
                Some(b) => {
                    if !(b == COMMA || b == CLOSE_BRACKET) {
                        return Err(self.err(ErrorReason::MalformedTimeZoneOffset));
                    }
                },
            }
            if h == 0 {
                return Err(self.err(ErrorReason::ZeroTimeZoneOffsetShouldBeZ));
            }
            self.advance(3);
            return Ok(TzOffset { h, m: 0 });
        }
        let d4 = match self.peek_digit(4) {
            Some(d) => d,
            None => {
                return Err(self.err(ErrorReason::MalformedTimeZoneOffset));
            },
        };
        let d5 = match self.peek_digit(5) {
            Some(d) => d,
            None => {
                return Err(self.err(ErrorReason::MalformedTimeZoneOffset));
            },
        };
        match self.peek(6) {
            None => {},
            Some(b) => {
                if !(b == COMMA || b == CLOSE_BRACKET) {
                    return Err(self.err(ErrorReason::MalformedTimeZoneOffset));
                }
            },
        }
        let m: u8 = 10 * d4 + d5;
        proof {
            assert(m as int == crate::grammar::val2(s, 4));
        }
        if m > 59 {
            return Err(self.err(ErrorReason::TimezoneOffsetMinuteOutOfRange));
        }
        if h == 0 && m == 0 {
            return Err(self.err(ErrorReason::ZeroTimeZoneOffsetShouldBeZ));
        }
        if m == 0 {
            return Err(self.err(ErrorReason::ZeroTimeZoneMinutesShouldBeOmitted));
        }
        self.advance(6);
        Ok(TzOffset { h, m })
    }

    /// The composite's tail: reject an empty composite and a day-less date
    /// paired with a time, consume the optional timezone offset, and run
    /// the item-closing step.
    fn consume_tz_and_close(&mut self, opt_date: Option<Date>, opt_time: Option<Time>) -> (r:
        Result<DateTimeTzOffset, DecodeError>)
        requires
            old(self).wf(),
            opt_date matches Some(d) ==> d.wf(),
            opt_time matches Some(t) ==> t.wf(),
        ensures
            final(self).wf(),
            final(self).depth() == old(self).depth(),
            match spec_dtz_after_time(old(self).rem(), opt_date, opt_time, old(self).depth()) {
                Ok((v, n)) => {
                    &&& r matches Ok(x) && x == v && v.wf()
                    &&& 0 <= n <= old(self).rem().len()
                    &&& final(self).rem() == old(self).rem().skip(n)
                    &&& final(self).window() == final(self).rem()
                },
                Err(re) => r matches Err(e) && e.reason == re && e.debug_bytes@ == window_cap(
                    old(self).window(),
                ),
            },
    {
        let ghost s2 = old(self).rem();
        let ghost depth = old(self).depth();
        let date_absent = match &opt_date {
            None => true,
            Some(_) => false,
        };
        let time_absent = match &opt_time {
            None => true,
            Some(_) => false,
        };
        if date_absent && time_absent {
            return Err(self.err(ErrorReason::ExpectedDateOrTime));
        }
        let dayless = match &opt_date {
            Some(Date::Year { .. }) | Some(Date::YearMonth { .. }) | Some(
                Date::YearWeek { .. },
            ) => true,
            _ => false,
        };
        proof {
            assert(dayless == match opt_date {
                Some(d) => !d.has_day(),
                None => false,
            });
        }
        if dayless && !time_absent {
            return Err(self.err(ErrorReason::MalformedDateTimeTzOffset));
        }
        let no_tz = match self.peek(0) {
            None => true,
            Some(b) => b == COMMA || b == CLOSE_BRACKET,
        };
        proof {
            assert(no_tz == (s2.len() == 0 || s2[0] == COMMA || s2[0] == CLOSE_BRACKET));
        }
        let opt_tz: Option<TzOffset> = if no_tz {
            None
        } else {
            match self.consume_tz_offset(ErrorReason::ExpectedTzOffset) {
                Ok(z) => Some(z),
                Err(e) => {
                    return Err(e);
                },
            }
        };
        let ghost n3: int = if no_tz {
            0
        } else {
            spec_tz(s2, ErrorReason::ExpectedTzOffset)->Ok_0.1
        };
        proof {
            assert(self.rem() =~= s2.skip(n3));
            assert(no_tz ==> self.rem() =~= s2);
        }
        match self.close_item(ErrorReason::MalformedDateTimeTzOffset) {
            Ok(()) => {},
            Err(e) => {
                return Err(e);
            },
        }
        proof {
            let k = spec_close_item(
                s2.skip(n3),
                depth,
                ErrorReason::MalformedDateTimeTzOffset,
            )->Ok_0;
            assert(spec_dtz_after_time(s2, opt_date, opt_time, depth) == Ok::<_, ErrorReason>(
                (spec_assemble(opt_date, opt_time, opt_tz), n3 + k),
            ));
            assert(self.rem() =~= s2.skip(n3 + k));
        }
        match (opt_date, opt_time, opt_tz) {
            (Some(date), None, None) => Ok(DateTimeTzOffset::Date(date)),
            (Some(date), Some(time), None) => Ok(DateTimeTzOffset::DateTime(date, time)),
            (Some(date), None, Some(tz)) => Ok(DateTimeTzOffset::DateTz(date, tz)),
            (Some(date), Some(time), Some(tz)) => Ok(DateTimeTzOffset::DateTimeTz(date, time, tz)),
            (None, Some(time), None) => Ok(DateTimeTzOffset::Time(time)),
            (None, Some(time), Some(tz)) => Ok(DateTimeTzOffset::TimeTz(time, tz)),
            (None, None, _) => {
                proof {
                    assert(false);
                }
                Err(self.err(ErrorReason::ExpectedDateOrTime))
            },
        }
    }

    /// Consumes any legal combination of date, time and timezone offset,
    /// then the item-closing step.  A date without a day never combines
    /// with a time; see `spec_consume_date_time_tz` for which of the two
    /// reasons that illegal pairing reports, depending on where the time
    /// stands.
    #[verifier::rlimit(100)]
    #[verifier::spinoff_prover]
    pub fn consume_date_time_tz_offset(&mut self) -> (r: Result<DateTimeTzOffset, DecodeError>)
        requires
            old(self).wf(),
        ensures
            final(self).wf(),
            final(self).depth() == old(self).depth(),
            match spec_consume_date_time_tz(old(self).rem(), old(self).depth()) {
                Ok((v, n)) => {
                    &&& r matches Ok(x) && x == v && v.wf()
                    &&& final(self).rem() == old(self).rem().skip(n)
                    &&& final(self).window() == final(self).rem()
                },
                Err(re) => r matches Err(e) && e.reason == re && e.debug_bytes@ == window_cap(
                    old(self).window(),
                ),
            },
    {
        let ghost s = old(self).rem();
        let ghost depth = old(self).depth();
        let has_date = self.peek_is(0, UC_D);
        proof {
            assert(has_date == (s.len() >= 1 && s[0] == UC_D));
        }
        let opt_date: Option<Date> = if has_date {
            match self.consume_date() {
                Ok(d) => Some(d),
                Err(e) => {
                    return Err(e);
                },
            }
        } else {
            None
        };
        let ghost n1: int = if has_date {
            spec_date(s)->Ok_0.1
        } else {
            0
        };
        let ghost s1 = s.skip(n1);
        proof {
            assert(self.rem() =~= s1);
        }
        let has_time = self.peek_is(0, UC_T);
        proof {
            assert(has_time == (s1.len() >= 1 && s1[0] == UC_T));
        }
        let opt_time: Option<Time> = if has_time {
            match self.consume_time() {
                Ok(t) => Some(t),
                Err(e) => {
                    proof {
                        assert(spec_dtz_after_date(s1, opt_date, depth) == Err::<
                            (DateTimeTzOffset, int),
                            ErrorReason,
                        >(spec_time(s1)->Err_0));
                    }
                    return Err(e);
                },
            }
        } else {
            None
        };
        let ghost n2: int = if has_time {
            spec_time(s1)->Ok_0.1
        } else {
            0
        };
        let ghost s2 = s1.skip(n2);
        proof {
            assert(self.rem() =~= s2);
        }
        let tail = self.consume_tz_and_close(opt_date, opt_time);
        proof {
            match spec_dtz_after_time(s2, opt_date, opt_time, depth) {
                Ok((v, n)) => {
                    assert(spec_dtz_after_date(s1, opt_date, depth) == Ok::<_, ErrorReason>(
                        (v, n2 + n),
                    ));
                    assert(spec_consume_date_time_tz(s, depth) == Ok::<_, ErrorReason>(
                        (v, n1 + n2 + n),
                    ));
                    assert(self.rem() =~= s.skip(n1 + n2 + n));
                },
                Err(re) => {
                    assert(spec_dtz_after_date(s1, opt_date, depth) == Err::<
                        (DateTimeTzOffset, int),
                        ErrorReason,
                    >(re));
                    assert(spec_consume_date_time_tz(s, depth) == Err::<
                        (DateTimeTzOffset, int),
                        ErrorReason,
                    >(re));
                },
            }
        }
        tail
    }

    /// Consumes a quoted string: scans to the closing quote, validates the
    /// span as UTF-8, unescapes the restricted `\\hh` escapes, then runs
    /// the item-closing step.
    pub fn consume_string(&mut self) -> (r: Result<String, DecodeError>)
        requires
            old(self).wf(),
        ensures
            final(self).wf(),
            final(self).depth() == old(self).depth(),
            match spec_consume_string(old(self).rem(), old(self).depth()) {
                Ok((cs, n)) => {
                    &&& r matches Ok(v) && v@ == cs
                    &&& final(self).rem() == old(self).rem().skip(n)
                    &&& final(self).window() == final(self).rem()
                },
                Err((re, od)) => r matches Err(e) && e.reason == re && e.debug_bytes@ == (
                match od {
                    Some(d) => d,
                    None => window_cap(old(self).window()),
                }),
            },
    {
        let ghost s = old(self).rem();
        if !self.peek_is(0, QUOTE) {
            return Err(self.err(ErrorReason::ExpectedString));
        }
        let len = self.bytes.len();
        let rem_len = len - self.pos;
        proof {
            assert(rem_len == s.len());
        }
        let mut i: usize = 1;
        loop
            invariant
                *self == *old(self),
                self.wf(),
                s == old(self).rem(),
                len == self.bytes@.len(),
                rem_len == s.len(),
                self.pos + rem_len == len,
                1 <= i <= rem_len + 1,
                find_quote(s, 1) == find_quote(s, i as int),
            ensures
                *self == *old(self),
                match find_quote(s, 1) {
                    Some(q) => q == i && i < rem_len && s[q] == QUOTE,
                    None => i >= rem_len,
                },
            decreases rem_len - i,
        {
            if i >= rem_len {
                proof {
                    assert(i >= s.len());
                    assert(find_quote(s, i as int) is None);
                }
                break ;
            }
            let b = self.bytes[self.pos + i];
            proof {
                assert(s[i as int] == b);
            }
            if b == QUOTE {
                break ;
            }
            proof {
                assert(find_quote(s, i as int) == find_quote(s, i + 1));
            }
            i += 1;
        }
        if i >= rem_len {
            return Err(self.err(ErrorReason::UnclosedString));
        }
        let span: &[u8] = vstd::slice::slice_subrange(self.bytes.as_slice(), self.pos + 1, self.pos + i);
        proof {
            assert(span@ =~= s.subrange(1, i as int));
        }
        if !crate::text::check_utf8(span) {
            return Err(self.err(ErrorReason::NotUtf8));
        }
        let mut out: Vec<u8> = Vec::new();
        let span_len = span.len();
        let mut j: usize = 0;
        proof {
            assert(span@.skip(0) =~= span@);
            match spec_unescape(span@) {
                Ok(t) => {
                    assert(out@ + t =~= t);
                },
                Err(_) => {},
            }
        }
        loop
            invariant
                *self == *old(self),
                self.wf(),
                s == old(self).rem(),
                1 <= i < s.len(),
                s[0] == QUOTE,
                find_quote(s, 1) == Some(i as int),
                span@ == s.subrange(1, i as int),
                vstd::utf8::valid_utf8(span@),
                span_len == span@.len(),
                j <= span_len,
                (match spec_unescape(span@.skip(j as int)) {
                    Ok(t) => spec_unescape(span@) == Ok::<Seq<u8>, (ErrorReason, Seq<u8>)>(
                        out@ + t,
                    ),
                    Err(e) => spec_unescape(span@) == Err::<Seq<u8>, (ErrorReason, Seq<u8>)>(e),
                }),
            ensures
                *self == *old(self),
                spec_unescape(span@) == Ok::<Seq<u8>, (ErrorReason, Seq<u8>)>(out@),
            decreases span_len - j,
        {
            let ghost tail = span@.skip(j as int);
            if j >= span_len {
                proof {
                    assert(tail =~= Seq::<u8>::empty());
                    assert(spec_unescape(tail) == Ok::<Seq<u8>, (ErrorReason, Seq<u8>)>(
                        Seq::empty(),
                    ));
                    assert(out@ + Seq::<u8>::empty() =~= out@);
                }
                break ;
            }
            let b = vstd::slice::slice_index_get(span, j);
            proof {
                assert(tail[0] == span@[j as int]);
            }
            if *b != BACKSLASH {
                proof {
                    assert(tail.skip(1) =~= span@.skip(j + 1));
                    match spec_unescape(span@.skip(j + 1)) {
                        Ok(t) => {
                            assert(spec_unescape(tail) == Ok::<Seq<u8>, (ErrorReason, Seq<u8>)>(
                                seq![tail[0]] + t,
                            ));
                            assert(out@ + (seq![tail[0]] + t) =~= out@.push(tail[0]) + t);
                        },
                        Err(_) => {},
                    }
                }
                let bb = *b;
                out.push(bb);
                j += 1;
            } else {
                if span_len - j <= 2 {
                    let mut debug_bytes: Vec<u8> = Vec::new();
                    debug_bytes.push(BACKSLASH);
                    let mut t: usize = j + 1;
                    while t < span_len
                        invariant
                            j + 1 <= t <= span_len,
                            span_len == span@.len(),
                            debug_bytes@ == seq![BACKSLASH] + span@.subrange(
                                j + 1,
                                t as int,
                            ),
                        decreases span_len - t,
                    {
                        let x = vstd::slice::slice_index_get(span, t);
                        debug_bytes.push(*x);
                        t += 1;
                        proof {
                            assert(debug_bytes@ =~= seq![BACKSLASH] + span@.subrange(
                                j + 1,
                                t as int,
                            ));
                        }
                    }
                    debug_bytes.push(QUOTE);
                    proof {
                        assert(tail.skip(1) =~= span@.subrange(j + 1, span_len as int));
                        assert(debug_bytes@ =~= seq![BACKSLASH] + tail.skip(1) + seq![QUOTE]);
                        assert(spec_unescape(tail) == Err::<Seq<u8>, (ErrorReason, Seq<u8>)>(
                            (ErrorReason::IncompleteEscapeSequence, debug_bytes@),
                        ));
                        assert(spec_string_value(s) == Err::<
                            (Seq<char>, int),
                            (ErrorReason, Option<Seq<u8>>),
                        >((ErrorReason::IncompleteEscapeSequence, Some(debug_bytes@))));
                    }
                    return Err(DecodeError {
                        reason: ErrorReason::IncompleteEscapeSequence,
                        debug_bytes,
                    });
                }
                let c1 = *vstd::slice::slice_index_get(span, j + 1);
                let c2 = *vstd::slice::slice_index_get(span, j + 2);
                proof {
                    assert(tail[1] == c1 && tail[2] == c2);
                    assert(tail.take(3) =~= seq![BACKSLASH, c1, c2]);
                }
                let hex1 = if D0 <= c1 && c1 <= D9 {
                    Some(c1 - D0)
                } else if LC_A <= c1 && c1 <= LC_F {
                    Some(c1 - LC_A + 10)
                } else {
                    None
                };
                let hex2 = if D0 <= c2 && c2 <= D9 {
                    Some(c2 - D0)
                } else if LC_A <= c2 && c2 <= LC_F {
                    Some(c2 - LC_A + 10)
                } else {
                    None
                };
                let (h1, h2) = match (hex1, hex2) {
                    (Some(h1), Some(h2)) => (h1, h2),
                    _ => {
                        let mut debug_bytes: Vec<u8> = Vec::new();
                        debug_bytes.push(BACKSLASH);
                        debug_bytes.push(c1);
                        debug_bytes.push(c2);
                        proof {
                            assert(debug_bytes@ =~= tail.take(3));
                            assert(!(is_lower_hex(tail[1]) && is_lower_hex(tail[2])));
                            assert(spec_unescape(tail) == Err::<Seq<u8>, (ErrorReason, Seq<u8>)>(
                                (ErrorReason::InvalidEscapeSequence, debug_bytes@),
                            ));
                            assert(spec_string_value(s) == Err::<
                                (Seq<char>, int),
                                (ErrorReason, Option<Seq<u8>>),
                            >((ErrorReason::InvalidEscapeSequence, Some(debug_bytes@))));
                        }
                        return Err(DecodeError {
                            reason: ErrorReason::InvalidEscapeSequence,
                            debug_bytes,
                        });
                    },
                };
                let v: u8 = 16 * h1 + h2;
                proof {
                    assert(v as int == 16 * hex_val(tail[1]) + hex_val(tail[2]));
                }
                if v <= 0x1f || v == QUOTE || v == BACKSLASH || v == 0x7f {
                    proof {
                        assert(tail.skip(3) =~= span@.skip(j + 3));
                        match spec_unescape(span@.skip(j + 3)) {
                            Ok(t) => {
                                assert(spec_unescape(tail) == Ok::<
                                    Seq<u8>,
                                    (ErrorReason, Seq<u8>),
                                >(seq![v] + t));
                                assert(out@ + (seq![v] + t) =~= out@.push(v) + t);
                            },
                            Err(_) => {},
                        }
                    }
                    out.push(v);
                    j += 3;
                } else {
                    let mut debug_bytes: Vec<u8> = Vec::new();
                    debug_bytes.push(BACKSLASH);
                    debug_bytes.push(c1);
                    debug_bytes.push(c2);
                    proof {
                        assert(debug_bytes@ =~= tail.take(3));
                        assert(!must_escape((16 * hex_val(tail[1]) + hex_val(tail[2])) as u8));
                        assert(spec_unescape(tail) == Err::<Seq<u8>, (ErrorReason, Seq<u8>)>(
                            (ErrorReason::InvalidEscapeSequence, debug_bytes@),
                        ));
                        assert(spec_string_value(s) == Err::<
                            (Seq<char>, int),
                            (ErrorReason, Option<Seq<u8>>),
                        >((ErrorReason::InvalidEscapeSequence, Some(debug_bytes@))));
                    }
                    return Err(DecodeError {
                        reason: ErrorReason::InvalidEscapeSequence,
                        debug_bytes,
                    });
                }
            }
        }
        if !crate::text::check_utf8(out.as_slice()) {
            return Err(self.err(ErrorReason::NotUtf8));
        }
        let value = crate::text::string_from_utf8(out);
        self.advance(i + 1);
        proof {
            assert(spec_string_value(s) == Ok::<(Seq<char>, int), (ErrorReason, Option<Seq<u8>>)>(
                (value@, i + 1),
            ));
        }
        match self.close_item(ErrorReason::MalformedString) {
            Ok(()) => {
                proof {
                    let n = spec_consume_string(old(self).rem(), old(self).depth())->Ok_0.1;
                    assert(self.rem() =~= old(self).rem().skip(n));
                }
                Ok(value)
            },
            Err(e) => Err(e),
        }
    }
}


/// The name of each error reason, as diagnostics print it.
pub open spec fn reason_str(r: ErrorReason) -> Seq<char> {
    match r {
        ErrorReason::DataNotConsumed => "DataNotConsumed"@,
        ErrorReason::DayOutOfRange => "DayOutOfRange"@,
        ErrorReason::ExpectedBool => "ExpectedBool"@,
        ErrorReason::ExpectedDate => "ExpectedDate"@,
        ErrorReason::ExpectedDateOrTime => "ExpectedDateOrTime"@,
        ErrorReason::ExpectedDay => "ExpectedDay"@,
        ErrorReason::ExpectedHour => "ExpectedHour"@,
        ErrorReason::ExpectedInteger => "ExpectedInteger"@,
        ErrorReason::ExpectedList => "ExpectedList"@,
        ErrorReason::ExpectedListEnd => "ExpectedListEnd"@,
        ErrorReason::ExpectedListSeparator => "ExpectedListSeparator"@,
        ErrorReason::ExpectedMicrosecond => "ExpectedMicrosecond"@,
        ErrorReason::ExpectedMillisecond => "ExpectedMillisecond"@,
        ErrorReason::ExpectedMinute => "ExpectedMinute"@,
        ErrorReason::ExpectedMonth => "ExpectedMonth"@,
        ErrorReason::ExpectedNanosecond => "ExpectedNanosecond"@,
        ErrorReason::ExpectedSecond => "ExpectedSecond"@,
        ErrorReason::ExpectedSingleZero => "ExpectedSingleZero"@,
        ErrorReason::ExpectedString => "ExpectedString"@,
        ErrorReason::ExpectedTime => "ExpectedTime"@,
        ErrorReason::ExpectedTzOffset => "ExpectedTzOffset"@,
        ErrorReason::ExpectedWeek => "ExpectedWeek"@,
        ErrorReason::ExpectedYear => "ExpectedYear"@,
        ErrorReason::ExpectedYearMonth => "ExpectedYearMonth"@,
        ErrorReason::ExpectedYearMonthDay => "ExpectedYearMonthDay"@,
        ErrorReason::ExpectedYearMonthDayHour => "ExpectedYearMonthDayHour"@,
        ErrorReason::ExpectedYearMonthDayHourMinute => "ExpectedYearMonthDayHourMinute"@,
        ErrorReason::ExpectedYearMonthDayHourMinuteMicrosecond => "ExpectedYearMonthDayHourMinuteMicrosecond"@,
        ErrorReason::ExpectedYearMonthDayHourMinuteMicrosecondTzOffset => "ExpectedYearMonthDayHourMinuteMicrosecondTzOffset"@,
        ErrorReason::ExpectedYearMonthDayHourMinuteMillisecond => "ExpectedYearMonthDayHourMinuteMillisecond"@,
        ErrorReason::ExpectedYearMonthDayHourMinuteMillisecondTzOffset => "ExpectedYearMonthDayHourMinuteMillisecondTzOffset"@,
        ErrorReason::ExpectedYearMonthDayHourMinuteNanosecond => "ExpectedYearMonthDayHourMinuteNanosecond"@,
        ErrorReason::ExpectedYearMonthDayHourMinuteNanosecondTzOffset => "ExpectedYearMonthDayHourMinuteNanosecondTzOffset"@,
        ErrorReason::ExpectedYearMonthDayHourMinuteSecond => "ExpectedYearMonthDayHourMinuteSecond"@,
        ErrorReason::ExpectedYearMonthDayHourMinuteSecondTzOffset => "ExpectedYearMonthDayHourMinuteSecondTzOffset"@,
        ErrorReason::ExpectedYearMonthDayHourMinuteTzOffset => "ExpectedYearMonthDayHourMinuteTzOffset"@,
        ErrorReason::ExpectedYearMonthDayHourTzOffset => "ExpectedYearMonthDayHourTzOffset"@,
        ErrorReason::ExpectedYearMonthDayTzOffset => "ExpectedYearMonthDayTzOffset"@,
        ErrorReason::ExpectedYearMonthTzOffset => "ExpectedYearMonthTzOffset"@,
        ErrorReason::ExpectedYearTzOffset => "ExpectedYearTzOffset"@,
        ErrorReason::ExpectedYearWeek => "ExpectedYearWeek"@,
        ErrorReason::ExpectedYearWeekDay => "ExpectedYearWeekDay"@,
        ErrorReason::ExpectedYearWeekDayHour => "ExpectedYearWeekDayHour"@,
        ErrorReason::ExpectedYearWeekDayHourMinute => "ExpectedYearWeekDayHourMinute"@,
        ErrorReason::ExpectedYearWeekDayHourMinuteMicrosecond => "ExpectedYearWeekDayHourMinuteMicrosecond"@,
        ErrorReason::ExpectedYearWeekDayHourMinuteMicrosecondTzOffset => "ExpectedYearWeekDayHourMinuteMicrosecondTzOffset"@,
        ErrorReason::ExpectedYearWeekDayHourMinuteMillisecond => "ExpectedYearWeekDayHourMinuteMillisecond"@,
        ErrorReason::ExpectedYearWeekDayHourMinuteMillisecondTzOffset => "ExpectedYearWeekDayHourMinuteMillisecondTzOffset"@,
        ErrorReason::ExpectedYearWeekDayHourMinuteNanosecond => "ExpectedYearWeekDayHourMinuteNanosecond"@,
        ErrorReason::ExpectedYearWeekDayHourMinuteNanosecondTzOffset => "ExpectedYearWeekDayHourMinuteNanosecondTzOffset"@,
        ErrorReason::ExpectedYearWeekDayHourMinuteSecond => "ExpectedYearWeekDayHourMinuteSecond"@,
        ErrorReason::ExpectedYearWeekDayHourMinuteSecondTzOffset => "ExpectedYearWeekDayHourMinuteSecondTzOffset"@,
        ErrorReason::ExpectedYearWeekDayHourMinuteTzOffset => "ExpectedYearWeekDayHourMinuteTzOffset"@,
        ErrorReason::ExpectedYearWeekDayHourTzOffset => "ExpectedYearWeekDayHourTzOffset"@,
        ErrorReason::ExpectedYearWeekDayTzOffset => "ExpectedYearWeekDayTzOffset"@,
        ErrorReason::ExpectedYearWeekTzOffset => "ExpectedYearWeekTzOffset"@,
        ErrorReason::HourOutOfRange => "HourOutOfRange"@,
        ErrorReason::IncompleteEscapeSequence => "IncompleteEscapeSequence"@,
        ErrorReason::IncorrectDigitGrouping => "IncorrectDigitGrouping"@,
        ErrorReason::IntegerTooLarge => "IntegerTooLarge"@,
        ErrorReason::InvalidEscapeSequence => "InvalidEscapeSequence"@,
        ErrorReason::ListCloseNotConsumed => "ListCloseNotConsumed"@,
        ErrorReason::MalformedBool => "MalformedBool"@,
        ErrorReason::MalformedDate => "MalformedDate"@,
        ErrorReason::MalformedDateTimeTzOffset => "MalformedDateTimeTzOffset"@,
        ErrorReason::MalformedInteger => "MalformedInteger"@,
        ErrorReason::MalformedListEnd => "MalformedListEnd"@,
        ErrorReason::MalformedMonth => "MalformedMonth"@,
        ErrorReason::MalformedString => "MalformedString"@,
        ErrorReason::MalformedTime => "MalformedTime"@,
        ErrorReason::MalformedTimeZoneOffset => "MalformedTimeZoneOffset"@,
        ErrorReason::MalformedWeek => "MalformedWeek"@,
        ErrorReason::MalformedYear => "MalformedYear"@,
        ErrorReason::MicrosecondOutOfRange => "MicrosecondOutOfRange"@,
        ErrorReason::MillisecondOutOfRange => "MillisecondOutOfRange"@,
        ErrorReason::MinuteOutOfRange => "MinuteOutOfRange"@,
        ErrorReason::MonthOutOfRange => "MonthOutOfRange"@,
        ErrorReason::NanosecondOutOfRange => "NanosecondOutOfRange"@,
        ErrorReason::NegativeZero => "NegativeZero"@,
        ErrorReason::NotInList => "NotInList"@,
        ErrorReason::NotUtf8 => "NotUtf8"@,
        ErrorReason::SecondOutOfRange => "SecondOutOfRange"@,
        ErrorReason::TimezoneOffsetHourOutOfRange => "TimezoneOffsetHourOutOfRange"@,
        ErrorReason::TimezoneOffsetMinuteOutOfRange => "TimezoneOffsetMinuteOutOfRange"@,
        ErrorReason::UnclosedString => "UnclosedString"@,
        ErrorReason::UnconsumedData => "UnconsumedData"@,
        ErrorReason::Unimplemented => "Unimplemented"@,
        ErrorReason::WeekOutOfRange => "WeekOutOfRange"@,
        ErrorReason::YearOutOfRange => "YearOutOfRange"@,
        ErrorReason::ZeroTimeZoneMinutesShouldBeOmitted => "ZeroTimeZoneMinutesShouldBeOmitted"@,
        ErrorReason::ZeroTimeZoneOffsetShouldBeZ => "ZeroTimeZoneOffsetShouldBeZ"@,
    }
}

impl DecodeError {
    /// The diagnostic line for this error: the reason's name and the
    /// escaped snapshot of the input near the failure.
    pub fn message(&self) -> (r: String)
        ensures
            r@ == "DecodeError: "@ + reason_str(self.reason) + ": '"@ + vstd::utf8::decode_utf8(
                crate::escape::escape_default_bytes(self.debug_bytes@),
            ) + "'"@,
    {
        let mut out = String::new();
        out.append("DecodeError: ");
        out.append(self.reason_name());
        out.append(": '");
        let escaped = crate::escape::escape_ascii(self.debug_bytes.as_slice());
        out.append(escaped.as_str());
        out.append("'");
        out
    }

    /// The reason's name.
    fn reason_name(&self) -> (r: &'static str)
        ensures
            r@ == reason_str(self.reason),
    {
        match self.reason {
            ErrorReason::DataNotConsumed => "DataNotConsumed",
            ErrorReason::DayOutOfRange => "DayOutOfRange",
            ErrorReason::ExpectedBool => "ExpectedBool",
            ErrorReason::ExpectedDate => "ExpectedDate",
            ErrorReason::ExpectedDateOrTime => "ExpectedDateOrTime",
            ErrorReason::ExpectedDay => "ExpectedDay",
            ErrorReason::ExpectedHour => "ExpectedHour",
            ErrorReason::ExpectedInteger => "ExpectedInteger",
            ErrorReason::ExpectedList => "ExpectedList",
            ErrorReason::ExpectedListEnd => "ExpectedListEnd",
            ErrorReason::ExpectedListSeparator => "ExpectedListSeparator",
            ErrorReason::ExpectedMicrosecond => "ExpectedMicrosecond",
            ErrorReason::ExpectedMillisecond => "ExpectedMillisecond",
            ErrorReason::ExpectedMinute => "ExpectedMinute",
            ErrorReason::ExpectedMonth => "ExpectedMonth",
            ErrorReason::ExpectedNanosecond => "ExpectedNanosecond",
            ErrorReason::ExpectedSecond => "ExpectedSecond",
            ErrorReason::ExpectedSingleZero => "ExpectedSingleZero",
            ErrorReason::ExpectedString => "ExpectedString",
            ErrorReason::ExpectedTime => "ExpectedTime",
            ErrorReason::ExpectedTzOffset => "ExpectedTzOffset",
            ErrorReason::ExpectedWeek => "ExpectedWeek",
            ErrorReason::ExpectedYear => "ExpectedYear",
            ErrorReason::ExpectedYearMonth => "ExpectedYearMonth",
            ErrorReason::ExpectedYearMonthDay => "ExpectedYearMonthDay",
            ErrorReason::ExpectedYearMonthDayHour => "ExpectedYearMonthDayHour",
            ErrorReason::ExpectedYearMonthDayHourMinute => "ExpectedYearMonthDayHourMinute",
            ErrorReason::ExpectedYearMonthDayHourMinuteMicrosecond => "ExpectedYearMonthDayHourMinuteMicrosecond",
            ErrorReason::ExpectedYearMonthDayHourMinuteMicrosecondTzOffset => "ExpectedYearMonthDayHourMinuteMicrosecondTzOffset",
            ErrorReason::ExpectedYearMonthDayHourMinuteMillisecond => "ExpectedYearMonthDayHourMinuteMillisecond",
            ErrorReason::ExpectedYearMonthDayHourMinuteMillisecondTzOffset => "ExpectedYearMonthDayHourMinuteMillisecondTzOffset",
            ErrorReason::ExpectedYearMonthDayHourMinuteNanosecond => "ExpectedYearMonthDayHourMinuteNanosecond",
            ErrorReason::ExpectedYearMonthDayHourMinuteNanosecondTzOffset => "ExpectedYearMonthDayHourMinuteNanosecondTzOffset",
            ErrorReason::ExpectedYearMonthDayHourMinuteSecond => "ExpectedYearMonthDayHourMinuteSecond",
            ErrorReason::ExpectedYearMonthDayHourMinuteSecondTzOffset => "ExpectedYearMonthDayHourMinuteSecondTzOffset",
            ErrorReason::ExpectedYearMonthDayHourMinuteTzOffset => "ExpectedYearMonthDayHourMinuteTzOffset",
            ErrorReason::ExpectedYearMonthDayHourTzOffset => "ExpectedYearMonthDayHourTzOffset",
            ErrorReason::ExpectedYearMonthDayTzOffset => "ExpectedYearMonthDayTzOffset",
            ErrorReason::ExpectedYearMonthTzOffset => "ExpectedYearMonthTzOffset",
            ErrorReason::ExpectedYearTzOffset => "ExpectedYearTzOffset",
            ErrorReason::ExpectedYearWeek => "ExpectedYearWeek",
            ErrorReason::ExpectedYearWeekDay => "ExpectedYearWeekDay",
            ErrorReason::ExpectedYearWeekDayHour => "ExpectedYearWeekDayHour",
            ErrorReason::ExpectedYearWeekDayHourMinute => "ExpectedYearWeekDayHourMinute",
            ErrorReason::ExpectedYearWeekDayHourMinuteMicrosecond => "ExpectedYearWeekDayHourMinuteMicrosecond",
            ErrorReason::ExpectedYearWeekDayHourMinuteMicrosecondTzOffset => "ExpectedYearWeekDayHourMinuteMicrosecondTzOffset",
            ErrorReason::ExpectedYearWeekDayHourMinuteMillisecond => "ExpectedYearWeekDayHourMinuteMillisecond",
            ErrorReason::ExpectedYearWeekDayHourMinuteMillisecondTzOffset => "ExpectedYearWeekDayHourMinuteMillisecondTzOffset",
            ErrorReason::ExpectedYearWeekDayHourMinuteNanosecond => "ExpectedYearWeekDayHourMinuteNanosecond",
            ErrorReason::ExpectedYearWeekDayHourMinuteNanosecondTzOffset => "ExpectedYearWeekDayHourMinuteNanosecondTzOffset",
            ErrorReason::ExpectedYearWeekDayHourMinuteSecond => "ExpectedYearWeekDayHourMinuteSecond",
            ErrorReason::ExpectedYearWeekDayHourMinuteSecondTzOffset => "ExpectedYearWeekDayHourMinuteSecondTzOffset",
            ErrorReason::ExpectedYearWeekDayHourMinuteTzOffset => "ExpectedYearWeekDayHourMinuteTzOffset",
            ErrorReason::ExpectedYearWeekDayHourTzOffset => "ExpectedYearWeekDayHourTzOffset",
            ErrorReason::ExpectedYearWeekDayTzOffset => "ExpectedYearWeekDayTzOffset",
            ErrorReason::ExpectedYearWeekTzOffset => "ExpectedYearWeekTzOffset",
            ErrorReason::HourOutOfRange => "HourOutOfRange",
            ErrorReason::IncompleteEscapeSequence => "IncompleteEscapeSequence",
            ErrorReason::IncorrectDigitGrouping => "IncorrectDigitGrouping",
            ErrorReason::IntegerTooLarge => "IntegerTooLarge",
            ErrorReason::InvalidEscapeSequence => "InvalidEscapeSequence",
            ErrorReason::ListCloseNotConsumed => "ListCloseNotConsumed",
            ErrorReason::MalformedBool => "MalformedBool",
            ErrorReason::MalformedDate => "MalformedDate",
            ErrorReason::MalformedDateTimeTzOffset => "MalformedDateTimeTzOffset",
            ErrorReason::MalformedInteger => "MalformedInteger",
            ErrorReason::MalformedListEnd => "MalformedListEnd",
            ErrorReason::MalformedMonth => "MalformedMonth",
            ErrorReason::MalformedString => "MalformedString",
            ErrorReason::MalformedTime => "MalformedTime",
            ErrorReason::MalformedTimeZoneOffset => "MalformedTimeZoneOffset",
            ErrorReason::MalformedWeek => "MalformedWeek",
            ErrorReason::MalformedYear => "MalformedYear",
            ErrorReason::MicrosecondOutOfRange => "MicrosecondOutOfRange",
            ErrorReason::MillisecondOutOfRange => "MillisecondOutOfRange",
            ErrorReason::MinuteOutOfRange => "MinuteOutOfRange",
            ErrorReason::MonthOutOfRange => "MonthOutOfRange",
            ErrorReason::NanosecondOutOfRange => "NanosecondOutOfRange",
            ErrorReason::NegativeZero => "NegativeZero",
            ErrorReason::NotInList => "NotInList",
            ErrorReason::NotUtf8 => "NotUtf8",
            ErrorReason::SecondOutOfRange => "SecondOutOfRange",
            ErrorReason::TimezoneOffsetHourOutOfRange => "TimezoneOffsetHourOutOfRange",
            ErrorReason::TimezoneOffsetMinuteOutOfRange => "TimezoneOffsetMinuteOutOfRange",
            ErrorReason::UnclosedString => "UnclosedString",
            ErrorReason::UnconsumedData => "UnconsumedData",
            ErrorReason::Unimplemented => "Unimplemented",
            ErrorReason::WeekOutOfRange => "WeekOutOfRange",
            ErrorReason::YearOutOfRange => "YearOutOfRange",
            ErrorReason::ZeroTimeZoneMinutesShouldBeOmitted => "ZeroTimeZoneMinutesShouldBeOmitted",
            ErrorReason::ZeroTimeZoneOffsetShouldBeZ => "ZeroTimeZoneOffsetShouldBeZ",
        }
    }
}

/// Whether `b` may follow a complete date/time component.
fn tz_or_end_byte(b: u8) -> (r: bool)
    ensures
        r == tz_or_end(b),
{
    b == UC_Z || b == PLUS || b == TILDE || b == COMMA || b == CLOSE_BRACKET
}

} // verus!
